//! The neighbourhood of a found path.
//!
//! The artists of the path are joined by the artists that are linked to most
//! of them, most similar first, until a budget of artists is used up.

use crate::fx::id_map_contains;
use crate::fx::id_map_insert;
use crate::fx::id_map_len;
use crate::fx::id_map_new;
use crate::fx::id_set_contains;
use crate::fx::id_set_insert;
use crate::fx::id_set_new;
use crate::pathfinding::graph::GraphView;
use crate::pathfinding::utils::get_artist_connections;
use crate::pathfinding::utils::PathStep;
use crate::pathfinding_config::PathfindingConfig;
use crate::similarity::sim_max;
use crate::similarity::sim_rank;
use crate::similarity::similarity_above;
use crate::similarity::similarity_max;
use crate::similarity::SIMILARITY_ZERO;
use rustc_hash::FxHashMap;
use rustc_hash::FxHashSet;
use vstd::prelude::*;

verus! {

/// For each artist found, the similarity of the edge that led to it and its
/// layer.
pub type DiscoveredArtists = FxHashMap<u128, (u32, usize)>;

/// For each artist found, its edges.
pub type ArtistConnections = FxHashMap<u128, Vec<PathStep>>;

/// The forward and the reverse adjacency file, each with its index.
pub struct BiDirectionalGraphs<'a> {
    pub forward: (&'a [u8], &'a FxHashMap<u128, u64>),
    pub reverse: (&'a [u8], &'a FxHashMap<u128, u64>),
}

impl<'a> BiDirectionalGraphs<'a> {
    /// The forward graph as a query with policy `config` sees it.
    pub open spec fn forward_view(&self, config: PathfindingConfig) -> GraphView {
        GraphView { data: self.forward.0@, index: self.forward.1@, config }
    }

    /// The reverse graph as a query with policy `config` sees it.
    pub open spec fn reverse_view(&self, config: PathfindingConfig) -> GraphView {
        GraphView { data: self.reverse.0@, index: self.reverse.1@, config }
    }
}

/// The index of the first edge of `s` that leads to `id`.
pub open spec fn first_index(s: Seq<PathStep>, id: u128) -> Option<int>
    decreases s.len(),
{
    if s.len() == 0 {
        None
    } else {
        match first_index(s.drop_last(), id) {
            Some(i) => Some(i),
            None => if s.last().0 == id {
                Some(s.len() - 1)
            } else {
                None
            },
        }
    }
}

/// What is known of the index that `first_index` gives.
pub proof fn lemma_first_index(s: Seq<PathStep>, id: u128)
    ensures
        match first_index(s, id) {
            Some(i) => 0 <= i < s.len() && s[i].0 == id && forall|j: int|
                0 <= j < i ==> (#[trigger] s[j]).0 != id,
            None => forall|j: int| 0 <= j < s.len() ==> (#[trigger] s[j]).0 != id,
        },
    decreases s.len(),
{
    if s.len() > 0 {
        lemma_first_index(s.drop_last(), id);
        match first_index(s.drop_last(), id) {
            Some(i) => {
                assert(s.drop_last()[i] == s[i]);
                assert forall|j: int| 0 <= j < i implies (#[trigger] s[j]).0 != id by {
                    assert(s.drop_last()[j] == s[j]);
                }
            },
            None => {
                assert forall|j: int| 0 <= j < s.len() - 1 implies (#[trigger] s[j]).0 != id by {
                    assert(s.drop_last()[j] == s[j]);
                }
            },
        }
    }
}

/// An index with the properties of the first is the first.
pub proof fn lemma_first_index_is(s: Seq<PathStep>, id: u128, i: int)
    requires
        0 <= i < s.len(),
        s[i].0 == id,
        forall|j: int| 0 <= j < i ==> (#[trigger] s[j]).0 != id,
    ensures
        first_index(s, id) == Some(i),
{
    lemma_first_index(s, id);
}

/// The edges `acc` with edge `e` merged in: where `acc` has an edge to the
/// same artist, the first such edge takes the higher of the two
/// similarities; else `e` is added at the end.
pub open spec fn merge_one(acc: Seq<PathStep>, e: PathStep) -> Seq<PathStep> {
    match first_index(acc, e.0) {
        Some(i) => if sim_rank(e.1) > sim_rank(acc[i].1) {
            acc.update(i, (e.0, e.1))
        } else {
            acc
        },
        None => acc.push(e),
    }
}

/// The forward edges of an artist with its reverse edges merged in, one
/// after the other.
pub open spec fn merged(forward: Seq<PathStep>, reverse: Seq<PathStep>) -> Seq<PathStep>
    decreases reverse.len(),
{
    if reverse.len() == 0 {
        forward
    } else {
        merge_one(merged(forward, reverse.drop_last()), reverse.last())
    }
}

/// The edges of artist `a` in both graphs, merged.
pub open spec fn merged_edges(fwd: GraphView, rev: GraphView, a: u128) -> Seq<PathStep> {
    merged(fwd.edges(a), rev.edges(a))
}

/// Whether `id` is an artist of the path.
pub open spec fn on_path(path: Seq<PathStep>, id: u128) -> bool {
    exists|i: int| 0 <= i < path.len() && (#[trigger] path[i]).0 == id
}

/// The artists of the path, each with its similarity and its place on the
/// path; the last place where an artist stands on the path twice.
pub open spec fn seed(path: Seq<PathStep>) -> Map<u128, (u32, usize)>
    decreases path.len(),
{
    if path.len() == 0 {
        Map::empty()
    } else {
        seed(path.drop_last()).insert(path.last().0, (path.last().1, (path.len() - 1) as usize))
    }
}

/// The seed holds exactly the artists of the path, and no more entries than
/// the path has steps.
pub proof fn lemma_seed(path: Seq<PathStep>)
    ensures
        seed(path).dom().finite(),
        seed(path).len() <= path.len(),
        forall|id: u128| seed(path).contains_key(id) <==> on_path(path, id),
    decreases path.len(),
{
    if path.len() > 0 {
        let t = path.drop_last();
        lemma_seed(t);
        assert forall|id: u128| seed(path).contains_key(id) <==> on_path(path, id) by {
            if on_path(path, id) {
                let i = choose|i: int| 0 <= i < path.len() && (#[trigger] path[i]).0 == id;
                if i < t.len() {
                    assert(t[i].0 == id);
                }
            }
            if on_path(t, id) {
                let i = choose|i: int| 0 <= i < t.len() && (#[trigger] t[i]).0 == id;
                assert(path[i].0 == id);
            }
            if id == path.last().0 {
                assert(path[path.len() - 1].0 == id);
            }
        }
    }
}


/// An artist beside the path: the best similarity of an edge that leads to
/// it from the path, and the number of such edges.
#[derive(Debug, Clone, Copy, PartialEq, Eq, Structural)]
pub struct NeighborInfo {
    pub artist: u128,
    pub similarity: u32,
    pub path_connections: usize,
}

/// The index of the entry for `id`, where there is one.
pub open spec fn info_index(infos: Seq<NeighborInfo>, id: u128) -> Option<int>
    decreases infos.len(),
{
    if infos.len() == 0 {
        None
    } else {
        match info_index(infos.drop_last(), id) {
            Some(i) => Some(i),
            None => if infos.last().artist == id {
                Some(infos.len() - 1)
            } else {
                None
            },
        }
    }
}

/// What is known of the index that `info_index` gives.
pub proof fn lemma_info_index(infos: Seq<NeighborInfo>, id: u128)
    ensures
        match info_index(infos, id) {
            Some(i) => 0 <= i < infos.len() && infos[i].artist == id && forall|j: int|
                0 <= j < i ==> (#[trigger] infos[j]).artist != id,
            None => forall|j: int| 0 <= j < infos.len() ==> (#[trigger] infos[j]).artist != id,
        },
    decreases infos.len(),
{
    if infos.len() > 0 {
        lemma_info_index(infos.drop_last(), id);
        match info_index(infos.drop_last(), id) {
            Some(i) => {
                assert(infos.drop_last()[i] == infos[i]);
                assert forall|j: int| 0 <= j < i implies (#[trigger] infos[j]).artist != id by {
                    assert(infos.drop_last()[j] == infos[j]);
                }
            },
            None => {
                assert forall|j: int| 0 <= j < infos.len() - 1 implies (#[trigger] infos[j]).artist
                    != id by {
                    assert(infos.drop_last()[j] == infos[j]);
                }
            },
        }
    }
}

/// A count raised by one, as far as the machine counts.
pub open spec fn one_more(n: usize) -> usize {
    if n < usize::MAX {
        (n + 1) as usize
    } else {
        n
    }
}

/// The entries with one more edge counted. An edge to an artist of the path
/// does not count.
pub open spec fn tally_one(infos: Seq<NeighborInfo>, path: Seq<PathStep>, e: PathStep) -> Seq<
    NeighborInfo,
> {
    if on_path(path, e.0) {
        infos
    } else {
        match info_index(infos, e.0) {
            Some(i) => infos.update(
                i,
                NeighborInfo {
                    artist: e.0,
                    similarity: sim_max(infos[i].similarity, e.1),
                    path_connections: one_more(infos[i].path_connections),
                },
            ),
            None => infos.push(
                NeighborInfo {
                    artist: e.0,
                    similarity: sim_max(SIMILARITY_ZERO, e.1),
                    path_connections: 1,
                },
            ),
        }
    }
}

/// The entries with the edges of one artist of the path counted.
pub open spec fn tally_list(infos: Seq<NeighborInfo>, path: Seq<PathStep>, edges: Seq<PathStep>) -> Seq<
    NeighborInfo,
>
    decreases edges.len(),
{
    if edges.len() == 0 {
        infos
    } else {
        tally_one(tally_list(infos, path, edges.drop_last()), path, edges.last())
    }
}

/// The entries for the edges of the first `n` artists of the path. An artist
/// that stands on the path twice counts once.
pub open spec fn tally_path(fwd: GraphView, rev: GraphView, path: Seq<PathStep>, n: int) -> Seq<
    NeighborInfo,
>
    decreases n,
{
    if n <= 0 {
        Seq::empty()
    } else {
        let before = tally_path(fwd, rev, path, n - 1);
        if on_path(path.take(n - 1), path[n - 1].0) {
            before
        } else {
            tally_list(before, path, merged_edges(fwd, rev, path[n - 1].0))
        }
    }
}

/// Whether `a` goes before `b`: it has more edges from the path, or as many
/// and a higher similarity.
pub open spec fn goes_before(a: NeighborInfo, b: NeighborInfo) -> bool {
    a.path_connections > b.path_connections || (a.path_connections == b.path_connections
        && sim_rank(a.similarity) > sim_rank(b.similarity))
}

/// `e` put into `s` behind the last entry that it does not go before.
pub open spec fn insert_by_priority(s: Seq<NeighborInfo>, e: NeighborInfo) -> Seq<NeighborInfo>
    decreases s.len(),
{
    if s.len() == 0 {
        seq![e]
    } else if !goes_before(e, s.last()) {
        s.push(e)
    } else {
        insert_by_priority(s.drop_last(), e).push(s.last())
    }
}

/// The entries in the order in which they are taken in: by falling number of
/// edges from the path, then by falling similarity; entries that are alike in
/// both keep their order.
pub open spec fn sort_by_priority(s: Seq<NeighborInfo>) -> Seq<NeighborInfo>
    decreases s.len(),
{
    if s.len() == 0 {
        Seq::empty()
    } else {
        insert_by_priority(sort_by_priority(s.drop_last()), s.last())
    }
}

/// The artists found once the candidates have been taken in, in their order,
/// for as long as fewer than `budget` artists have been found.
pub open spec fn take_in(
    found: Map<u128, (u32, usize)>,
    candidates: Seq<NeighborInfo>,
    budget: usize,
    layer: usize,
) -> Map<u128, (u32, usize)>
    decreases candidates.len(),
{
    if candidates.len() == 0 || found.len() >= budget {
        found
    } else {
        let c = candidates[0];
        let next = if found.contains_key(c.artist) {
            found
        } else {
            found.insert(c.artist, (c.similarity, layer))
        };
        take_in(next, candidates.skip(1), budget, layer)
    }
}

/// The artists of a path's neighbourhood: the artists of the path and, where
/// the budget is larger than the path, the candidates beside it in their
/// order, for as long as the budget lasts.
pub open spec fn neighborhood(fwd: GraphView, rev: GraphView, path: Seq<PathStep>, budget: usize) -> Map<
    u128,
    (u32, usize),
> {
    if budget <= path.len() {
        seed(path)
    } else {
        take_in(
            seed(path),
            sort_by_priority(tally_path(fwd, rev, path, path.len() as int)),
            budget,
            path.len() as usize,
        )
    }
}

/// Whether `connections` holds, for exactly the artists of `found`, the
/// merged edges of each.
pub open spec fn holds_edges_of(
    connections: Map<u128, Vec<PathStep>>,
    found: Set<u128>,
    fwd: GraphView,
    rev: GraphView,
) -> bool {
    &&& connections.dom() == found
    &&& forall|a: u128| #[trigger]
        connections.contains_key(a) ==> connections[a]@ == merged_edges(fwd, rev, a)
}

/// Taking candidates in keeps what was found, stays finite, and goes beyond
/// the budget only where more than that had been found before.
pub proof fn lemma_take_in(
    found: Map<u128, (u32, usize)>,
    candidates: Seq<NeighborInfo>,
    budget: usize,
    layer: usize,
)
    requires
        found.dom().finite(),
    ensures
        take_in(found, candidates, budget, layer).dom().finite(),
        found.dom().subset_of(take_in(found, candidates, budget, layer).dom()),
        forall|a: u128| #[trigger]
            found.contains_key(a) ==> take_in(found, candidates, budget, layer)[a] == found[a],
        take_in(found, candidates, budget, layer).len() <= budget || take_in(
            found,
            candidates,
            budget,
            layer,
        ) == found,
    decreases candidates.len(),
{
    if candidates.len() == 0 || found.len() >= budget {
    } else {
        let c = candidates[0];
        let next = if found.contains_key(c.artist) {
            found
        } else {
            found.insert(c.artist, (c.similarity, layer))
        };
        lemma_take_in(next, candidates.skip(1), budget, layer);
        let r = take_in(next, candidates.skip(1), budget, layer);
        assert(next.len() <= budget);
        assert forall|a: u128| found.contains_key(a) implies r.contains_key(a) && r[a]
            == found[a] by {
            assert(next.contains_key(a));
        }
    }
}

/// Merges the reverse edges of an artist into its forward edges.
pub fn merge_connections(forward_connections: Vec<PathStep>, reverse_connections: Vec<
    PathStep,
>) -> (r: Vec<PathStep>)
    ensures
        r@ == merged(forward_connections@, reverse_connections@),
{
    let mut combined = forward_connections;
    let mut k: usize = 0;
    while k < reverse_connections.len()
        invariant
            k <= reverse_connections.len(),
            combined@ == merged(forward_connections@, reverse_connections@.take(k as int)),
        decreases reverse_connections.len() - k,
    {
        let (reverse_artist, reverse_sim) = reverse_connections[k];
        proof {
            let upto = reverse_connections@.take(k + 1);
            assert(upto.drop_last() =~= reverse_connections@.take(k as int));
            assert(upto.last() == (reverse_artist, reverse_sim));
        }
        let mut existing_pos: usize = 0;
        while existing_pos < combined.len() && combined[existing_pos].0 != reverse_artist
            invariant
                existing_pos <= combined.len(),
                forall|j: int| 0 <= j < existing_pos ==> (#[trigger] combined@[j]).0 != reverse_artist,
            decreases combined.len() - existing_pos,
        {
            existing_pos = existing_pos + 1;
        }
        proof {
            lemma_first_index(combined@, reverse_artist);
            if existing_pos < combined.len() {
                lemma_first_index_is(combined@, reverse_artist, existing_pos as int);
            }
        }
        if existing_pos < combined.len() {
            if similarity_above(reverse_sim, combined[existing_pos].1) {
                combined.set(existing_pos, (reverse_artist, reverse_sim));
            }
        } else {
            combined.push((reverse_artist, reverse_sim));
        }
        k = k + 1;
    }
    assert(reverse_connections@.take(reverse_connections.len() as int) =~= reverse_connections@);
    combined
}

/// The edges of one artist in both graphs, merged.
pub fn combined_connections(artist_id: u128, graphs: &BiDirectionalGraphs, config: &PathfindingConfig) -> (r:
    Vec<PathStep>)
    ensures
        r@ == merged_edges(graphs.forward_view(*config), graphs.reverse_view(*config), artist_id),
{
    let forward_connections = get_artist_connections(
        artist_id,
        graphs.forward.0,
        graphs.forward.1,
        config,
    );
    let reverse_connections = get_artist_connections(
        artist_id,
        graphs.reverse.0,
        graphs.reverse.1,
        config,
    );
    merge_connections(forward_connections, reverse_connections)
}


/// Where `e` goes into `s`: index `j`, when `e` goes before everything from
/// `j` on and not before the entry ahead of `j`.
proof fn lemma_priority_position(s: Seq<NeighborInfo>, e: NeighborInfo, j: int)
    requires
        0 <= j <= s.len(),
        forall|k: int| j <= k < s.len() ==> goes_before(e, #[trigger] s[k]),
        j > 0 ==> !goes_before(e, s[j - 1]),
    ensures
        insert_by_priority(s, e) == s.insert(j, e),
    decreases s.len(),
{
    if s.len() == 0 {
        assert(s.insert(j, e) =~= seq![e]);
    } else if j == s.len() {
        assert(s.insert(j, e) =~= s.push(e));
    } else {
        let t = s.drop_last();
        assert(goes_before(e, s[s.len() - 1]));
        assert forall|k: int| j <= k < t.len() implies goes_before(e, #[trigger] t[k]) by {
            assert(t[k] == s[k]);
        }
        lemma_priority_position(t, e, j);
        assert(s.insert(j, e) =~= t.insert(j, e).push(s.last()));
    }
}

/// Whether entry `a` goes before entry `b`.
fn takes_precedence(a: &NeighborInfo, b: &NeighborInfo) -> (r: bool)
    ensures
        r == goes_before(*a, *b),
{
    a.path_connections > b.path_connections || (a.path_connections == b.path_connections
        && similarity_above(a.similarity, b.similarity))
}

/// Orders the candidates: most edges from the path first, then most similar
/// first.
pub fn prioritize_neighbors(neighbor_info: Vec<NeighborInfo>) -> (r: Vec<NeighborInfo>)
    ensures
        r@ == sort_by_priority(neighbor_info@),
{
    let mut neighbors: Vec<NeighborInfo> = Vec::new();
    let mut i: usize = 0;
    while i < neighbor_info.len()
        invariant
            i <= neighbor_info.len(),
            neighbors@ == sort_by_priority(neighbor_info@.take(i as int)),
        decreases neighbor_info.len() - i,
    {
        let e = neighbor_info[i];
        proof {
            let upto = neighbor_info@.take(i + 1);
            assert(upto.drop_last() =~= neighbor_info@.take(i as int));
            assert(upto.last() == e);
        }
        let mut j = neighbors.len();
        while j > 0 && takes_precedence(&e, &neighbors[j - 1])
            invariant
                j <= neighbors.len(),
                forall|k: int| j <= k < neighbors.len() ==> goes_before(e, #[trigger] neighbors@[k]),
            decreases j,
        {
            j = j - 1;
        }
        proof {
            lemma_priority_position(neighbors@, e, j as int);
        }
        neighbors.insert(j, e);
        i = i + 1;
    }
    assert(neighbor_info@.take(neighbor_info.len() as int) =~= neighbor_info@);
    neighbors
}

/// Counts one edge that leaves the path.
fn tally_edge(infos: &mut Vec<NeighborInfo>, path_set: &FxHashSet<u128>, edge: PathStep, Ghost(path): Ghost<
    Seq<PathStep>,
>)
    requires
        forall|id: u128| path_set@.contains(id) <==> on_path(path, id),
    ensures
        final(infos)@ == tally_one(old(infos)@, path, edge),
{
    let (neighbor, similarity) = edge;
    if id_set_contains(path_set, neighbor) {
        return ;
    }
    let mut at: usize = 0;
    while at < infos.len() && infos[at].artist != neighbor
        invariant
            at <= infos.len(),
            infos@ == old(infos)@,
            forall|j: int| 0 <= j < at ==> (#[trigger] infos@[j]).artist != neighbor,
        decreases infos.len() - at,
    {
        at = at + 1;
    }
    proof {
        lemma_info_index(infos@, neighbor);
    }
    if at < infos.len() {
        let entry = infos[at];
        let count = if entry.path_connections < usize::MAX {
            entry.path_connections + 1
        } else {
            entry.path_connections
        };
        infos.set(
            at,
            NeighborInfo {
                artist: neighbor,
                similarity: similarity_max(entry.similarity, similarity),
                path_connections: count,
            },
        );
    } else {
        infos.push(
            NeighborInfo {
                artist: neighbor,
                similarity: similarity_max(SIMILARITY_ZERO, similarity),
                path_connections: 1,
            },
        );
    }
}

/// For every artist beside the path, counts the edges that lead to it from
/// the path and finds the best similarity among them.
pub fn analyze_neighbor_connectivity(
    path: &[PathStep],
    graphs: &BiDirectionalGraphs,
    config: &PathfindingConfig,
) -> (r: Vec<NeighborInfo>)
    ensures
        r@ == tally_path(
            graphs.forward_view(*config),
            graphs.reverse_view(*config),
            path@,
            path@.len() as int,
        ),
{
    let ghost fwd = graphs.forward_view(*config);
    let ghost rev = graphs.reverse_view(*config);
    let mut path_set = id_set_new();
    let mut i: usize = 0;
    while i < path.len()
        invariant
            i <= path.len(),
            forall|id: u128| path_set@.contains(id) <==> on_path(path@.take(i as int), id),
        decreases path.len() - i,
    {
        let ghost before = path_set@;
        id_set_insert(&mut path_set, path[i].0);
        proof {
            lemma_on_path_extend(path@, i as int);
            assert forall|id: u128| path_set@.contains(id) <==> on_path(
                path@.take(i + 1),
                id,
            ) by {
                assert(before.contains(id) <==> on_path(path@.take(i as int), id));
            }
        }
        i = i + 1;
    }
    assert(path@.take(path.len() as int) =~= path@);

    let mut infos: Vec<NeighborInfo> = Vec::new();
    let mut processed = id_set_new();
    let mut n: usize = 0;
    while n < path.len()
        invariant
            n <= path.len(),
            fwd == graphs.forward_view(*config),
            rev == graphs.reverse_view(*config),
            forall|id: u128| path_set@.contains(id) <==> on_path(path@, id),
            forall|id: u128| processed@.contains(id) <==> on_path(path@.take(n as int), id),
            infos@ == tally_path(fwd, rev, path@, n as int),
        decreases path.len() - n,
    {
        let artist_id = path[n].0;
        if !id_set_contains(&processed, artist_id) {
            let edges = combined_connections(artist_id, graphs, config);
            let ghost start = infos@;
            let mut k: usize = 0;
            while k < edges.len()
                invariant
                    k <= edges.len(),
                    forall|id: u128| path_set@.contains(id) <==> on_path(path@, id),
                    infos@ == tally_list(start, path@, edges@.take(k as int)),
                decreases edges.len() - k,
            {
                proof {
                    let upto = edges@.take(k + 1);
                    assert(upto.drop_last() =~= edges@.take(k as int));
                    assert(upto.last() == edges@[k as int]);
                }
                tally_edge(&mut infos, &path_set, edges[k], Ghost(path@));
                k = k + 1;
            }
            assert(edges@.take(edges.len() as int) =~= edges@);
        }
        let ghost before = processed@;
        id_set_insert(&mut processed, artist_id);
        proof {
            lemma_on_path_extend(path@, n as int);
            assert forall|id: u128| processed@.contains(id) <==> on_path(
                path@.take(n + 1),
                id,
            ) by {
                assert(before.contains(id) <==> on_path(path@.take(n as int), id));
            }
        }
        n = n + 1;
    }
    infos
}

/// The artists of one more step of a path are those before and the artist of
/// that step.
proof fn lemma_on_path_extend(path: Seq<PathStep>, i: int)
    requires
        0 <= i < path.len(),
    ensures
        forall|id: u128|
            on_path(path.take(i + 1), id) <==> (on_path(path.take(i), id) || id == path[i].0),
{
    let a = path.take(i);
    let b = path.take(i + 1);
    assert forall|id: u128| on_path(b, id) <==> (on_path(a, id) || id == path[i].0) by {
        if on_path(b, id) {
            let j = choose|j: int| 0 <= j < b.len() && (#[trigger] b[j]).0 == id;
            if j < i {
                assert(a[j].0 == id);
            }
        }
        if on_path(a, id) {
            let j = choose|j: int| 0 <= j < a.len() && (#[trigger] a[j]).0 == id;
            assert(b[j].0 == id);
        }
        if id == path[i].0 {
            assert(b[i].0 == id);
        }
    }
}

/// Fetches the merged edges of every artist of the path.
pub fn collect_path_connections(
    path: &[PathStep],
    graphs: &BiDirectionalGraphs,
    config: &PathfindingConfig,
) -> (r: ArtistConnections)
    ensures
        holds_edges_of(
            r@,
            seed(path@).dom(),
            graphs.forward_view(*config),
            graphs.reverse_view(*config),
        ),
{
    let ghost fwd = graphs.forward_view(*config);
    let ghost rev = graphs.reverse_view(*config);
    let mut connections: ArtistConnections = id_map_new();
    let mut i: usize = 0;
    assert(connections@.dom() =~= seed(path@.take(0)).dom());
    while i < path.len()
        invariant
            i <= path.len(),
            fwd == graphs.forward_view(*config),
            rev == graphs.reverse_view(*config),
            holds_edges_of(connections@, seed(path@.take(i as int)).dom(), fwd, rev),
        decreases path.len() - i,
    {
        let artist_id = path[i].0;
        let edges = combined_connections(artist_id, graphs, config);
        id_map_insert(&mut connections, artist_id, edges);
        proof {
            let upto = path@.take(i + 1);
            assert(upto.drop_last() =~= path@.take(i as int));
            assert(upto.last() == path@[i as int]);
            assert(connections@.dom() =~= seed(upto).dom());
        }
        i = i + 1;
    }
    assert(path@.take(path.len() as int) =~= path@);
    connections
}

/// What taking candidates in needs to know.
struct NeighborContext<'a> {
    graphs: BiDirectionalGraphs<'a>,
    config: &'a PathfindingConfig,
    budget: usize,
    path_length: usize,
}

/// Takes the candidates in, in their order, for as long as fewer artists
/// than the budget have been found, and fetches the edges of each.
fn add_neighbors_to_discovered(
    neighbors: Vec<NeighborInfo>,
    discovered_artists: &mut DiscoveredArtists,
    all_connections: &mut ArtistConnections,
    context: &NeighborContext,
)
    requires
        old(discovered_artists)@.dom().finite(),
        holds_edges_of(
            old(all_connections)@,
            old(discovered_artists)@.dom(),
            context.graphs.forward_view(*context.config),
            context.graphs.reverse_view(*context.config),
        ),
    ensures
        final(discovered_artists)@ == take_in(
            old(discovered_artists)@,
            neighbors@,
            context.budget,
            context.path_length,
        ),
        holds_edges_of(
            final(all_connections)@,
            final(discovered_artists)@.dom(),
            context.graphs.forward_view(*context.config),
            context.graphs.reverse_view(*context.config),
        ),
{
    let ghost fwd = context.graphs.forward_view(*context.config);
    let ghost rev = context.graphs.reverse_view(*context.config);
    let ghost goal = take_in(
        old(discovered_artists)@,
        neighbors@,
        context.budget,
        context.path_length,
    );
    let mut i: usize = 0;
    assert(neighbors@.skip(0) =~= neighbors@);
    while i < neighbors.len()
        invariant_except_break
            i <= neighbors.len(),
            discovered_artists@.dom().finite(),
            fwd == context.graphs.forward_view(*context.config),
            rev == context.graphs.reverse_view(*context.config),
            holds_edges_of(all_connections@, discovered_artists@.dom(), fwd, rev),
            take_in(
                discovered_artists@,
                neighbors@.skip(i as int),
                context.budget,
                context.path_length,
            ) == goal,
        ensures
            discovered_artists@ == goal,
            holds_edges_of(all_connections@, discovered_artists@.dom(), fwd, rev),
        decreases neighbors.len() - i,
    {
        if id_map_len(discovered_artists) >= context.budget {
            break ;
        }
        let candidate = neighbors[i];
        proof {
            let rest = neighbors@.skip(i as int);
            assert(rest[0] == candidate);
            assert(rest.skip(1) =~= neighbors@.skip(i + 1));
        }
        if !id_map_contains(discovered_artists, candidate.artist) {
            id_map_insert(
                discovered_artists,
                candidate.artist,
                (candidate.similarity, context.path_length),
            );
            let edges = combined_connections(candidate.artist, &context.graphs, context.config);
            id_map_insert(all_connections, candidate.artist, edges);
            assert(all_connections@.dom() =~= discovered_artists@.dom());
        }
        i = i + 1;
    }
}

/// Finds the neighbourhood of a path: the artists of the path, each on the
/// layer of its place, and beside them the artists that most edges lead to
/// from the path, until `budget` artists have been found.
///
/// Returns the artists found and the edges of each of them, those of the
/// reverse graph merged into those of the forward graph.
pub fn explore_path_neighborhood(
    path: &[PathStep],
    budget: usize,
    graphs: BiDirectionalGraphs,
    config: &PathfindingConfig,
) -> (r: (DiscoveredArtists, ArtistConnections))
    ensures
        r.0@ == neighborhood(
            graphs.forward_view(*config),
            graphs.reverse_view(*config),
            path@,
            budget,
        ),
        holds_edges_of(
            r.1@,
            r.0@.dom(),
            graphs.forward_view(*config),
            graphs.reverse_view(*config),
        ),
{
    let mut discovered_artists: DiscoveredArtists = id_map_new();
    let mut idx: usize = 0;
    assert(discovered_artists@ =~= seed(path@.take(0)));
    while idx < path.len()
        invariant
            idx <= path.len(),
            discovered_artists@ == seed(path@.take(idx as int)),
        decreases path.len() - idx,
    {
        let (artist_id, similarity) = path[idx];
        id_map_insert(&mut discovered_artists, artist_id, (similarity, idx));
        proof {
            let upto = path@.take(idx + 1);
            assert(upto.drop_last() =~= path@.take(idx as int));
            assert(upto.last() == path@[idx as int]);
        }
        idx = idx + 1;
    }
    assert(path@.take(path.len() as int) =~= path@);
    proof {
        lemma_seed(path@);
    }

    let mut all_connections = collect_path_connections(path, &graphs, config);

    if budget <= path.len() {
        return (discovered_artists, all_connections);
    }
    let neighbor_info = analyze_neighbor_connectivity(path, &graphs, config);
    let prioritized_neighbors = prioritize_neighbors(neighbor_info);

    let context = NeighborContext { graphs, config, budget, path_length: path.len() };
    add_neighbors_to_discovered(
        prioritized_neighbors,
        &mut discovered_artists,
        &mut all_connections,
        &context,
    );
    (discovered_artists, all_connections)
}

} // verus!
