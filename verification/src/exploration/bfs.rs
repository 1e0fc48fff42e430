//! Exploration layer by layer.
//!
//! Starting from the centre, the artists are taken in the order in which
//! they were found, and each brings in those of its neighbours that the
//! index knows and that have not been found yet, until the budget is used up
//! or nobody is left to ask.

use crate::clock::instant_now;
use crate::clock::millis_since;
use crate::exploration::ExplorationResult;
use crate::fx::id_map_contains;
use crate::fx::id_map_get;
use crate::fx::id_map_insert;
use crate::fx::id_map_keys;
use crate::fx::id_map_len;
use crate::fx::id_map_new;
use crate::pathfinding::graph::is_walk;
use crate::pathfinding::graph::walk_step;
use crate::pathfinding::graph::GraphView;
use crate::pathfinding::utils::get_artist_connections;
use crate::pathfinding::utils::PathStep;
use crate::pathfinding_config::PathfindingConfig;
use crate::similarity::SIMILARITY_ONE;
use rustc_hash::FxHashMap;
use std::collections::VecDeque;
use vstd::prelude::*;
use vstd::slice::slice_to_vec;

verus! {

/// The graph that an exploration sees: edges of at least `min_similarity`,
/// at most `max_relations` of them for each artist.
pub open spec fn explored_view(
    data: Seq<u8>,
    index: Map<u128, u64>,
    min_similarity: u32,
    max_relations: usize,
) -> GraphView {
    GraphView {
        data,
        index,
        config: PathfindingConfig {
            min_match: min_similarity,
            top_related: max_relations,
            weighted: false,
        },
    }
}

/// Whether `v`, an artist that was found, hangs on an edge from an artist
/// found one layer above it.
pub open spec fn hangs_on(g: GraphView, found: Map<u128, (u32, usize)>, v: u128, u: u128) -> bool {
    &&& found.contains_key(u)
    &&& found[u].1 + 1 == found[v].1
    &&& g.has_edge(u, v, found[v].0)
}

/// Whether `found` is a layered surrounding of `center`: the centre on layer
/// zero, and every other artist known to the index and hanging on an edge
/// from an artist one layer above.
pub open spec fn is_layered(g: GraphView, center: u128, found: Map<u128, (u32, usize)>) -> bool {
    &&& found.dom().finite()
    &&& found.contains_key(center)
    &&& found[center] == (SIMILARITY_ONE, 0usize)
    &&& forall|v: u128| #[trigger]
        found.contains_key(v) && v != center ==> g.index.contains_key(v) && exists|u: u128|
            hangs_on(g, found, v, u)
}

/// Whether every edge from an artist of `found` to an artist that the index
/// knows leads to an artist of `found`.
pub open spec fn is_complete(g: GraphView, found: Set<u128>) -> bool {
    forall|u: u128, k: int|
        found.contains(u) && 0 <= k < g.edges(u).len() && g.index.contains_key(
            (#[trigger] g.edges(u)[k]).0,
        ) ==> found.contains(g.edges(u)[k].0)
}

/// Whether `connections` holds, for exactly the artists of `found`, the
/// edges of each.
pub open spec fn holds_all_edges(
    connections: Map<u128, Vec<PathStep>>,
    found: Set<u128>,
    g: GraphView,
) -> bool {
    &&& connections.dom() == found
    &&& forall|a: u128| #[trigger] connections.contains_key(a) ==> connections[a]@ == g.edges(a)
}

/// Whether an entry for `v` waits in the queue.
pub open spec fn waits(queue: Seq<(u128, usize)>, v: u128) -> bool {
    exists|i: int| 0 <= i < queue.len() && (#[trigger] queue[i]).0 == v
}

/// Whether every edge of the artists asked so far, and the first `done`
/// edges of the artist being asked, lead to an artist that was found where
/// the index knows it.
pub open spec fn asked_complete(
    g: GraphView,
    found: Map<u128, (u32, usize)>,
    asked: Set<u128>,
    current: u128,
    done: int,
) -> bool {
    &&& forall|u: u128, k: int|
        asked.contains(u) && 0 <= k < g.edges(u).len() && g.index.contains_key(
            (#[trigger] g.edges(u)[k]).0,
        ) ==> found.contains_key(g.edges(u)[k].0)
    &&& forall|k: int|
        0 <= k < done && k < g.edges(current).len() && g.index.contains_key(
            (#[trigger] g.edges(current)[k]).0,
        ) ==> found.contains_key(g.edges(current)[k].0)
}

/// Whether no artist that was found stands on a higher layer than a walk
/// of known artists from the centre to it has steps.
pub open spec fn layers_least(g: GraphView, center: u128, found: Map<u128, (u32, usize)>) -> bool {
    forall|w: Seq<u128>| #[trigger]
        is_known_walk(g, w) && w[0] == center && found.contains_key(w.last()) ==> found[w.last()].1
            <= w.len() - 1
}

/// Whether every artist to which a walk of known artists leads from the
/// centre in no more than `level` steps was found.
pub open spec fn found_within(g: GraphView, center: u128, found: Set<u128>, level: int) -> bool {
    forall|w: Seq<u128>| #[trigger]
        is_known_walk(g, w) && w[0] == center && w.len() - 1 <= level ==> found.contains(w.last())
}

/// Whether no artist left out is nearer to the centre than one that was
/// found: no walk of known artists leads from the centre to an artist left
/// out in fewer steps than the layer of an artist found.
pub open spec fn none_left_nearer(
    g: GraphView,
    center: u128,
    found: Map<u128, (u32, usize)>,
) -> bool {
    forall|v: u128, w: Seq<u128>|
        #![trigger found.contains_key(v), is_known_walk(g, w)]
        found.contains_key(v) && is_known_walk(g, w) && w[0] == center && !found.contains_key(
            w.last(),
        ) ==> found[v].1 <= w.len() - 1
}

/// What holds of the queue while the budget is not used up: its entries
/// stand in the order of their layers, on the layer being asked or the next;
/// and no artist asked stands below the layer being asked.
pub open spec fn in_layers(
    found: Map<u128, (u32, usize)>,
    queue: Seq<(u128, usize)>,
    asked: Set<u128>,
    level: int,
) -> bool {
    &&& forall|i: int, j: int|
        0 <= i <= j < queue.len() ==> (#[trigger] queue[i]).1 <= (#[trigger] queue[j]).1
    &&& forall|i: int| 0 <= i < queue.len() ==> level <= (#[trigger] queue[i]).1 <= level + 1
    &&& forall|v: u128| #[trigger] asked.contains(v) ==> found.contains_key(v) && found[v].1 <= level
}

/// What holds while the surroundings are being found: the artists found are
/// layered; the queue holds artists that were found, each with its layer;
/// every artist found has been asked, is being asked, or waits; as long as
/// the budget is not used up, no edge of an artist asked was passed over and
/// the queue stands in layers; no artist found stands higher than it must,
/// none stands above the layer behind `level`, and every artist within
/// `level` steps was found.
pub open spec fn discovering(
    g: GraphView,
    center: u128,
    found: Map<u128, (u32, usize)>,
    queue: Seq<(u128, usize)>,
    asked: Set<u128>,
    budget: usize,
    current: u128,
    done: int,
    level: int,
) -> bool {
    &&& is_layered(g, center, found)
    &&& level >= 0
    &&& layers_least(g, center, found)
    &&& found_within(g, center, found.dom(), level)
    &&& forall|v: u128| #[trigger] found.contains_key(v) ==> found[v].1 <= level + 1
    &&& found.len() < budget ==> in_layers(found, queue, asked, level)
    &&& forall|v: u128| #[trigger] found.contains_key(v) ==> found[v].1 < found.len()
    &&& forall|i: int|
        0 <= i < queue.len() ==> found.contains_key((#[trigger] queue[i]).0) && found[queue[i].0].1
            == queue[i].1
    &&& forall|v: u128| #[trigger]
        found.contains_key(v) ==> v == current || asked.contains(v) || waits(queue, v)
    &&& found.len() < budget ==> asked_complete(g, found, asked, current, done)
}

/// Taking the next artist from the queue to ask it: its layer is the layer
/// being asked from now on.
proof fn lemma_ask_next(
    g: GraphView,
    center: u128,
    found: Map<u128, (u32, usize)>,
    queue: Seq<(u128, usize)>,
    asked: Set<u128>,
    budget: usize,
    previous: u128,
    level: int,
)
    requires
        discovering(g, center, found, queue, asked, budget, previous, 0, level),
        asked.contains(previous) || waits(queue, previous),
        queue.len() > 0,
        found.len() < budget,
    ensures
        discovering(
            g,
            center,
            found,
            queue.subrange(1, queue.len() as int),
            asked,
            budget,
            queue[0].0,
            0,
            queue[0].1 as int,
        ),
{
    let rest = queue.subrange(1, queue.len() as int);
    let next = queue[0].1 as int;
    assert forall|i: int| 0 <= i < rest.len() implies found.contains_key((#[trigger] rest[i]).0)
        && found[rest[i].0].1 == rest[i].1 by {
        assert(rest[i] == queue[i + 1]);
    }
    assert forall|v: u128| #[trigger] found.contains_key(v) implies v == queue[0].0
        || asked.contains(v) || waits(rest, v) by {
        if v != queue[0].0 && !asked.contains(v) {
            assert(waits(queue, v));
            let i = choose|i: int| 0 <= i < queue.len() && (#[trigger] queue[i]).0 == v;
            assert(rest[i - 1].0 == v);
        }
    }
    assert(level <= queue[0].1 <= level + 1);
    assert forall|w: Seq<u128>| #[trigger]
        is_known_walk(g, w) && w[0] == center && w.len() - 1 <= next implies found.dom().contains(
        w.last(),
    ) by {
        if w.len() - 1 > level {
            lemma_next_layer_found(g, center, found, queue, asked, budget, previous, level, w);
        }
    }
    assert forall|i: int, j: int| 0 <= i <= j < rest.len() implies (#[trigger] rest[i]).1 <= (
    #[trigger] rest[j]).1 by {
        assert(rest[i] == queue[i + 1]);
        assert(rest[j] == queue[j + 1]);
    }
    assert forall|i: int| 0 <= i < rest.len() implies next <= (#[trigger] rest[i]).1 <= next + 1 by {
        assert(rest[i] == queue[i + 1]);
        assert(queue[0].1 <= queue[i + 1].1);
    }
}

/// When the first entry of the queue stands on the next layer, every artist
/// of that layer has been found: the walk to it leads over an artist that
/// has been asked.
proof fn lemma_next_layer_found(
    g: GraphView,
    center: u128,
    found: Map<u128, (u32, usize)>,
    queue: Seq<(u128, usize)>,
    asked: Set<u128>,
    budget: usize,
    previous: u128,
    level: int,
    w: Seq<u128>,
)
    requires
        discovering(g, center, found, queue, asked, budget, previous, 0, level),
        asked.contains(previous) || waits(queue, previous),
        queue.len() > 0,
        found.len() < budget,
        queue[0].1 == level + 1,
        is_known_walk(g, w),
        w[0] == center,
        w.len() - 1 == level + 1,
    ensures
        found.contains_key(w.last()),
{
    let t = w.drop_last();
    assert forall|i: int| 0 <= i < t.len() - 1 implies #[trigger] walk_step(g, t, i) by {
        assert(walk_step(g, w, i));
    }
    assert forall|i: int| 1 <= i < t.len() implies g.index.contains_key(#[trigger] t[i]) by {
        assert(t[i] == w[i]);
    }
    assert(is_known_walk(g, t));
    assert(t[0] == center);
    let u = t.last();
    assert(found.dom().contains(u));
    assert(found[u].1 <= level);
    if waits(queue, u) {
        let i = choose|i: int| 0 <= i < queue.len() && (#[trigger] queue[i]).0 == u;
        assert(queue[0].1 <= queue[i].1);
        assert(found[queue[i].0].1 == queue[i].1);
    }
    assert(asked.contains(u));
    assert(u == w[w.len() - 2]);
    assert(walk_step(g, w, w.len() - 2));
    let s = choose|s: u32| #[trigger] g.has_edge(u, w.last(), s);
    let k = choose|k: int| 0 <= k < g.edges(u).len() && g.edges(u)[k] == (w.last(), s);
    assert(g.index.contains_key(w[w.len() - 1]));
    assert(found.contains_key(g.edges(u)[k].0));
}

/// Passing over an edge of the artist being asked: the neighbour has been
/// found, or the index does not know it, or the budget is used up.
proof fn lemma_pass_over(
    g: GraphView,
    center: u128,
    found: Map<u128, (u32, usize)>,
    queue: Seq<(u128, usize)>,
    asked: Set<u128>,
    budget: usize,
    current: u128,
    k: int,
    level: int,
)
    requires
        discovering(g, center, found, queue, asked, budget, current, k, level),
        0 <= k < g.edges(current).len(),
        found.contains_key(g.edges(current)[k].0) || !g.index.contains_key(g.edges(current)[k].0)
            || found.len() >= budget,
    ensures
        discovering(g, center, found, queue, asked, budget, current, k + 1, level),
{
}

/// Taking in the neighbour at the end of the next edge of the artist being
/// asked.
proof fn lemma_take_neighbor(
    g: GraphView,
    center: u128,
    found: Map<u128, (u32, usize)>,
    queue: Seq<(u128, usize)>,
    asked: Set<u128>,
    budget: usize,
    current: u128,
    k: int,
    level: int,
)
    requires
        discovering(g, center, found, queue, asked, budget, current, k, level),
        found.contains_key(current),
        found[current].1 == level,
        found.len() < budget,
        0 <= k < g.edges(current).len(),
        !found.contains_key(g.edges(current)[k].0),
        g.index.contains_key(g.edges(current)[k].0),
        found[current].1 + 1 <= usize::MAX,
    ensures
        discovering(
            g,
            center,
            found.insert(
                g.edges(current)[k].0,
                (g.edges(current)[k].1, (found[current].1 + 1) as usize),
            ),
            queue.push((g.edges(current)[k].0, (found[current].1 + 1) as usize)),
            asked,
            budget,
            current,
            k + 1,
            level,
        ),
{
    let e = g.edges(current)[k];
    let layer = (found[current].1 + 1) as usize;
    let found2 = found.insert(e.0, (e.1, layer));
    let queue2 = queue.push((e.0, layer));
    assert(g.edges(current).contains(e));
    assert(hangs_on(g, found2, e.0, current));
    assert forall|v: u128| #[trigger] found2.contains_key(v) && v != center implies g.index.contains_key(
        v,
    ) && exists|u: u128| hangs_on(g, found2, v, u) by {
        if v != e.0 {
            let u = choose|u: u128| hangs_on(g, found, v, u);
            assert(hangs_on(g, found2, v, u));
        }
    }
    assert(queue2[queue.len() as int].0 == e.0);
    assert forall|i: int| 0 <= i < queue2.len() implies found2.contains_key(
        (#[trigger] queue2[i]).0,
    ) && found2[queue2[i].0].1 == queue2[i].1 by {
        if i < queue.len() {
            assert(queue2[i] == queue[i]);
        }
    }
    assert forall|v: u128| #[trigger] found2.contains_key(v) implies v == current || asked.contains(
        v,
    ) || waits(queue2, v) by {
        if v == e.0 {
            assert(waits(queue2, v));
        } else if v != current && !asked.contains(v) {
            assert(waits(queue, v));
            let i = choose|i: int| 0 <= i < queue.len() && (#[trigger] queue[i]).0 == v;
            assert(queue2[i].0 == v);
        }
    }
    assert forall|w: Seq<u128>| #[trigger]
        is_known_walk(g, w) && w[0] == center && found2.contains_key(w.last()) implies found2[w.last()].1
        <= w.len() - 1 by {
        if w.last() == e.0 {
            if w.len() - 1 <= level {
                assert(found.dom().contains(w.last()));
            }
        } else {
            assert(found.contains_key(w.last()));
        }
    }
    assert forall|w: Seq<u128>| #[trigger]
        is_known_walk(g, w) && w[0] == center && w.len() - 1 <= level implies found2.dom().contains(
        w.last(),
    ) by {
        assert(found.dom().contains(w.last()));
    }
    if found2.len() < budget {
        assert forall|i: int, j: int| 0 <= i <= j < queue2.len() implies (#[trigger] queue2[i]).1
            <= (#[trigger] queue2[j]).1 by {
            if j < queue.len() {
                assert(queue2[i] == queue[i]);
                assert(queue2[j] == queue[j]);
            } else if i < queue.len() {
                assert(queue2[i] == queue[i]);
            }
        }
        assert forall|i: int| 0 <= i < queue2.len() implies level <= (#[trigger] queue2[i]).1
            <= level + 1 by {
            if i < queue.len() {
                assert(queue2[i] == queue[i]);
            }
        }
    }
}

/// Having asked the artist being asked about all its edges.
proof fn lemma_asked(
    g: GraphView,
    center: u128,
    found: Map<u128, (u32, usize)>,
    queue: Seq<(u128, usize)>,
    asked: Set<u128>,
    budget: usize,
    current: u128,
    done: int,
    level: int,
)
    requires
        discovering(g, center, found, queue, asked, budget, current, done, level),
        done >= g.edges(current).len(),
        found.contains_key(current),
        found[current].1 <= level,
    ensures
        discovering(g, center, found, queue, asked.insert(current), budget, current, 0, level),
{
}

/// When nobody waits any more and the budget is not used up, nothing that
/// could be reached was left out.
proof fn lemma_nobody_waits(
    g: GraphView,
    center: u128,
    found: Map<u128, (u32, usize)>,
    queue: Seq<(u128, usize)>,
    asked: Set<u128>,
    budget: usize,
    current: u128,
    level: int,
)
    requires
        discovering(g, center, found, queue, asked, budget, current, 0, level),
        asked.contains(current) || waits(queue, current),
        queue.len() == 0,
        found.len() < budget,
    ensures
        is_complete(g, found.dom()),
{
    assert forall|u: u128, k: int|
        found.dom().contains(u) && 0 <= k < g.edges(u).len() && g.index.contains_key(
            (#[trigger] g.edges(u)[k]).0,
        ) implies found.dom().contains(g.edges(u)[k].0) by {
        assert(found.contains_key(u));
        assert(!waits(queue, u));
        assert(asked.contains(u));
    }
}


/// Once the surroundings have been found, no artist left out is nearer to
/// the centre than one that was found.
proof fn lemma_none_left_nearer(
    g: GraphView,
    center: u128,
    found: Map<u128, (u32, usize)>,
    queue: Seq<(u128, usize)>,
    asked: Set<u128>,
    budget: usize,
    current: u128,
    level: int,
)
    requires
        discovering(g, center, found, queue, asked, budget, current, 0, level),
    ensures
        none_left_nearer(g, center, found),
{
    assert forall|v: u128, w: Seq<u128>|
        #![trigger found.contains_key(v), is_known_walk(g, w)]
        found.contains_key(v) && is_known_walk(g, w) && w[0] == center && !found.contains_key(
            w.last(),
        ) implies found[v].1 <= w.len() - 1 by {
        if w.len() - 1 <= level {
            assert(found.dom().contains(w.last()));
        }
    }
}

/// Whether `w` is a walk on which every artist but the first is known to the
/// index.
pub open spec fn is_known_walk(g: GraphView, w: Seq<u128>) -> bool {
    is_walk(g, w) && forall|i: int| 1 <= i < w.len() ==> g.index.contains_key(#[trigger] w[i])
}

/// Whether a walk of artists known to the index leads from `center` to `v`.
pub open spec fn reaches_known(g: GraphView, center: u128, v: u128) -> bool {
    exists|w: Seq<u128>| is_known_walk(g, w) && w[0] == center && w.last() == v
}

/// A complete set of artists that holds the centre holds every artist that
/// a walk of known artists leads to from the centre.
pub proof fn lemma_complete_holds_walk(g: GraphView, center: u128, found: Set<u128>, w: Seq<u128>)
    requires
        found.contains(center),
        is_complete(g, found),
        is_known_walk(g, w),
        w[0] == center,
    ensures
        found.contains(w.last()),
    decreases w.len(),
{
    if w.len() > 1 {
        let t = w.drop_last();
        assert forall|i: int| 0 <= i < t.len() - 1 implies #[trigger] walk_step(g, t, i) by {
            assert(walk_step(g, w, i));
        }
        assert forall|i: int| 1 <= i < t.len() implies g.index.contains_key(#[trigger] t[i]) by {
            assert(t[i] == w[i]);
        }
        lemma_complete_holds_walk(g, center, found, t);
        let u = t.last();
        assert(u == w[w.len() - 2]);
        assert(walk_step(g, w, w.len() - 2));
        let s = choose|s: u32| #[trigger] g.has_edge(u, w.last(), s);
        let k = choose|k: int| 0 <= k < g.edges(u).len() && g.edges(u)[k] == (w.last(), s);
        assert(g.index.contains_key(w[w.len() - 1]));
        assert(found.contains(g.edges(u)[k].0));
    }
}

/// An exploration uses its budget up where it can: where at least as many
/// artists as the budget allows can be reached from the centre, that many
/// are found.
pub proof fn lemma_budget_is_used(
    g: GraphView,
    center: u128,
    found: Map<u128, (u32, usize)>,
    budget: usize,
    within_reach: Set<u128>,
)
    requires
        is_layered(g, center, found),
        found.len() < budget ==> is_complete(g, found.dom()),
        within_reach.finite(),
        within_reach.len() >= budget,
        forall|v: u128| #[trigger] within_reach.contains(v) ==> reaches_known(g, center, v),
    ensures
        found.len() >= budget,
{
    if found.len() < budget {
        assert forall|v: u128| within_reach.contains(v) implies found.dom().contains(v) by {
            let w = choose|w: Seq<u128>| is_known_walk(g, w) && w[0] == center && w.last() == v;
            lemma_complete_holds_walk(g, center, found.dom(), w);
        }
        vstd::set_lib::lemma_len_subset(within_reach, found.dom());
    }
}

/// The reader of one exploration, with the edges it has fetched so far.
struct BfsExplorer<'a> {
    config: PathfindingConfig,
    max_relations: usize,
    graph_data: &'a [u8],
    graph_index: &'a FxHashMap<u128, u64>,
    connection_cache: FxHashMap<u128, Vec<PathStep>>,
    artists_visited: usize,
}

impl<'a> BfsExplorer<'a> {
    spec fn graph(&self) -> GraphView {
        GraphView { data: self.graph_data@, index: self.graph_index@, config: self.config }
    }

    /// The cache holds edges as the graph has them, and the count of
    /// artists visited is the size of the cache.
    spec fn inv(&self) -> bool {
        &&& self.config.top_related == self.max_relations
        &&& self.connection_cache@.dom().finite()
        &&& self.artists_visited == self.connection_cache@.len()
        &&& forall|a: u128| #[trigger]
            self.connection_cache@.contains_key(a) ==> self.connection_cache@[a]@
                == self.graph().edges(a)
    }

    fn new(
        min_similarity: u32,
        max_relations: usize,
        graph_data: &'a [u8],
        graph_index: &'a FxHashMap<u128, u64>,
    ) -> (r: Self)
        ensures
            r.inv(),
            r.graph() == explored_view(graph_data@, graph_index@, min_similarity, max_relations),
            r.connection_cache@.dom() == Set::<u128>::empty(),
    {
        Self {
            config: PathfindingConfig::new(min_similarity, max_relations, false),
            max_relations,
            graph_data,
            graph_index,
            connection_cache: id_map_new(),
            artists_visited: 0,
        }
    }

    /// The edges of an artist, fetched once.
    fn get_cached_connections(&mut self, artist_id: u128) -> (r: Vec<PathStep>)
        requires
            old(self).inv(),
        ensures
            final(self).inv(),
            final(self).graph() == old(self).graph(),
            final(self).connection_cache@.dom() == old(self).connection_cache@.dom().insert(
                artist_id,
            ),
            r@ == old(self).graph().edges(artist_id),
    {
        match id_map_get(&self.connection_cache, artist_id) {
            Some(cached) => {
                let r = slice_to_vec(cached.as_slice());
                assert(self.connection_cache@.dom().insert(artist_id)
                    =~= self.connection_cache@.dom());
                return r;
            },
            None => {},
        }
        let connections = get_artist_connections(
            artist_id,
            self.graph_data,
            self.graph_index,
            &self.config,
        );
        let mut limited_connections = slice_to_vec(connections.as_slice());
        if self.max_relations < limited_connections.len() {
            limited_connections.truncate(self.max_relations);
        }
        id_map_insert(&mut self.connection_cache, artist_id, connections);
        self.artists_visited = id_map_len(&self.connection_cache);
        limited_connections
    }

    /// Whether a neighbour is taken in: it has not been found, the index
    /// knows it, and the budget is not used up.
    fn should_add_artist(
        &self,
        discovered: &FxHashMap<u128, (u32, usize)>,
        artist_id: u128,
        budget: usize,
    ) -> (r: bool)
        ensures
            r == (!discovered@.contains_key(artist_id) && self.graph_index@.contains_key(artist_id)
                && discovered@.len() < budget),
    {
        !id_map_contains(discovered, artist_id) && id_map_contains(self.graph_index, artist_id)
            && id_map_len(discovered) < budget
    }

    /// Finds the artists around `center_id`, layer by layer.
    fn discover_artists(&mut self, center_id: u128, budget: usize) -> (discovered: FxHashMap<
        u128,
        (u32, usize),
    >)
        requires
            old(self).inv(),
            old(self).connection_cache@.dom() == Set::<u128>::empty(),
        ensures
            final(self).inv(),
            final(self).graph() == old(self).graph(),
            final(self).connection_cache@.dom().subset_of(discovered@.dom()),
            is_layered(old(self).graph(), center_id, discovered@),
            layers_least(old(self).graph(), center_id, discovered@),
            none_left_nearer(old(self).graph(), center_id, discovered@),
            discovered@.len() <= budget || discovered@.len() == 1,
            discovered@.len() < budget ==> is_complete(old(self).graph(), discovered@.dom()),
    {
        let ghost g = self.graph();
        let mut queue: VecDeque<(u128, usize)> = VecDeque::new();
        let mut discovered: FxHashMap<u128, (u32, usize)> = id_map_new();
        queue.push_back((center_id, 0));
        id_map_insert(&mut discovered, center_id, (SIMILARITY_ONE, 0));
        let ghost mut asked: Set<u128> = Set::empty();
        let ghost mut last: u128 = center_id;
        let ghost mut level: int = 0;
        proof {
            assert(discovered@.dom() =~= Set::<u128>::empty().insert(center_id));
            assert(queue@[0].0 == center_id);
            assert(waits(queue@, center_id));
            assert(queue@ =~= seq![(center_id, 0usize)]);
            assert(in_layers(discovered@, queue@, asked, 0));
            assert(layers_least(g, center_id, discovered@));
            assert(found_within(g, center_id, discovered@.dom(), 0));
            assert(discovering(g, center_id, discovered@, queue@, asked, budget, center_id, 0, 0));
        }

        while queue.len() > 0 && id_map_len(&discovered) < budget
            invariant
                self.inv(),
                self.graph() == g,
                self.connection_cache@.dom().subset_of(discovered@.dom()),
                discovering(g, center_id, discovered@, queue@, asked, budget, last, 0, level),
                asked.contains(last) || waits(queue@, last),
                discovered@.len() <= budget || discovered@.len() == 1,
            decreases budget - discovered@.len() + queue@.len(),
        {
            let ghost old_queue = queue@;
            let ghost at_pop = discovered@;
            let (current_id, current_layer) = queue.pop_front().unwrap();
            proof {
                assert(old_queue[0] == (current_id, current_layer));
                lemma_ask_next(g, center_id, discovered@, old_queue, asked, budget, last, level);
                level = current_layer as int;
            }
            let connections = self.get_cached_connections(current_id);
            let mut k: usize = 0;
            while k < connections.len()
                invariant
                    k <= connections.len(),
                    connections@ == g.edges(current_id),
                    self.inv(),
                    self.graph() == g,
                    self.connection_cache@.dom().subset_of(discovered@.dom()),
                    discovering(
                        g,
                        center_id,
                        discovered@,
                        queue@,
                        asked,
                        budget,
                        current_id,
                        k as int,
                        level,
                    ),
                    level == current_layer,
                    discovered@.contains_key(current_id),
                    discovered@[current_id].1 == current_layer,
                    discovered@.len() <= budget,
                    budget - discovered@.len() + queue@.len() == budget - at_pop.len()
                        + old_queue.len() - 1,
                decreases connections.len() - k,
            {
                let (connected_id, similarity) = connections[k];
                if self.should_add_artist(&discovered, connected_id, budget) {
                    proof {
                        lemma_take_neighbor(
                            g,
                            center_id,
                            discovered@,
                            queue@,
                            asked,
                            budget,
                            current_id,
                            k as int,
                            level,
                        );
                    }
                    id_map_insert(&mut discovered, connected_id, (similarity, current_layer + 1));
                    queue.push_back((connected_id, current_layer + 1));
                } else {
                    proof {
                        lemma_pass_over(
                            g,
                            center_id,
                            discovered@,
                            queue@,
                            asked,
                            budget,
                            current_id,
                            k as int,
                            level,
                        );
                    }
                }
                k = k + 1;
            }
            proof {
                lemma_asked(
                    g,
                    center_id,
                    discovered@,
                    queue@,
                    asked,
                    budget,
                    current_id,
                    k as int,
                    level,
                );
                asked = asked.insert(current_id);
                last = current_id;
            }
        }
        proof {
            if discovered@.len() < budget {
                lemma_nobody_waits(g, center_id, discovered@, queue@, asked, budget, last, level);
            }
            lemma_none_left_nearer(g, center_id, discovered@, queue@, asked, budget, last, level);
        }
        discovered
    }

    /// The edges of every artist that was found.
    fn get_all_connections(&mut self, discovered: &FxHashMap<u128, (u32, usize)>) -> (r: FxHashMap<
        u128,
        Vec<PathStep>,
    >)
        requires
            old(self).inv(),
            old(self).connection_cache@.dom().subset_of(discovered@.dom()),
        ensures
            final(self).inv(),
            final(self).graph() == old(self).graph(),
            final(self).connection_cache@.dom() == discovered@.dom(),
            holds_all_edges(r@, discovered@.dom(), old(self).graph()),
    {
        let ghost g = self.graph();
        let mut all_connections: FxHashMap<u128, Vec<PathStep>> = id_map_new();
        let keys = id_map_keys(discovered);
        let mut i: usize = 0;
        while i < keys.len()
            invariant
                i <= keys.len(),
                keys@.to_set() == discovered@.dom(),
                self.inv(),
                self.graph() == g,
                self.connection_cache@.dom().subset_of(discovered@.dom()),
                forall|j: int| 0 <= j < i ==> self.connection_cache@.contains_key(#[trigger] keys@[j]),
                all_connections@.dom() == keys@.take(i as int).to_set(),
                forall|a: u128| #[trigger]
                    all_connections@.contains_key(a) ==> all_connections@[a]@ == g.edges(a),
            decreases keys.len() - i,
        {
            let artist_id = keys[i];
            assert(keys@.to_set().contains(artist_id)) by {
                assert(keys@.contains(keys@[i as int]));
            }
            let connections = self.get_cached_connections(artist_id);
            id_map_insert(&mut all_connections, artist_id, connections);
            proof {
                let upto = keys@.take(i + 1);
                assert(upto =~= keys@.take(i as int).push(artist_id));
                assert(upto.to_set() =~= keys@.take(i as int).to_set().insert(artist_id)) by {
                    vstd::seq_lib::seq_to_set_is_finite(upto);
                    assert forall|a: u128| upto.to_set().contains(a) <==> keys@.take(
                        i as int,
                    ).to_set().insert(artist_id).contains(a) by {
                        if upto.contains(a) {
                            let j = choose|j: int| 0 <= j < upto.len() && upto[j] == a;
                            if j < i {
                                assert(keys@.take(i as int)[j] == a);
                            }
                        }
                        if keys@.take(i as int).contains(a) {
                            let j = choose|j: int| 0 <= j < i && keys@.take(i as int)[j] == a;
                            assert(upto[j] == a);
                        }
                        if a == artist_id {
                            assert(upto[i as int] == a);
                        }
                    }
                }
            }
            i = i + 1;
        }
        proof {
            assert(keys@.take(keys.len() as int) =~= keys@);
            assert(self.connection_cache@.dom() =~= discovered@.dom()) by {
                assert forall|a: u128| discovered@.dom().contains(a) implies self.connection_cache@.dom().contains(
                a) by {
                    assert(keys@.to_set().contains(a));
                    let j = choose|j: int| 0 <= j < keys@.len() && keys@[j] == a;
                    assert(self.connection_cache@.contains_key(keys@[j]));
                }
            }
        }
        all_connections
    }
}

/// Whether `found` is what a breadth-first exploration from `center` owes
/// within `budget`: artists in layers round the centre, each on the lowest
/// layer it can stand on and none above an artist left out; no more than
/// the budget allows but for the centre itself, nobody left out where fewer
/// were found, the edges of everybody found, and everybody found counted as
/// visited.
pub open spec fn is_bfs_exploration(
    found: ExplorationResult,
    g: GraphView,
    center: u128,
    budget: usize,
) -> bool {
    &&& is_layered(g, center, found.discovered_artists@)
    &&& layers_least(g, center, found.discovered_artists@)
    &&& none_left_nearer(g, center, found.discovered_artists@)
    &&& found.discovered_artists@.len() <= budget || found.discovered_artists@.len() == 1
    &&& found.discovered_artists@.len() < budget ==> is_complete(
        g,
        found.discovered_artists@.dom(),
    )
    &&& holds_all_edges(found.connections@, found.discovered_artists@.dom(), g)
    &&& found.stats.artists_visited == found.discovered_artists@.len()
}

/// Explores the surroundings of `center_id` breadth first.
///
/// The centre is found on layer zero with similarity one. Every other artist
/// found is known to the index and hangs on an edge from an artist one layer
/// above it, with the similarity of that edge. No more than `budget` artists
/// are found; where fewer are found, nothing that could be reached was left
/// out. The edges of every artist found are returned with them, and every
/// such artist counts as visited.
pub fn explore_bfs(
    center_id: u128,
    budget: usize,
    max_relations: usize,
    min_similarity: u32,
    graph_data: &[u8],
    graph_index: &FxHashMap<u128, u64>,
) -> (r: ExplorationResult)
    ensures
        is_bfs_exploration(
            r,
            explored_view(graph_data@, graph_index@, min_similarity, max_relations),
            center_id,
            budget,
        ),
{
    let start_time = instant_now();
    let mut explorer = BfsExplorer::new(min_similarity, max_relations, graph_data, graph_index);

    let discovered = explorer.discover_artists(center_id, budget);
    let connections = explorer.get_all_connections(&discovered);

    ExplorationResult::new(
        discovered,
        connections,
        explorer.artists_visited,
        millis_since(&start_time),
    )
}

} // verus!
