//! Reading one artist's edges out of an adjacency file.
//!
//! A record is the artist's identifier, a `u32` count, and that many pairs of
//! a neighbour's identifier and a similarity. The reader finds the record
//! through the index, checks that it belongs to the artist asked for, and
//! hands the edges on filtered, ordered and cut as the query's policy says.
//! Whatever is wrong with a record, the artist simply has no edges.

use crate::codec::id_at;
use crate::codec::ReadError;
use crate::codec::read_id_at;
use crate::codec::read_u32_at;
use crate::codec::u32_at;
use crate::fx::id_map_get;
use crate::pathfinding::bfs::model::chain_up;
use crate::pathfinding_config::PathfindingConfig;
use crate::similarity::sim_rank;
use crate::similarity::similarity_at_least;
use crate::similarity::similarity_rank;
use crate::similarity::SIMILARITY_ZERO;
use rustc_hash::FxHashMap;
use vstd::prelude::*;

verus! {

/// One step of a path, or one edge of an artist: an artist and the similarity
/// of the edge that leads to it.
pub type PathStep = (u128, u32);

/// What a path search returns: the path where there is one, the number of
/// artists visited, and the time taken in microseconds.
pub type PathResult = (Option<Vec<PathStep>>, usize, u64);

/// What a search with a budget returns.
#[derive(Debug, Clone)]
pub enum EnhancedPathResult {
    /// A path was found and fits the budget: the path, the artists of its
    /// neighbourhood and the edges of each of them.
    Success {
        primary_path: Vec<PathStep>,
        related_artists: FxHashMap<u128, (u32, usize)>,
        connections: FxHashMap<u128, Vec<PathStep>>,
        artists_visited: usize,
        duration_ms: u64,
    },
    /// A path was found that has more artists than the budget allows.
    PathTooLong {
        primary_path: Vec<PathStep>,
        path_length: usize,
        minimum_budget_needed: usize,
        artists_visited: usize,
        duration_ms: u64,
    },
    /// The two artists are not connected.
    NoPath { artists_visited: usize, duration_ms: u64 },
}

/// The edges of the record at `pos`, where a whole record of artist `id`
/// stands there, and else what is wrong with it.
pub open spec fn record_at(data: Seq<u8>, pos: int, id: u128) -> Result<Seq<PathStep>, ReadError> {
    if pos + 16 > data.len() {
        Err(ReadError::Truncated)
    } else if id_at(data, pos) != id {
        Err(ReadError::WrongArtist)
    } else if pos + 20 > data.len() {
        Err(ReadError::Truncated)
    } else {
        let count = u32_at(data, pos + 16) as int;
        if pos + 20 + 20 * count > data.len() {
            Err(ReadError::Truncated)
        } else {
            Ok(
                Seq::new(
                    count as nat,
                    |i: int| (id_at(data, pos + 20 + 20 * i), u32_at(data, pos + 36 + 20 * i)),
                ),
            )
        }
    }
}

/// The edges stored for artist `id`, in file order: none where the index does
/// not know the artist, where its offset lies behind the data, or where no
/// whole record of that artist stands at the offset.
pub open spec fn stored_connections(id: u128, data: Seq<u8>, index: Map<u128, u64>) -> Seq<
    PathStep,
> {
    if !index.contains_key(id) {
        Seq::empty()
    } else if index[id] >= data.len() {
        Seq::empty()
    } else {
        match record_at(data, index[id] as int, id) {
            Ok(edges) => edges,
            Err(_) => Seq::empty(),
        }
    }
}

/// Whether an edge passes the threshold. A threshold that is not above zero
/// lets every edge pass.
pub open spec fn passes(edge: PathStep, min_match: u32) -> bool {
    sim_rank(min_match) > 0 ==> sim_rank(edge.1) >= sim_rank(min_match)
}

/// The edges of `s` that pass the threshold, in their order.
pub open spec fn keep_passing(s: Seq<PathStep>, min_match: u32) -> Seq<PathStep>
    decreases s.len(),
{
    if s.len() == 0 {
        Seq::empty()
    } else if passes(s.last(), min_match) {
        keep_passing(s.drop_last(), min_match).push(s.last())
    } else {
        keep_passing(s.drop_last(), min_match)
    }
}

/// `e` put into `s` behind the last edge that ranks at least as high.
pub open spec fn insert_by_rank(s: Seq<PathStep>, e: PathStep) -> Seq<PathStep>
    decreases s.len(),
{
    if s.len() == 0 {
        seq![e]
    } else if sim_rank(s.last().1) >= sim_rank(e.1) {
        s.push(e)
    } else {
        insert_by_rank(s.drop_last(), e).push(s.last())
    }
}

/// The edges of `s` by falling similarity; edges that rank alike keep their
/// order.
pub open spec fn sort_by_similarity(s: Seq<PathStep>) -> Seq<PathStep>
    decreases s.len(),
{
    if s.len() == 0 {
        Seq::empty()
    } else {
        insert_by_rank(sort_by_similarity(s.drop_last()), s.last())
    }
}

/// The first `n` edges of `s`, or all of them where there are fewer.
pub open spec fn first_n(s: Seq<PathStep>, n: int) -> Seq<PathStep> {
    if n < s.len() {
        s.take(n)
    } else {
        s
    }
}

/// What the policy makes of stored edges: those that pass the threshold, by
/// falling similarity, cut to the `top_related` first.
pub open spec fn filtered_sorted(raw: Seq<PathStep>, config: PathfindingConfig) -> Seq<PathStep> {
    first_n(sort_by_similarity(keep_passing(raw, config.min_match)), config.top_related as int)
}

/// The edges of artist `id` that a query with policy `config` sees.
pub open spec fn connections_of(
    id: u128,
    data: Seq<u8>,
    index: Map<u128, u64>,
    config: PathfindingConfig,
) -> Seq<PathStep> {
    filtered_sorted(stored_connections(id, data, index), config)
}

/// Whether the ranks of `s` never rise.
pub open spec fn ranks_fall(s: Seq<PathStep>) -> bool {
    forall|i: int, j: int| 0 <= i <= j < s.len() ==> sim_rank(s[i].1) >= sim_rank(s[j].1)
}

/// Putting an edge in keeps what is there, adds the edge, and keeps the order
/// by rank.
pub proof fn lemma_insert_by_rank(s: Seq<PathStep>, e: PathStep)
    ensures
        insert_by_rank(s, e).len() == s.len() + 1,
        insert_by_rank(s, e).to_multiset() == s.to_multiset().insert(e),
        ranks_fall(s) ==> ranks_fall(insert_by_rank(s, e)),
        insert_by_rank(s, e).contains(e),
        forall|x: PathStep| #[trigger] s.contains(x) ==> insert_by_rank(s, e).contains(x),
        forall|x: PathStep| #[trigger]
            insert_by_rank(s, e).contains(x) ==> s.contains(x) || x == e,
    decreases s.len(),
{
    broadcast use vstd::seq_lib::group_to_multiset_ensures;

    let r = insert_by_rank(s, e);
    if s.len() == 0 {
        assert(s =~= Seq::empty());
        assert(r =~= Seq::<PathStep>::empty().push(e));
        assert(r[0] == e);
    } else if sim_rank(s.last().1) >= sim_rank(e.1) {
        assert(r[s.len() as int] == e);
        assert forall|x: PathStep| #[trigger] s.contains(x) implies r.contains(x) by {
            let i = choose|i: int| 0 <= i < s.len() && s[i] == x;
            assert(r[i] == x);
        }
    } else {
        let t = s.drop_last();
        let u = insert_by_rank(t, e);
        lemma_insert_by_rank(t, e);
        assert(s =~= t.push(s.last()));
        assert(r == u.push(s.last()));
        assert(r[u.len() as int] == s.last());
        assert(u.contains(e));
        let ie = choose|i: int| 0 <= i < u.len() && u[i] == e;
        assert(r[ie] == e);
        assert forall|x: PathStep| #[trigger] s.contains(x) implies r.contains(x) by {
            let k = choose|k: int| 0 <= k < s.len() && s[k] == x;
            if k < t.len() {
                assert(t[k] == x);
                assert(t.contains(x));
                assert(u.contains(x));
                let i = choose|i: int| 0 <= i < u.len() && u[i] == x;
                assert(r[i] == x);
            }
        }
        assert forall|x: PathStep| #[trigger] r.contains(x) implies s.contains(x) || x == e by {
            let i = choose|i: int| 0 <= i < r.len() && r[i] == x;
            if i < u.len() {
                assert(u[i] == x);
                assert(u.contains(x));
                if t.contains(x) {
                    let k = choose|k: int| 0 <= k < t.len() && t[k] == x;
                    assert(s[k] == x);
                }
            } else {
                assert(s[s.len() - 1] == x);
            }
        }
        if ranks_fall(s) {
            assert(ranks_fall(t)) by {
                assert forall|i: int, j: int| 0 <= i <= j < t.len() implies sim_rank(t[i].1)
                    >= sim_rank(t[j].1) by {
                    assert(t[i] == s[i] && t[j] == s[j]);
                }
            }
            assert forall|i: int, j: int| 0 <= i <= j < r.len() implies sim_rank(r[i].1)
                >= sim_rank(r[j].1) by {
                if j < u.len() {
                    assert(r[i] == u[i] && r[j] == u[j]);
                } else if i < u.len() {
                    assert(r[i] == u[i]);
                    assert(u.contains(u[i]));
                    if t.contains(u[i]) {
                        let k = choose|k: int| 0 <= k < t.len() && t[k] == u[i];
                        assert(s[k] == u[i]);
                        assert(sim_rank(s[k].1) >= sim_rank(s[s.len() - 1].1));
                    }
                }
            }
        }
    }
}

/// Sorting keeps the edges and orders them by falling rank.
pub proof fn lemma_sort_by_similarity(s: Seq<PathStep>)
    ensures
        sort_by_similarity(s).len() == s.len(),
        sort_by_similarity(s).to_multiset() == s.to_multiset(),
        ranks_fall(sort_by_similarity(s)),
        forall|x: PathStep| #[trigger] s.contains(x) ==> sort_by_similarity(s).contains(x),
        forall|x: PathStep| #[trigger] sort_by_similarity(s).contains(x) ==> s.contains(x),
    decreases s.len(),
{
    broadcast use vstd::seq_lib::group_to_multiset_ensures;

    if s.len() == 0 {
        assert(s =~= Seq::empty());
    } else {
        let t = s.drop_last();
        let u = sort_by_similarity(t);
        let r = sort_by_similarity(s);
        lemma_sort_by_similarity(t);
        lemma_insert_by_rank(u, s.last());
        assert(s =~= t.push(s.last()));
        assert(s[s.len() - 1] == s.last());
        assert forall|x: PathStep| #[trigger] s.contains(x) implies r.contains(x) by {
            let k = choose|k: int| 0 <= k < s.len() && s[k] == x;
            if k < t.len() {
                assert(t[k] == x);
                assert(t.contains(x));
                assert(u.contains(x));
            }
        }
        assert forall|x: PathStep| #[trigger] r.contains(x) implies s.contains(x) by {
            if u.contains(x) {
                assert(t.contains(x));
                let k = choose|k: int| 0 <= k < t.len() && t[k] == x;
                assert(s[k] == x);
            }
        }
    }
}

/// The kept edges are exactly the edges that pass.
pub proof fn lemma_keep_passing(s: Seq<PathStep>, min_match: u32)
    ensures
        keep_passing(s, min_match).len() <= s.len(),
        forall|x: PathStep| #[trigger]
            keep_passing(s, min_match).contains(x) ==> s.contains(x) && passes(x, min_match),
        forall|x: PathStep|
            #[trigger] s.contains(x) && passes(x, min_match) ==> keep_passing(
                s,
                min_match,
            ).contains(x),
    decreases s.len(),
{
    let r = keep_passing(s, min_match);
    if s.len() == 0 {
    } else {
        let t = s.drop_last();
        let u = keep_passing(t, min_match);
        lemma_keep_passing(t, min_match);
        assert(s[s.len() - 1] == s.last());
        assert forall|x: PathStep| #[trigger] r.contains(x) implies s.contains(x) && passes(
            x,
            min_match,
        ) by {
            let i = choose|i: int| 0 <= i < r.len() && r[i] == x;
            if i < u.len() {
                assert(u[i] == x);
                assert(u.contains(x));
                assert(t.contains(x));
                let k = choose|k: int| 0 <= k < t.len() && t[k] == x;
                assert(s[k] == x);
            }
        }
        assert forall|x: PathStep| #[trigger] s.contains(x) && passes(x, min_match) implies
            r.contains(x) by {
            let k = choose|k: int| 0 <= k < s.len() && s[k] == x;
            if k < t.len() {
                assert(t[k] == x);
                assert(t.contains(x));
                assert(u.contains(x));
                let i = choose|i: int| 0 <= i < u.len() && u[i] == x;
                assert(r[i] == x);
            } else {
                assert(r[r.len() - 1] == x);
            }
        }
    }
}



/// The edges of `s` that pass the lower threshold and fail the higher, in
/// their order.
pub open spec fn keep_between(s: Seq<PathStep>, low: u32, high: u32) -> Seq<PathStep>
    decreases s.len(),
{
    if s.len() == 0 {
        Seq::empty()
    } else if passes(s.last(), low) && !passes(s.last(), high) {
        keep_between(s.drop_last(), low, high).push(s.last())
    } else {
        keep_between(s.drop_last(), low, high)
    }
}

/// An edge that ranks above all of `b` goes in before `b`.
proof fn lemma_insert_before(a: Seq<PathStep>, b: Seq<PathStep>, e: PathStep)
    requires
        forall|i: int| 0 <= i < b.len() ==> sim_rank((#[trigger] b[i]).1) < sim_rank(e.1),
    ensures
        insert_by_rank(a + b, e) == insert_by_rank(a, e) + b,
    decreases b.len(),
{
    if b.len() == 0 {
        assert(a + b =~= a);
        assert(insert_by_rank(a, e) + b =~= insert_by_rank(a, e));
    } else {
        let c = b.drop_last();
        assert((a + b).drop_last() =~= a + c);
        assert((a + b).last() == b.last());
        assert(sim_rank(b[b.len() - 1].1) < sim_rank(e.1));
        assert forall|i: int| 0 <= i < c.len() implies sim_rank((#[trigger] c[i]).1) < sim_rank(
            e.1,
        ) by {
            assert(c[i] == b[i]);
        }
        lemma_insert_before(a, c, e);
        assert((insert_by_rank(a, e) + c).push(b.last()) =~= insert_by_rank(a, e) + b);
    }
}

/// An edge that ranks below all of `a` goes in behind `a`.
proof fn lemma_insert_behind(a: Seq<PathStep>, b: Seq<PathStep>, e: PathStep)
    requires
        forall|i: int| 0 <= i < a.len() ==> sim_rank((#[trigger] a[i]).1) >= sim_rank(e.1),
    ensures
        insert_by_rank(a + b, e) == a + insert_by_rank(b, e),
    decreases b.len(),
{
    if b.len() == 0 {
        assert(a + b =~= a);
        if a.len() == 0 {
            assert(a + insert_by_rank(b, e) =~= seq![e]);
        } else {
            assert(sim_rank(a[a.len() - 1].1) >= sim_rank(e.1));
            assert(a + insert_by_rank(b, e) =~= a.push(e));
        }
    } else {
        let c = b.drop_last();
        assert((a + b).drop_last() =~= a + c);
        assert((a + b).last() == b.last());
        if sim_rank(b.last().1) >= sim_rank(e.1) {
            assert((a + b).push(e) =~= a + b.push(e));
        } else {
            lemma_insert_behind(a, c, e);
            assert((a + insert_by_rank(c, e)).push(b.last()) =~= a + insert_by_rank(c, e).push(
                b.last(),
            ));
        }
    }
}

/// What passes a lower threshold, in order, is what passes a higher
/// threshold, in order, and behind it what passes only the lower.
proof fn lemma_sort_splits(s: Seq<PathStep>, low: u32, high: u32)
    requires
        sim_rank(low) <= sim_rank(high),
        sim_rank(high) > 0,
    ensures
        sort_by_similarity(keep_passing(s, low)) == sort_by_similarity(keep_passing(s, high))
            + sort_by_similarity(keep_between(s, low, high)),
    decreases s.len(),
{
    let upper = sort_by_similarity(keep_passing(s, high));
    let lower = sort_by_similarity(keep_between(s, low, high));
    if s.len() == 0 {
        assert(upper + lower =~= Seq::<PathStep>::empty());
    } else {
        let t = s.drop_last();
        let e = s.last();
        lemma_sort_splits(t, low, high);
        let upper_t = sort_by_similarity(keep_passing(t, high));
        let lower_t = sort_by_similarity(keep_between(t, low, high));
        lemma_keep_passing(t, high);
        lemma_sort_by_similarity(keep_passing(t, high));
        lemma_keep_between(t, low, high);
        lemma_sort_by_similarity(keep_between(t, low, high));
        if passes(e, high) {
            assert(passes(e, low));
            assert(keep_passing(t, high).push(e).drop_last() =~= keep_passing(t, high));
            assert(keep_passing(t, low).push(e).drop_last() =~= keep_passing(t, low));
            assert forall|i: int| 0 <= i < lower_t.len() implies sim_rank(
                (#[trigger] lower_t[i]).1,
            ) < sim_rank(e.1) by {
                assert(lower_t.contains(lower_t[i]));
                assert(keep_between(t, low, high).contains(lower_t[i]));
            }
            lemma_insert_before(upper_t, lower_t, e);
        } else if passes(e, low) {
            assert(keep_between(t, low, high).push(e).drop_last() =~= keep_between(t, low, high));
            assert(keep_passing(t, low).push(e).drop_last() =~= keep_passing(t, low));
            assert forall|i: int| 0 <= i < upper_t.len() implies sim_rank(
                (#[trigger] upper_t[i]).1,
            ) >= sim_rank(e.1) by {
                assert(upper_t.contains(upper_t[i]));
                assert(keep_passing(t, high).contains(upper_t[i]));
            }
            lemma_insert_behind(upper_t, lower_t, e);
        }
    }
}

/// What passes only the lower threshold fails the higher.
proof fn lemma_keep_between(s: Seq<PathStep>, low: u32, high: u32)
    ensures
        forall|x: PathStep| #[trigger]
            keep_between(s, low, high).contains(x) ==> s.contains(x) && !passes(x, high),
    decreases s.len(),
{
    let r = keep_between(s, low, high);
    if s.len() > 0 {
        let t = s.drop_last();
        let u = keep_between(t, low, high);
        lemma_keep_between(t, low, high);
        assert(s[s.len() - 1] == s.last());
        assert forall|x: PathStep| #[trigger] r.contains(x) implies s.contains(x) && !passes(
            x,
            high,
        ) by {
            let i = choose|i: int| 0 <= i < r.len() && r[i] == x;
            if i < u.len() {
                assert(u[i] == x);
                assert(u.contains(x));
                let k = choose|k: int| 0 <= k < t.len() && t[k] == x;
                assert(s[k] == x);
            }
        }
    }
}

/// Where thresholds are not above zero, all edges are kept.
proof fn lemma_keep_all(s: Seq<PathStep>, min_match: u32)
    requires
        sim_rank(min_match) <= 0,
    ensures
        keep_passing(s, min_match) == s,
    decreases s.len(),
{
    if s.len() > 0 {
        lemma_keep_all(s.drop_last(), min_match);
        assert(s.drop_last().push(s.last()) =~= s);
    }
}

/// Under a higher threshold a query sees a beginning of what it sees under a
/// lower threshold, and so nothing that it would not see under the lower;
/// under either, what it sees is ordered by falling similarity.
pub proof fn lemma_threshold_monotone(raw: Seq<PathStep>, low: PathfindingConfig, high: PathfindingConfig)
    requires
        sim_rank(low.min_match) <= sim_rank(high.min_match),
        low.top_related == high.top_related,
    ensures
        filtered_sorted(raw, high).is_prefix_of(filtered_sorted(raw, low)),
        forall|e: PathStep| #[trigger]
            filtered_sorted(raw, high).contains(e) ==> filtered_sorted(raw, low).contains(e),
        ranks_fall(filtered_sorted(raw, low)),
        ranks_fall(filtered_sorted(raw, high)),
{
    let n = low.top_related as int;
    let s_low = sort_by_similarity(keep_passing(raw, low.min_match));
    let s_high = sort_by_similarity(keep_passing(raw, high.min_match));
    lemma_sort_by_similarity(keep_passing(raw, low.min_match));
    lemma_sort_by_similarity(keep_passing(raw, high.min_match));
    let r_low = filtered_sorted(raw, low);
    let r_high = filtered_sorted(raw, high);
    assert(ranks_fall(r_low)) by {
        assert forall|i: int, j: int| 0 <= i <= j < r_low.len() implies sim_rank(r_low[i].1)
            >= sim_rank(r_low[j].1) by {
            assert(r_low[i] == s_low[i] && r_low[j] == s_low[j]);
        }
    }
    assert(ranks_fall(r_high)) by {
        assert forall|i: int, j: int| 0 <= i <= j < r_high.len() implies sim_rank(r_high[i].1)
            >= sim_rank(r_high[j].1) by {
            assert(r_high[i] == s_high[i] && r_high[j] == s_high[j]);
        }
    }
    if sim_rank(high.min_match) <= 0 {
        lemma_keep_all(raw, low.min_match);
        lemma_keep_all(raw, high.min_match);
        assert(r_high =~= r_low);
    } else {
        lemma_sort_splits(raw, low.min_match, high.min_match);
        let rest = sort_by_similarity(keep_between(raw, low.min_match, high.min_match));
        assert(s_low == s_high + rest);
        assert(r_high.len() <= r_low.len());
        assert forall|i: int| 0 <= i < r_high.len() implies r_high[i] == r_low[i] by {
            assert(r_high[i] == s_high[i]);
            assert(r_low[i] == s_low[i]);
        }
        assert(r_high =~= r_low.subrange(0, r_high.len() as int));
    }
    assert forall|e: PathStep| #[trigger] r_high.contains(e) implies r_low.contains(e) by {
        let i = choose|i: int| 0 <= i < r_high.len() && r_high[i] == e;
        assert(r_low[i] == e);
    }
}

/// Under a higher threshold a query sees, of every artist, a beginning of
/// the edges that it sees under a lower threshold.
pub proof fn lemma_connections_monotone(
    id: u128,
    data: Seq<u8>,
    index: Map<u128, u64>,
    low: PathfindingConfig,
    high: PathfindingConfig,
)
    requires
        sim_rank(low.min_match) <= sim_rank(high.min_match),
        low.top_related == high.top_related,
    ensures
        connections_of(id, data, index, high).is_prefix_of(connections_of(id, data, index, low)),
        forall|e: PathStep| #[trigger]
            connections_of(id, data, index, high).contains(e) ==> connections_of(
                id,
                data,
                index,
                low,
            ).contains(e),
        ranks_fall(connections_of(id, data, index, low)),
        ranks_fall(connections_of(id, data, index, high)),
{
    lemma_threshold_monotone(stored_connections(id, data, index), low, high);
}

/// Where `e` goes into `s`: index `j`, when everything from `j` on ranks
/// below `e` and the edge before `j` does not.
proof fn lemma_insert_position(s: Seq<PathStep>, e: PathStep, j: int)
    requires
        0 <= j <= s.len(),
        forall|k: int| j <= k < s.len() ==> sim_rank(s[k].1) < sim_rank(e.1),
        j > 0 ==> sim_rank(s[j - 1].1) >= sim_rank(e.1),
    ensures
        insert_by_rank(s, e) == s.insert(j, e),
    decreases s.len(),
{
    if s.len() == 0 {
        assert(s.insert(j, e) =~= seq![e]);
    } else if j == s.len() {
        assert(s.insert(j, e) =~= s.push(e));
    } else {
        let t = s.drop_last();
        lemma_insert_position(t, e, j);
        assert(s.insert(j, e) =~= t.insert(j, e).push(s.last()));
    }
}

/// Puts `e` into the ordered edges `out`, behind the last edge that ranks at
/// least as high.
fn insert_ranked(out: &mut Vec<PathStep>, e: PathStep)
    ensures
        final(out)@ == insert_by_rank(old(out)@, e),
{
    let mut j = out.len();
    while j > 0 && !similarity_at_least(out[j - 1].1, e.1)
        invariant
            j <= out.len(),
            out@ == old(out)@,
            forall|k: int| j <= k < out.len() ==> sim_rank(out@[k].1) < sim_rank(e.1),
        decreases j,
    {
        j = j - 1;
    }
    proof {
        lemma_insert_position(out@, e, j as int);
    }
    out.insert(j, e);
}

/// Reads the record of `expected_artist_id` that starts at `pos`.
pub fn parse_artist_connections(expected_artist_id: u128, data: &[u8], pos: usize) -> (r: Result<
    Vec<PathStep>,
    ReadError,
>)
    ensures
        match record_at(data@, pos as int, expected_artist_id) {
            Ok(edges) => r.is_ok() && r.unwrap()@ == edges,
            Err(e) => r == Err::<Vec<PathStep>, ReadError>(e),
        },
{
    let total = data.len();
    let stored_artist_id = match read_id_at(data, pos) {
        Some(id) => id,
        None => {
            return Err(ReadError::Truncated);
        },
    };
    if stored_artist_id != expected_artist_id {
        return Err(ReadError::WrongArtist);
    }
    let connection_count = match read_u32_at(data, pos + 16) {
        Some(n) => n,
        None => {
            return Err(ReadError::Truncated);
        },
    };
    let room = total - (pos + 20);
    if connection_count as u64 > room as u64 / 20 {
        return Err(ReadError::Truncated);
    }
    let count = connection_count as usize;
    let ghost edges = record_at(data@, pos as int, expected_artist_id).unwrap();
    let mut connections: Vec<PathStep> = Vec::new();
    let mut i: usize = 0;
    while i < count
        invariant
            i <= count,
            total == data@.len(),
            pos + 20 + 20 * count <= total,
            record_at(data@, pos as int, expected_artist_id) == Ok::<Seq<PathStep>, ReadError>(
                edges,
            ),
            edges.len() == count,
            connections@ == edges.take(i as int),
        decreases count - i,
    {
        let at = pos + 20 + 20 * i;
        let connected_artist_id = read_id_at(data, at).unwrap();
        let similarity_score = read_u32_at(data, at + 16).unwrap();
        connections.push((connected_artist_id, similarity_score));
        assert(connections@ =~= edges.take(i + 1));
        i = i + 1;
    }
    assert(connections@ =~= edges);
    Ok(connections)
}

/// Applies the policy to stored edges: drops those under the threshold, orders
/// the rest by falling similarity, and keeps the `top_related` first.
pub fn filter_and_sort_connections(connections: Vec<PathStep>, config: &PathfindingConfig) -> (r:
    Vec<PathStep>)
    ensures
        r@ == filtered_sorted(connections@, *config),
{
    let filtering = similarity_rank(config.min_match) > 0;
    let mut sorted: Vec<PathStep> = Vec::new();
    let mut i: usize = 0;
    while i < connections.len()
        invariant
            i <= connections.len(),
            filtering == (sim_rank(config.min_match) > 0),
            sorted@ == sort_by_similarity(
                keep_passing(connections@.take(i as int), config.min_match),
            ),
        decreases connections.len() - i,
    {
        let edge = connections[i];
        proof {
            let upto = connections@.take(i + 1);
            assert(upto.drop_last() =~= connections@.take(i as int));
            assert(upto.last() == edge);
        }
        if !filtering || similarity_at_least(edge.1, config.min_match) {
            insert_ranked(&mut sorted, edge);
            proof {
                let kept = keep_passing(connections@.take(i as int), config.min_match);
                assert(passes(edge, config.min_match));
                assert(kept.push(edge).drop_last() =~= kept);
                assert(kept.push(edge).last() == edge);
            }
        }
        i = i + 1;
    }
    assert(connections@.take(connections.len() as int) =~= connections@);
    if config.top_related < sorted.len() {
        sorted.truncate(config.top_related);
    }
    sorted
}

/// The edges of `artist_id` that a query with policy `config` sees.
pub fn get_artist_connections(
    artist_id: u128,
    graph_data: &[u8],
    graph_index: &FxHashMap<u128, u64>,
    config: &PathfindingConfig,
) -> (r: Vec<PathStep>)
    ensures
        r@ == connections_of(artist_id, graph_data@, graph_index@, *config),
{
    let file_position = match id_map_get(graph_index, artist_id) {
        Some(pos) => *pos,
        None => {
            return filter_and_sort_connections(Vec::new(), config);
        },
    };
    if file_position >= graph_data.len() as u64 {
        return filter_and_sort_connections(Vec::new(), config);
    }
    match parse_artist_connections(artist_id, graph_data, file_position as usize) {
        Ok(raw_connections) => filter_and_sort_connections(raw_connections, config),
        Err(_) => filter_and_sort_connections(Vec::new(), config),
    }
}

/// Whether the parents lead from `from` up to `root` in no more than `steps`
/// steps.
pub open spec fn climbs_in(parent: Map<u128, PathStep>, root: u128, from: u128, steps: nat) -> bool
    decreases steps,
{
    from == root || (steps > 0 && parent.contains_key(from) && climbs_in(
        parent,
        root,
        parent[from].0,
        (steps - 1) as nat,
    ))
}

/// The walk up the parents to the root is the same however many steps it is
/// given, as long as they are enough.
pub proof fn lemma_same_chain(
    parent: Map<u128, PathStep>,
    root: u128,
    from: u128,
    steps: nat,
    others: nat,
)
    requires
        climbs_in(parent, root, from, steps),
        climbs_in(parent, root, from, others),
    ensures
        chain_up(parent, root, from, steps) == chain_up(parent, root, from, others),
    decreases steps,
{
    if from != root {
        lemma_same_chain(parent, root, parent[from].0, (steps - 1) as nat, (others - 1) as nat);
    }
}

/// Walks from `target` up the parents to `start` and returns the walk from
/// `start` to `target`: first `start` with similarity zero, then each artist
/// with the similarity of the edge on which it hangs. The parents must lead
/// from `target` to `start`.
pub fn reconstruct_path(parent_map: &FxHashMap<u128, PathStep>, start: u128, target: u128) -> (path:
    Vec<PathStep>)
    requires
        exists|n: nat| climbs_in(parent_map@, start, target, n),
    ensures
        forall|n: nat| #[trigger]
            climbs_in(parent_map@, start, target, n) ==> path@ == seq![(start, SIMILARITY_ZERO)]
                + chain_up(parent_map@, start, target, n).reverse(),
{
    let ghost fuel: nat = choose|n: nat| climbs_in(parent_map@, start, target, n);
    let ghost mut left: nat = fuel;
    let mut walk: Vec<PathStep> = Vec::new();
    let mut current = target;
    while current != start
        invariant
            climbs_in(parent_map@, start, current, left),
            chain_up(parent_map@, start, target, fuel) == walk@ + chain_up(
                parent_map@,
                start,
                current,
                left,
            ),
        decreases left,
    {
        let step = id_map_get(parent_map, current).unwrap();
        let (parent, similarity) = *step;
        let ghost before = walk@;
        walk.push((current, similarity));
        proof {
            left = (left - 1) as nat;
            assert(walk@ + chain_up(parent_map@, start, parent, left) =~= before + (seq![
                (current, similarity),
            ] + chain_up(parent_map@, start, parent, left)));
        }
        current = parent;
    }
    let mut path: Vec<PathStep> = Vec::new();
    path.push((start, SIMILARITY_ZERO));
    let mut n = walk.len();
    while n > 0
        invariant
            n <= walk@.len(),
            path@.len() == walk@.len() - n + 1,
            path@[0] == (start, SIMILARITY_ZERO),
            forall|i: int| 1 <= i < path@.len() ==> #[trigger] path@[i] == walk@[walk@.len() - i],
        decreases n,
    {
        n = n - 1;
        path.push(walk[n]);
    }
    proof {
        assert(walk@ =~= chain_up(parent_map@, start, target, fuel));
        assert(path@ =~= seq![(start, SIMILARITY_ZERO)] + walk@.reverse());
        assert forall|m: nat| #[trigger] climbs_in(parent_map@, start, target, m) implies path@
            == seq![(start, SIMILARITY_ZERO)] + chain_up(parent_map@, start, target, m).reverse() by {
            lemma_same_chain(parent_map@, start, target, fuel, m);
        }
    }
    path
}

} // verus!
