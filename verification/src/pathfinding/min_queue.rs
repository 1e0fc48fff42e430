//! A queue that hands out the entry of least cost first; of entries of equal
//! cost, the one that was put in first.

use vstd::prelude::*;

verus! {

/// An artist and the distance at which a search has found it.
#[derive(Debug, Clone, Copy, PartialEq, Eq, Structural)]
pub struct DijkstraNode {
    pub cost: u128,
    pub artist: u128,
}

/// The index of the first of the entries of least cost.
pub open spec fn first_min(s: Seq<DijkstraNode>) -> int
    decreases s.len(),
{
    if s.len() <= 1 {
        0
    } else {
        let j = first_min(s.drop_last());
        if s.last().cost < s[j].cost {
            s.len() - 1
        } else {
            j
        }
    }
}

/// The index found is that of an entry of least cost, and every entry before
/// it costs more.
pub proof fn lemma_first_min(s: Seq<DijkstraNode>)
    requires
        s.len() > 0,
    ensures
        0 <= first_min(s) < s.len(),
        forall|i: int| 0 <= i < s.len() ==> s[first_min(s)].cost <= (#[trigger] s[i]).cost,
        forall|i: int| 0 <= i < first_min(s) ==> s[first_min(s)].cost < (#[trigger] s[i]).cost,
    decreases s.len(),
{
    if s.len() > 1 {
        let t = s.drop_last();
        lemma_first_min(t);
        let j = first_min(t);
        assert(t[j] == s[j]);
        assert forall|i: int| 0 <= i < s.len() implies s[first_min(s)].cost <= (#[trigger] s[i]).cost by {
            if i < t.len() {
                assert(t[i] == s[i]);
            }
        }
        assert forall|i: int| 0 <= i < first_min(s) implies s[first_min(s)].cost < (
        #[trigger] s[i]).cost by {
            assert(t[i] == s[i]);
        }
    }
}

/// The entries that wait, in the order in which they were put in.
pub struct MinQueue {
    entries: Vec<DijkstraNode>,
}

impl View for MinQueue {
    type V = Seq<DijkstraNode>;

    closed spec fn view(&self) -> Seq<DijkstraNode> {
        self.entries@
    }
}

impl MinQueue {
    /// A queue that holds nothing.
    pub fn new() -> (r: Self)
        ensures
            r@ == Seq::<DijkstraNode>::empty(),
    {
        MinQueue { entries: Vec::new() }
    }

    /// The number of entries that wait.
    pub fn len(&self) -> (r: usize)
        ensures
            r == self@.len(),
    {
        self.entries.len()
    }

    /// Puts an entry in.
    pub fn push(&mut self, node: DijkstraNode)
        ensures
            final(self)@ == old(self)@.push(node),
    {
        self.entries.push(node);
    }

    /// Takes out the first of the entries of least cost.
    pub fn pop(&mut self) -> (r: Option<DijkstraNode>)
        ensures
            old(self)@.len() == 0 ==> r.is_none() && final(self)@ == old(self)@,
            old(self)@.len() > 0 ==> r == Some(old(self)@[first_min(old(self)@)]) && final(self)@
                == old(self)@.remove(first_min(old(self)@)),
    {
        let n = self.entries.len();
        if n == 0 {
            return None;
        }
        let mut best: usize = 0;
        let mut i: usize = 1;
        assert(self.entries@.take(1).len() == 1);
        while i < n
            invariant
                1 <= i <= n,
                n == self.entries@.len(),
                self.entries@ == old(self).entries@,
                best == first_min(self.entries@.take(i as int)),
                best < i,
            decreases n - i,
        {
            proof {
                let upto = self.entries@.take(i + 1);
                assert(upto.drop_last() =~= self.entries@.take(i as int));
                assert(upto.last() == self.entries@[i as int]);
                assert(upto[best as int] == self.entries@[best as int]);
            }
            if self.entries[i].cost < self.entries[best].cost {
                best = i;
            }
            i = i + 1;
        }
        assert(self.entries@.take(n as int) =~= self.entries@);
        let node = self.entries.remove(best);
        Some(node)
    }
}

} // verus!
