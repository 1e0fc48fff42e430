//! The choice between the two searches, and its name on the wire.

use crate::string_normalization::lowercase;
use crate::string_normalization::lowercased;
use vstd::prelude::*;
use vstd::std_specs::convert::FromSpecImpl;

verus! {

/// Which search to run.
#[derive(Debug, Clone, Copy, PartialEq, Eq, Structural)]
pub enum Algorithm {
    /// Fewest steps.
    Bfs,
    /// Best similarity.
    Dijkstra,
}

/// The algorithm that a name on the wire stands for: the second where the
/// name in lower case is `dijkstra`, the first for every other name.
pub open spec fn algorithm_named(name: Seq<char>) -> Algorithm {
    if lowercased(name) == "dijkstra"@ {
        Algorithm::Dijkstra
    } else {
        Algorithm::Bfs
    }
}

impl Algorithm {
    /// The name of the algorithm on the wire.
    pub fn as_str(&self) -> (r: &'static str)
        ensures
            r@ == (match *self {
                Algorithm::Bfs => "bfs"@,
                Algorithm::Dijkstra => "dijkstra"@,
            }),
    {
        match self {
            Algorithm::Bfs => "bfs",
            Algorithm::Dijkstra => "dijkstra",
        }
    }
}

impl Default for Algorithm {
    fn default() -> (r: Self)
        ensures
            r == Algorithm::Bfs,
    {
        Algorithm::Bfs
    }
}

impl<'a> From<&'a str> for Algorithm {
    fn from(s: &'a str) -> (r: Self) {
        let lower = lowercase(s);
        let wanted = "dijkstra".to_owned();
        if lower == wanted {
            Algorithm::Dijkstra
        } else {
            Algorithm::Bfs
        }
    }
}

impl<'a> FromSpecImpl<&'a str> for Algorithm {
    open spec fn obeys_from_spec() -> bool {
        true
    }

    open spec fn from_spec(s: &'a str) -> Self {
        algorithm_named(s@)
    }
}

impl From<String> for Algorithm {
    fn from(s: String) -> (r: Self) {
        Algorithm::from(s.as_str())
    }
}

impl FromSpecImpl<String> for Algorithm {
    open spec fn obeys_from_spec() -> bool {
        true
    }

    open spec fn from_spec(s: String) -> Self {
        algorithm_named(s@)
    }
}

} // verus!
