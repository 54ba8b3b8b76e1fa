//! The compatibility table between actual elements and expected predicates,
//! the three cardinality modes, and the verdict each mode gives.
use crate::matching::{deep, is_oriented, is_table, saturable, saturate};
use vstd::prelude::*;

verus! {

/// How the actual elements and the expected predicates must pair up.
#[derive(Clone, Copy, Debug, PartialEq, Eq, Structural)]
pub enum Requirements {
    /// Sizes agree and every element pairs with a distinct predicate and back.
    PerfectMatch,
    /// Every predicate pairs with a distinct element; extra elements are fine.
    Superset,
    /// Every element pairs with a distinct predicate; extra predicates are fine.
    Subset,
}

/// A predicate on one element: whether it accepts a value, and how it reads.
pub trait JsonMatcher<V> {
    /// Whether the predicate accepts `v`. Each implementation states it; the
    /// default is left unknown.
    closed spec fn accepts(&self, v: V) -> bool {
        arbitrary()
    }

    /// What `describe` returns, unknown unless the implementation states it.
    closed spec fn description(&self) -> Seq<char> {
        arbitrary()
    }

    fn matches(&self, v: &V) -> (r: bool)
        ensures
            r == self.accepts(*v),
    ;

    fn describe(&self) -> (r: String)
        ensures
            r@ == self.description(),
    ;
}

/// Entry `[i][j]` says whether predicate `j` accepts element `i`.
pub open spec fn compatibility<V, P: JsonMatcher<V>>(actual: Seq<V>, expected: Seq<P>) -> Seq<
    Seq<bool>,
> {
    Seq::new(
        actual.len(),
        |i: int| Seq::new(expected.len(), |j: int| expected[j].accepts(actual[i])),
    )
}

/// Whether table `g` of `n` elements and `m` predicates meets `req`. With
/// equal sizes, an injective pairing of every element uses every predicate.
pub open spec fn feasible(g: Seq<Seq<bool>>, n: int, m: int, req: Requirements) -> bool {
    match req {
        Requirements::PerfectMatch => n == m && saturable(g, false, n, m),
        Requirements::Superset => n >= m && saturable(g, true, m, n),
        Requirements::Subset => m >= n && saturable(g, false, n, m),
    }
}

/// The compatibility table, filled once per (element, predicate) pair.
pub struct MatchMatrix {
    pub graph: Vec<Vec<bool>>,
    pub expected_len: usize,
}

impl MatchMatrix {
    /// The table as nested sequences.
    pub open spec fn table(&self) -> Seq<Seq<bool>> {
        deep(&self.graph)
    }

    /// Number of actual elements.
    pub open spec fn rows(&self) -> int {
        self.graph@.len() as int
    }

    pub open spec fn wf(&self) -> bool {
        is_table(self.table(), self.rows(), self.expected_len as int)
    }

    /// Asks every predicate about every element, in row order.
    pub fn generate<V, P: JsonMatcher<V>>(actual: &Vec<V>, expected: &Vec<P>) -> (r: MatchMatrix)
        ensures
            r.wf(),
            r.rows() == actual@.len(),
            r.expected_len == expected@.len(),
            r.table() == compatibility(actual@, expected@),
    {
        let ghost want = compatibility(actual@, expected@);
        let mut graph: Vec<Vec<bool>> = Vec::new();
        let mut i: usize = 0;
        while i < actual.len()
            invariant
                0 <= i <= actual@.len(),
                want == compatibility(actual@, expected@),
                graph@.len() == i,
                forall|k: int| 0 <= k < i ==> (#[trigger] graph@[k])@ == want[k],
            decreases actual@.len() - i,
        {
            let mut row: Vec<bool> = Vec::new();
            let mut j: usize = 0;
            while j < expected.len()
                invariant
                    0 <= i < actual@.len(),
                    0 <= j <= expected@.len(),
                    row@.len() == j,
                    forall|k: int|
                        0 <= k < j ==> #[trigger] row@[k] == expected@[k].accepts(actual@[i as int]),
                decreases expected@.len() - j,
            {
                let ok = expected[j].matches(&actual[i]);
                row.push(ok);
                j += 1;
            }
            assert(row@ =~= want[i as int]);
            graph.push(row);
            i += 1;
        }
        let r = MatchMatrix { graph, expected_len: expected.len() };
        assert(r.table() =~= want);
        r
    }

    /// Decides whether some pairing meets `req`.
    pub fn is_match_for(&self, req: Requirements) -> (r: bool)
        requires
            self.wf(),
        ensures
            r == feasible(self.table(), self.rows(), self.expected_len as int, req),
    {
        let n = self.graph.len();
        let m = self.expected_len;
        match req {
            Requirements::PerfectMatch => n == m && saturate(&self.graph, false, n, m).is_some(),
            Requirements::Superset => n >= m && saturate(&self.graph, true, m, n).is_some(),
            Requirements::Subset => m >= n && saturate(&self.graph, false, n, m).is_some(),
        }
    }
}

} // verus!
