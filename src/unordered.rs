//! The matcher that pairs array elements with predicates in any order.
use crate::explain::{
    best_match_message, col_unmatchable, index_list, row_unmatchable, size_message, texts,
    unmatchable_cols, unmatchable_for, unmatchable_message, unmatchable_rows,
};
use crate::match_matrix::{compatibility, feasible, JsonMatcher, MatchMatrix, Requirements};
use crate::matching::{
    covers, edge, greedy, is_matching, is_maximal, is_maximum, is_saturating, maximum_matching,
    paired,
};
use vstd::relations::injective_on;
use vstd::set_lib::{lemma_int_range, lemma_len_subset, lemma_map_size, lemma_subset_equality, set_int_range};
use vstd::prelude::*;

verus! {

/// `owner` (predicate to element) is a pairing as large as any, and no single
/// pair can extend it.
pub open spec fn is_best_pairing(g: Seq<Seq<bool>>, n: int, m: int, owner: Seq<Option<usize>>) -> bool {
    &&& owner.len() == m
    &&& is_matching(g, false, n, owner)
    &&& is_maximal(g, false, n, owner)
    &&& is_maximum(g, false, n, m, owner)
}

/// The pairing reported when nothing is unmatchable: elements searched in
/// ascending order, each trying predicates in ascending order.
pub open spec fn best_pairing(g: Seq<Seq<bool>>, n: int, m: int) -> Seq<Option<usize>> {
    greedy(g, false, n, m, n)
}

/// The text explaining table `g` under `req`: the size message when the sizes
/// rule the mode out; else the unmatchable message when something cannot be
/// paired at all; else, when the mode is met, that all elements match; else
/// the report of the best pairing.
pub open spec fn explanation(
    g: Seq<Seq<bool>>,
    n: int,
    m: int,
    req: Requirements,
    shown: Seq<Seq<char>>,
    descs: Seq<Seq<char>>,
) -> Seq<char> {
    match size_message(req, n as nat, m as nat) {
        Some(s) => s,
        None => match unmatchable_for(g, n, m, req) {
            Some(u) => u,
            None => if feasible(g, n, m, req) {
                "whose elements all match"@
            } else {
                best_match_message(req, best_pairing(g, n, m), n, m, shown, descs)
            },
        },
    }
}

/// No explanation is empty.
pub proof fn lemma_explanation_nonempty(
    g: Seq<Seq<bool>>,
    n: int,
    m: int,
    req: Requirements,
    shown: Seq<Seq<char>>,
    descs: Seq<Seq<char>>,
)
    ensures
        explanation(g, n, m, req, shown, descs).len() > 0,
{
    reveal_strlit("which has size ");
    reveal_strlit("which has no ");
    reveal_strlit("whose element ");
    reveal_strlit("whose elements ");
    reveal_strlit("whose elements all match");
    reveal_strlit("which does not have a ");
}

proof fn lemma_unmatchable_rows_members(g: Seq<Seq<bool>>, m: int, k: int)
    ensures
        forall|x: int|
            #[trigger] unmatchable_rows(g, m, k).contains(x) ==> 0 <= x < k && row_unmatchable(
                g,
                m,
                x,
            ),
    decreases k,
{
    if k > 0 {
        lemma_unmatchable_rows_members(g, m, k - 1);
        let prev = unmatchable_rows(g, m, k - 1);
        assert forall|x: int| #[trigger] unmatchable_rows(g, m, k).contains(x) implies 0 <= x < k
            && row_unmatchable(g, m, x) by {
            if row_unmatchable(g, m, k - 1) {
                let cur = prev.push(k - 1);
                let i = choose|i: int| 0 <= i < cur.len() && #[trigger] cur[i] == x;
                if i < prev.len() {
                    assert(prev[i] == x);
                    assert(prev.contains(x));
                }
            } else {
                assert(prev.contains(x));
            }
        }
    }
}

proof fn lemma_unmatchable_cols_members(g: Seq<Seq<bool>>, n: int, k: int)
    ensures
        forall|x: int|
            #[trigger] unmatchable_cols(g, n, k).contains(x) ==> 0 <= x < k && col_unmatchable(
                g,
                n,
                x,
            ),
    decreases k,
{
    if k > 0 {
        lemma_unmatchable_cols_members(g, n, k - 1);
        let prev = unmatchable_cols(g, n, k - 1);
        assert forall|x: int| #[trigger] unmatchable_cols(g, n, k).contains(x) implies 0 <= x < k
            && col_unmatchable(g, n, x) by {
            if col_unmatchable(g, n, k - 1) {
                let cur = prev.push(k - 1);
                let i = choose|i: int| 0 <= i < cur.len() && #[trigger] cur[i] == x;
                if i < prev.len() {
                    assert(prev[i] == x);
                    assert(prev.contains(x));
                }
            } else {
                assert(prev.contains(x));
            }
        }
    }
}

/// With as many right as left vertices, a matching of the whole left side
/// pairs every right vertex too.
proof fn lemma_square_saturating(g: Seq<Seq<bool>>, n: int, o: Seq<Option<usize>>)
    requires
        0 <= n <= usize::MAX,
        is_saturating(g, false, n, n, o),
    ensures
        forall|c: int| 0 <= c < n ==> (#[trigger] o[c]) is Some,
{
    let p = paired(o);
    let range = set_int_range(0, n);
    lemma_int_range(0, n);
    assert(p.subset_of(range));
    lemma_len_subset(p, range);
    let own = |c: int| o[c]->0 as int;
    assert(injective_on(own, p)) by {
        assert forall|c1: int, c2: int|
            p.contains(c1) && p.contains(c2) && #[trigger] own(c1) == #[trigger] own(c2)
            implies c1 == c2 by {
            if c1 != c2 {
                assert(o[c1] != o[c2]);
            }
        }
    }
    assert(p.map(own) =~= range) by {
        assert forall|x: int| range.contains(x) implies p.map(own).contains(x) by {
            assert(covers(o, x));
            let c = choose|c: int| 0 <= c < o.len() && o[c] == Some(x as usize);
            assert(p.contains(c) && own(c) == x);
        }
    }
    lemma_map_size(p, range, own);
    lemma_subset_equality(p, range);
    assert forall|c: int| 0 <= c < n implies (#[trigger] o[c]) is Some by {
        assert(range.contains(c));
    }
}

/// The first character of a nonempty index list is `#`.
proof fn lemma_index_list_head(s: Seq<int>)
    requires
        s.len() > 0,
    ensures
        index_list(s).len() > 0,
        index_list(s)[0] == '#',
    decreases s.len(),
{
    reveal_strlit("#");
    if s.len() > 1 {
        lemma_index_list_head(s.drop_last());
    }
}

/// The explanation says that all elements match exactly when the mode is met.
proof fn lemma_all_match_iff_feasible(
    g: Seq<Seq<bool>>,
    n: int,
    m: int,
    req: Requirements,
    shown: Seq<Seq<char>>,
    descs: Seq<Seq<char>>,
)
    requires
        0 <= n <= usize::MAX,
        0 <= m <= usize::MAX,
    ensures
        explanation(g, n, m, req, shown, descs) == "whose elements all match"@ <==> feasible(
            g,
            n,
            m,
            req,
        ),
{
    let all = "whose elements all match"@;
    reveal_strlit("whose elements all match");
    reveal_strlit("which has size ");
    reveal_strlit("which has no ");
    reveal_strlit("whose element ");
    reveal_strlit("whose elements ");
    reveal_strlit("which does not have a ");
    lemma_unmatchable_rows_members(g, m, n);
    lemma_unmatchable_cols_members(g, n, m);
    let rows = unmatchable_rows(g, m, n);
    let cols = unmatchable_cols(g, n, m);
    if feasible(g, n, m, req) {
        match req {
            Requirements::Superset => {
                let o = choose|o: Seq<Option<usize>>| #[trigger] is_saturating(g, true, m, n, o);
                if cols.len() > 0 {
                    let j = cols[0];
                    assert(cols.contains(j));
                    assert(covers(o, j));
                    let r = choose|r: int| 0 <= r < o.len() && o[r] == Some(j as usize);
                    assert(edge(g, true, o[r]->0 as int, r));
                }
            },
            _ => {
                let o = choose|o: Seq<Option<usize>>| #[trigger] is_saturating(g, false, n, m, o);
                if rows.len() > 0 {
                    let i = rows[0];
                    assert(rows.contains(i));
                    assert(covers(o, i));
                    let c = choose|c: int| 0 <= c < o.len() && o[c] == Some(i as usize);
                    assert(edge(g, false, o[c]->0 as int, c));
                }
                if req == Requirements::PerfectMatch && cols.len() > 0 {
                    lemma_square_saturating(g, n, o);
                    let j = cols[0];
                    assert(cols.contains(j));
                    assert(o[j] is Some);
                    assert(edge(g, false, o[j]->0 as int, j));
                }
            },
        }
    } else {
        let t = explanation(g, n, m, req, shown, descs);
        match size_message(req, n as nat, m as nat) {
            Some(sm) => {
                assert(t[2] != all[2]);
            },
            None => match unmatchable_for(g, n, m, req) {
                Some(u) => {
                    let (a, e) = match req {
                        Requirements::PerfectMatch => (rows, cols),
                        Requirements::Superset => (seq![], cols),
                        Requirements::Subset => (rows, seq![]),
                    };
                    assert(unmatchable_message(a, e) == Some(u));
                    if a.len() == 0 {
                        assert(t[2] != all[2]);
                    } else if a.len() == 1 {
                        lemma_index_list_head(a);
                        assert(t[13] != all[13]);
                    } else {
                        lemma_index_list_head(a);
                        assert(t[15] != all[15]);
                    }
                },
                None => {
                    assert(t[2] != all[2]);
                },
            },
        }
    }
}

/// What the predicates say of themselves.
pub open spec fn descriptions<V, P: JsonMatcher<V>>(elements: Seq<P>) -> Seq<Seq<char>> {
    elements.map_values(|p: P| p.description())
}

/// Matches an array whose elements pair one to one with `elements` as
/// `requirements` asks, in any order.
pub struct JsonUnorderedElementsAreMatcher<P> {
    pub elements: Vec<P>,
    pub requirements: Requirements,
}

impl<P> JsonUnorderedElementsAreMatcher<P> {
    pub fn new(elements: Vec<P>, requirements: Requirements) -> (r: Self)
        ensures
            r.elements == elements,
            r.requirements == requirements,
    {
        JsonUnorderedElementsAreMatcher { elements, requirements }
    }

    /// Whether `actual` meets the requirements. When the sizes alone rule the
    /// mode out, no predicate is asked.
    pub fn matches<V>(&self, actual: &Vec<V>) -> (r: bool) where P: JsonMatcher<V>
        ensures
            r == feasible(
                compatibility(actual@, self.elements@),
                actual@.len() as int,
                self.elements@.len() as int,
                self.requirements,
            ),
    {
        let n = actual.len();
        let m = self.elements.len();
        let too_few_or_many = match self.requirements {
            Requirements::PerfectMatch => n != m,
            Requirements::Superset => n < m,
            Requirements::Subset => n > m,
        };
        if too_few_or_many {
            return false;
        }
        let matrix = MatchMatrix::generate(actual, &self.elements);
        matrix.is_match_for(self.requirements)
    }

    fn descriptions_of<V>(&self) -> (d: Vec<String>) where P: JsonMatcher<V>
        ensures
            d@.len() == self.elements@.len(),
            texts(d@) == descriptions::<V, P>(self.elements@),
    {
        let mut d: Vec<String> = Vec::new();
        let mut j: usize = 0;
        while j < self.elements.len()
            invariant
                0 <= j <= self.elements@.len(),
                d@.len() == j,
                texts(d@) == descriptions::<V, P>(self.elements@.subrange(0, j as int)),
            decreases self.elements@.len() - j,
        {
            let t = self.elements[j].describe();
            let ghost prev = d@;
            d.push(t);
            assert forall|k: int| 0 <= k < j implies texts(d@)[k] == descriptions::<V, P>(
                self.elements@.subrange(0, j + 1),
            )[k] by {
                assert(d@[k] == prev[k]);
                assert(texts(prev)[k] == descriptions::<V, P>(self.elements@.subrange(0, j as int))[k]);
            }
            assert(t@ == self.elements@[j as int].description());
            assert(texts(d@)[j as int] == t@);
            assert(descriptions::<V, P>(self.elements@.subrange(0, j + 1))[j as int]
                == self.elements@[j as int].description());
            assert(texts(d@) =~= descriptions::<V, P>(self.elements@.subrange(0, j + 1)));
            j += 1;
        }
        assert(self.elements@.subrange(0, j as int) =~= self.elements@);
        d
    }

    /// Says why `actual` does or does not meet the requirements; `shown[i]` is
    /// how element `i` is written.
    pub fn explain_match<V>(&self, actual: &Vec<V>, shown: &Vec<String>) -> (r: String) where
        P: JsonMatcher<V>,
        requires
            shown@.len() == actual@.len(),
        ensures
            r@.len() > 0,
            r@ == "whose elements all match"@ <==> feasible(
                compatibility(actual@, self.elements@),
                actual@.len() as int,
                self.elements@.len() as int,
                self.requirements,
            ),
            r@ == explanation(
                compatibility(actual@, self.elements@),
                actual@.len() as int,
                self.elements@.len() as int,
                self.requirements,
                texts(shown@),
                descriptions::<V, P>(self.elements@),
            ),
            size_message(self.requirements, actual@.len(), self.elements@.len()) is None
                && !feasible(
                compatibility(actual@, self.elements@),
                actual@.len() as int,
                self.elements@.len() as int,
                self.requirements,
            ) && unmatchable_for(
                compatibility(actual@, self.elements@),
                actual@.len() as int,
                self.elements@.len() as int,
                self.requirements,
            ) is None ==> is_best_pairing(
                compatibility(actual@, self.elements@),
                actual@.len() as int,
                self.elements@.len() as int,
                best_pairing(
                    compatibility(actual@, self.elements@),
                    actual@.len() as int,
                    self.elements@.len() as int,
                ),
            ),
    {
        let n = actual.len();
        let m = self.elements.len();
        proof {
            lemma_explanation_nonempty(
                compatibility(actual@, self.elements@),
                n as int,
                m as int,
                self.requirements,
                texts(shown@),
                descriptions::<V, P>(self.elements@),
            );
            lemma_all_match_iff_feasible(
                compatibility(actual@, self.elements@),
                n as int,
                m as int,
                self.requirements,
                texts(shown@),
                descriptions::<V, P>(self.elements@),
            );
        }
        if let Some(size_msg) = self.requirements.explain_size_mismatch(n, m) {
            return size_msg;
        }
        let matrix = MatchMatrix::generate(actual, &self.elements);
        if let Some(unmatchable) = matrix.explain_unmatchable(self.requirements) {
            return unmatchable;
        }
        if matrix.is_match_for(self.requirements) {
            return crate::text::text_of("whose elements all match");
        }
        let owner = maximum_matching(&matrix.graph, false, n, m);
        let descs = self.descriptions_of();
        let r = crate::explain::best_match_text(
            self.requirements,
            &owner,
            n,
            Ghost(matrix.table()),
            shown,
            &descs,
        );
        assert(is_best_pairing(matrix.table(), n as int, m as int, owner@));
        r
    }
}

} // verus!
