//! Properties of the verdict that relate several inputs.
use crate::match_matrix::{compatibility, feasible, JsonMatcher, Requirements};
use crate::matching::{covers, edge, is_matching, is_saturating, saturable};
use crate::unordered::{descriptions, explanation};
use vstd::prelude::*;
use vstd::relations::injective_on;
use vstd::set_lib::{lemma_int_range, lemma_map_size, lemma_subset_equality, set_int_range};

verus! {

/// A perfect match needs as many elements as predicates, whatever the
/// predicates say.
pub proof fn perfect_match_needs_equal_sizes<V, P: JsonMatcher<V>>(actual: Seq<V>, expected: Seq<P>)
    requires
        actual.len() != expected.len(),
    ensures
        !feasible(
            compatibility(actual, expected),
            actual.len() as int,
            expected.len() as int,
            Requirements::PerfectMatch,
        ),
{
}

/// A superset match survives appending more elements to the array.
pub proof fn superset_survives_extra_elements<V, P: JsonMatcher<V>>(
    actual: Seq<V>,
    extra: Seq<V>,
    expected: Seq<P>,
)
    requires
        feasible(
            compatibility(actual, expected),
            actual.len() as int,
            expected.len() as int,
            Requirements::Superset,
        ),
    ensures
        feasible(
            compatibility(actual + extra, expected),
            (actual + extra).len() as int,
            expected.len() as int,
            Requirements::Superset,
        ),
{
    let g = compatibility(actual, expected);
    let g2 = compatibility(actual + extra, expected);
    let n = actual.len() as int;
    let n2 = (actual + extra).len() as int;
    let m = expected.len() as int;
    let o = choose|o: Seq<Option<usize>>| #[trigger] is_saturating(g, true, m, n, o);
    let o2 = o + Seq::new(extra.len(), |i: int| None::<usize>);
    assert forall|r: int| 0 <= r < n ==> #[trigger] g2[r] == g[r] by {
        if 0 <= r < n {
            assert(g2[r] =~= g[r]);
        }
    }
    assert(is_matching(g2, true, m, o2)) by {
        assert forall|r: int| 0 <= r < o2.len() && (#[trigger] o2[r]) is Some implies o2[r]->0 < m
            && edge(g2, true, o2[r]->0 as int, r) by {
            assert(r < n);
            assert(o[r] is Some);
        }
        assert forall|r1: int, r2: int|
            0 <= r1 < o2.len() && 0 <= r2 < o2.len() && r1 != r2 && (#[trigger] o2[r1]) is Some
            implies o2[r1] != #[trigger] o2[r2] by {
            assert(r1 < n);
            if r2 < n {
                assert(o[r1] != o[r2]);
            }
        }
    }
    assert forall|l: int| 0 <= l < m implies #[trigger] covers(o2, l) by {
        assert(covers(o, l));
        let w = choose|w: int| 0 <= w < o.len() && o[w] == Some(l as usize);
        assert(o2[w] == o[w]);
    }
    assert(is_saturating(g2, true, m, n2, o2));
}

/// A subset match survives appending more predicates.
pub proof fn subset_survives_extra_predicates<V, P: JsonMatcher<V>>(
    actual: Seq<V>,
    expected: Seq<P>,
    extra: Seq<P>,
)
    requires
        feasible(
            compatibility(actual, expected),
            actual.len() as int,
            expected.len() as int,
            Requirements::Subset,
        ),
    ensures
        feasible(
            compatibility(actual, expected + extra),
            actual.len() as int,
            (expected + extra).len() as int,
            Requirements::Subset,
        ),
{
    let g = compatibility(actual, expected);
    let g2 = compatibility(actual, expected + extra);
    let n = actual.len() as int;
    let m = expected.len() as int;
    let m2 = (expected + extra).len() as int;
    let o = choose|o: Seq<Option<usize>>| #[trigger] is_saturating(g, false, n, m, o);
    let o2 = o + Seq::new(extra.len(), |i: int| None::<usize>);
    assert(is_matching(g2, false, n, o2)) by {
        assert forall|r: int| 0 <= r < o2.len() && (#[trigger] o2[r]) is Some implies o2[r]->0 < n
            && edge(g2, false, o2[r]->0 as int, r) by {
            assert(r < m);
            assert(o[r] is Some);
            assert(edge(g, false, o[r]->0 as int, r));
        }
        assert forall|r1: int, r2: int|
            0 <= r1 < o2.len() && 0 <= r2 < o2.len() && r1 != r2 && (#[trigger] o2[r1]) is Some
            implies o2[r1] != #[trigger] o2[r2] by {
            assert(r1 < m);
            if r2 < m {
                assert(o[r1] != o[r2]);
            }
        }
    }
    assert forall|l: int| 0 <= l < n implies #[trigger] covers(o2, l) by {
        assert(covers(o, l));
        let w = choose|w: int| 0 <= w < o.len() && o[w] == Some(l as usize);
        assert(o2[w] == o[w]);
    }
    assert(is_saturating(g2, false, n, m2, o2));
}

/// `p` lists every index below `n` exactly once.
pub open spec fn is_permutation(p: Seq<int>, n: int) -> bool {
    &&& p.len() == n
    &&& forall|i: int| 0 <= i < n ==> 0 <= #[trigger] p[i] < n
    &&& forall|i: int, j: int| 0 <= i < n && 0 <= j < n && i != j ==> p[i] != p[j]
}

/// `s` rearranged: entry `i` is `s[p[i]]`.
pub open spec fn permuted<V>(s: Seq<V>, p: Seq<int>) -> Seq<V> {
    Seq::new(p.len(), |i: int| s[p[i]])
}

/// Some entry of `p` below `n` is `r`.
pub open spec fn reached(p: Seq<int>, n: int, r: int) -> bool {
    exists|i: int| 0 <= i < n && #[trigger] p[i] == r
}

proof fn lemma_permutation_onto(p: Seq<int>, n: int)
    requires
        is_permutation(p, n),
    ensures
        forall|r: int| 0 <= r < n ==> #[trigger] reached(p, n, r),
{
    let dom = set_int_range(0, n);
    let f = |i: int| p[i];
    lemma_int_range(0, n);
    assert(injective_on(f, dom));
    let img = dom.map(f);
    lemma_map_size(dom, img, f);
    assert(img.subset_of(dom));
    lemma_subset_equality(img, dom);
    assert forall|r: int| 0 <= r < n implies #[trigger] reached(p, n, r) by {
        assert(dom.contains(r));
        assert(img.contains(r));
    }
}

/// A pairing of every row of the rearranged table gives one of the table it came from.
proof fn lemma_pull_back(g: Seq<Seq<bool>>, gp: Seq<Seq<bool>>, n: int, m: int, p: Seq<int>)
    requires
        0 <= n <= usize::MAX,
        is_permutation(p, n),
        forall|i: int, c: int| 0 <= i < n && 0 <= c < m ==> #[trigger] gp[i][c] == g[p[i]][c],
        saturable(gp, false, n, m),
    ensures
        saturable(g, false, n, m),
{
    lemma_permutation_onto(p, n);
    let op = choose|o: Seq<Option<usize>>| #[trigger] is_saturating(gp, false, n, m, o);
    let o = Seq::new(
        m as nat,
        |c: int|
            if op[c] is Some {
                Some(p[op[c]->0 as int] as usize)
            } else {
                None
            },
    );
    assert(is_matching(g, false, n, o)) by {
        assert forall|c: int| 0 <= c < o.len() && (#[trigger] o[c]) is Some implies o[c]->0 < n
            && edge(g, false, o[c]->0 as int, c) by {
            assert(op[c] is Some);
            assert(edge(gp, false, op[c]->0 as int, c));
        }
        assert forall|c1: int, c2: int|
            0 <= c1 < o.len() && 0 <= c2 < o.len() && c1 != c2 && (#[trigger] o[c1]) is Some
            implies o[c1] != #[trigger] o[c2] by {
            assert(op[c1] != op[c2]);
        }
    }
    assert forall|r: int| 0 <= r < n implies #[trigger] covers(o, r) by {
        assert(reached(p, n, r));
        let i = choose|i: int| 0 <= i < n && #[trigger] p[i] == r;
        assert(covers(op, i));
        let w = choose|w: int| 0 <= w < op.len() && op[w] == Some(i as usize);
        assert(o[w] == Some(r as usize));
    }
    assert(is_saturating(g, false, n, m, o));
}

/// Rearranging the array never changes whether it is a perfect match.
pub proof fn perfect_match_ignores_order<V, P: JsonMatcher<V>>(
    actual: Seq<V>,
    p: Seq<int>,
    expected: Seq<P>,
)
    requires
        actual.len() <= usize::MAX,
        is_permutation(p, actual.len() as int),
    ensures
        feasible(
            compatibility(permuted(actual, p), expected),
            actual.len() as int,
            expected.len() as int,
            Requirements::PerfectMatch,
        ) == feasible(
            compatibility(actual, expected),
            actual.len() as int,
            expected.len() as int,
            Requirements::PerfectMatch,
        ),
{
    let n = actual.len() as int;
    let m = expected.len() as int;
    let g = compatibility(actual, expected);
    let gp = compatibility(permuted(actual, p), expected);
    lemma_permutation_onto(p, n);
    if saturable(gp, false, n, m) {
        lemma_pull_back(g, gp, n, m, p);
    }
    if saturable(g, false, n, m) {
        let q = Seq::new(n as nat, |r: int| choose|i: int| 0 <= i < n && #[trigger] p[i] == r);
        assert forall|r: int| 0 <= r < n implies 0 <= #[trigger] q[r] < n && p[q[r]] == r by {
            assert(reached(p, n, r));
        }
        assert forall|r1: int, r2: int| 0 <= r1 < n && 0 <= r2 < n && r1 != r2 implies q[r1] != q[r2] by {
            assert(p[q[r1]] == r1);
            assert(p[q[r2]] == r2);
        }
        assert(is_permutation(q, n));
        assert forall|i: int, c: int| 0 <= i < n && 0 <= c < m implies #[trigger] g[i][c] == gp[q[i]][c] by {
            assert(p[q[i]] == i);
        }
        lemma_pull_back(gp, g, n, m, q);
    }
}

/// Explaining is a function of the inputs: two texts that both meet the
/// contract of `explain_match` for the same array, renderings, predicates and
/// requirements are the same text.
pub proof fn explanation_is_deterministic<V, P: JsonMatcher<V>>(
    actual: Seq<V>,
    shown: Seq<Seq<char>>,
    expected: Seq<P>,
    req: Requirements,
    t1: Seq<char>,
    t2: Seq<char>,
)
    requires
        t1 == explanation(
            compatibility(actual, expected),
            actual.len() as int,
            expected.len() as int,
            req,
            shown,
            descriptions::<V, P>(expected),
        ),
        t2 == explanation(
            compatibility(actual, expected),
            actual.len() as int,
            expected.len() as int,
            req,
            shown,
            descriptions::<V, P>(expected),
        ),
    ensures
        t1 == t2,
{
}

} // verus!
