//! Bipartite matching between two index ranges, decided by augmenting paths.
//!
//! A graph is a rectangular boolean table `g`, `g[i][j]` telling whether row
//! `i` and column `j` may be paired. The search works from one side, called
//! the left side; `flip` chooses whether the left side is the rows (`false`)
//! or the columns (`true`).
use vstd::prelude::*;
use vstd::relations::injective_on;
use vstd::set_lib::*;
use vstd::set::*;

verus! {

/// `g` has `nrows` rows of `ncols` entries each.
pub open spec fn is_table(g: Seq<Seq<bool>>, nrows: int, ncols: int) -> bool {
    &&& g.len() == nrows
    &&& forall|i: int| 0 <= i < nrows ==> #[trigger] g[i].len() == ncols
}

/// `g` seen from the chosen left side has `nl` left and `nr` right vertices.
pub open spec fn is_oriented(g: Seq<Seq<bool>>, flip: bool, nl: int, nr: int) -> bool {
    if flip {
        is_table(g, nr, nl)
    } else {
        is_table(g, nl, nr)
    }
}

/// Whether left vertex `l` may be paired with right vertex `r`.
pub open spec fn edge(g: Seq<Seq<bool>>, flip: bool, l: int, r: int) -> bool {
    if flip {
        g[r][l]
    } else {
        g[l][r]
    }
}

/// `owner[r]` is the left vertex paired with right vertex `r`, if any. It is a
/// matching when every pair is an edge and no left vertex is used twice.
pub open spec fn is_matching(g: Seq<Seq<bool>>, flip: bool, nl: int, owner: Seq<Option<usize>>) -> bool {
    &&& forall|r: int|
        0 <= r < owner.len() && (#[trigger] owner[r]) is Some ==> owner[r]->0 < nl && edge(
            g,
            flip,
            owner[r]->0 as int,
            r,
        )
    &&& forall|r1: int, r2: int|
        0 <= r1 < owner.len() && 0 <= r2 < owner.len() && r1 != r2 && (#[trigger] owner[r1]) is Some
            ==> owner[r1] != #[trigger] owner[r2]
}

/// Left vertex `l` is paired with some right vertex.
pub open spec fn covers(owner: Seq<Option<usize>>, l: int) -> bool {
    exists|r: int| 0 <= r < owner.len() && owner[r] == Some(l as usize)
}

/// `owner` is a matching of the whole left side.
pub open spec fn is_saturating(g: Seq<Seq<bool>>, flip: bool, nl: int, nr: int, owner: Seq<Option<usize>>) -> bool {
    &&& owner.len() == nr
    &&& is_matching(g, flip, nl, owner)
    &&& forall|l: int| 0 <= l < nl ==> #[trigger] covers(owner, l)
}

/// Some matching pairs every left vertex with a distinct right vertex.
pub open spec fn saturable(g: Seq<Seq<bool>>, flip: bool, nl: int, nr: int) -> bool {
    exists|owner: Seq<Option<usize>>| #[trigger] is_saturating(g, flip, nl, nr, owner)
}

/// No edge joins a left vertex and a right vertex that are both unpaired.
pub open spec fn is_maximal(g: Seq<Seq<bool>>, flip: bool, nl: int, owner: Seq<Option<usize>>) -> bool {
    forall|l: int, r: int|
        0 <= l < nl && 0 <= r < owner.len() && #[trigger] edge(g, flip, l, r) ==> covers(owner, l)
            || owner[r] is Some
}

/// Number of unvisited entries.
pub open spec fn unvisited(s: Seq<bool>) -> nat
    decreases s.len(),
{
    if s.len() == 0 {
        0
    } else {
        unvisited(s.drop_last()) + if s.last() {
            0nat
        } else {
            1nat
        }
    }
}

proof fn lemma_unvisited_grow(a: Seq<bool>, b: Seq<bool>)
    requires
        a.len() == b.len(),
        forall|i: int| 0 <= i < a.len() && a[i] ==> b[i],
    ensures
        unvisited(b) <= unvisited(a),
    decreases a.len(),
{
    if a.len() > 0 {
        lemma_unvisited_grow(a.drop_last(), b.drop_last());
    }
}

proof fn lemma_unvisited_mark(a: Seq<bool>, i: int)
    requires
        0 <= i < a.len(),
        !a[i],
    ensures
        unvisited(a.update(i, true)) + 1 == unvisited(a),
    decreases a.len(),
{
    let b = a.update(i, true);
    if i < a.len() - 1 {
        assert(b.drop_last() =~= a.drop_last().update(i, true));
        lemma_unvisited_mark(a.drop_last(), i);
    } else {
        assert(b.drop_last() =~= a.drop_last());
    }
}

proof fn lemma_unvisited_bound(a: Seq<bool>)
    ensures
        unvisited(a) <= a.len(),
    decreases a.len(),
{
    if a.len() > 0 {
        lemma_unvisited_bound(a.drop_last());
    }
}

fn has_edge(g: &Vec<Vec<bool>>, flip: bool, nl: usize, nr: usize, l: usize, r: usize) -> (e: bool)
    requires
        is_oriented(deep(g), flip, nl as int, nr as int),
        l < nl,
        r < nr,
    ensures
        e == edge(deep(g), flip, l as int, r as int),
{
    if flip {
        assert(deep(g)[r as int] == g@[r as int]@);
        g[r][l]
    } else {
        assert(deep(g)[l as int] == g@[l as int]@);
        g[l][r]
    }
}

/// The table as nested sequences.
pub open spec fn deep(g: &Vec<Vec<bool>>) -> Seq<Seq<bool>> {
    g@.map_values(|row: Vec<bool>| row@)
}

/// The search for an augmenting path from left vertex `l`, trying right
/// vertices from `r` upwards: whether it succeeds, and the visited marks and
/// pairing it leaves. A right vertex, once visited, is not tried again; a
/// paired one is handed to its partner, which searches on. `fuel` bounds the
/// depth and is never the limit when it is at least the number of unvisited
/// right vertices.
pub open spec fn search(
    g: Seq<Seq<bool>>,
    flip: bool,
    nl: int,
    nr: int,
    l: int,
    r: int,
    visited: Seq<bool>,
    owner: Seq<Option<usize>>,
    fuel: nat,
) -> (bool, Seq<bool>, Seq<Option<usize>>)
    decreases fuel, nr - r,
{
    if r < 0 || r >= nr {
        (false, visited, owner)
    } else if edge(g, flip, l, r) && !visited[r] {
        let v1 = visited.update(r, true);
        match owner[r] {
            None => (true, v1, owner.update(r, Some(l as usize))),
            Some(p) => if fuel == 0 {
                (false, v1, owner)
            } else {
                let inner = search(
                    g,
                    flip,
                    nl,
                    nr,
                    p as int,
                    0,
                    v1,
                    owner.update(r, Some(l as usize)),
                    (fuel - 1) as nat,
                );
                if inner.0 {
                    inner
                } else {
                    search(g, flip, nl, nr, l, r + 1, inner.1, owner, fuel)
                }
            },
        }
    } else {
        search(g, flip, nl, nr, l, r + 1, visited, owner, fuel)
    }
}

/// The pairing after searching from left vertices `0..k` in turn, each search
/// starting with nothing visited.
pub open spec fn greedy(g: Seq<Seq<bool>>, flip: bool, nl: int, nr: int, k: int) -> Seq<Option<usize>>
    decreases k,
{
    if k <= 0 {
        Seq::new(nr as nat, |r: int| None::<usize>)
    } else {
        search(
            g,
            flip,
            nl,
            nr,
            k - 1,
            0,
            Seq::new(nr as nat, |r: int| false),
            greedy(g, flip, nl, nr, k - 1),
            nr as nat,
        ).2
    }
}

/// Left vertices `rs` have all their neighbours in `vs`, and each right vertex
/// of `vs` is paired, with a member of `rs` unless it is already visited. No
/// search can leave such a block, so none from inside it succeeds.
pub open spec fn is_blocked(
    g: Seq<Seq<bool>>,
    flip: bool,
    nr: int,
    owner: Seq<Option<usize>>,
    visited: Seq<bool>,
    rs: Set<int>,
    vs: Set<int>,
) -> bool {
    &&& forall|x: int, c: int|
        rs.contains(x) && 0 <= c < nr && #[trigger] edge(g, flip, x, c) ==> vs.contains(c)
    &&& forall|c: int|
        #[trigger] vs.contains(c) ==> 0 <= c < nr && owner[c] is Some && (rs.contains(
            owner[c]->0 as int,
        ) || visited[c])
}

/// Looks for an augmenting path that starts at the unpaired left vertex `l`,
/// trying right vertices in ascending order and skipping those already
/// visited in this attempt. On success the matching gains `l`; on failure it
/// is unchanged, and every right vertex reachable from `l` by an alternating
/// path has been visited and is paired.
fn augment(
    g: &Vec<Vec<bool>>,
    flip: bool,
    nl: usize,
    nr: usize,
    l: usize,
    visited: &mut Vec<bool>,
    owner: &mut Vec<Option<usize>>,
    fuel: Ghost<nat>,
    rs: Ghost<Set<int>>,
    vs: Ghost<Set<int>>,
) -> (found: bool)
    requires
        unvisited(old(visited)@) <= fuel@,
        is_blocked(deep(g), flip, nr as int, old(owner)@, old(visited)@, rs@, vs@),
        is_oriented(deep(g), flip, nl as int, nr as int),
        l < nl,
        old(visited)@.len() == nr,
        old(owner)@.len() == nr,
        is_matching(deep(g), flip, nl as int, old(owner)@),
        !covers(old(owner)@, l as int),
    ensures
        (found, final(visited)@, final(owner)@) == search(
            deep(g),
            flip,
            nl as int,
            nr as int,
            l as int,
            0,
            old(visited)@,
            old(owner)@,
            fuel@,
        ),
        final(visited)@.len() == nr,
        final(owner)@.len() == nr,
        rs@.contains(l as int) ==> !found,
        found ==> forall|c: int| #[trigger] vs@.contains(c) ==> final(owner)@[c] == old(owner)@[c],
        forall|r: int| 0 <= r < nr && old(visited)@[r] ==> #[trigger] final(visited)@[r],
        found ==> is_matching(deep(g), flip, nl as int, final(owner)@),
        found ==> forall|x: int|
            0 <= x < nl ==> (#[trigger] covers(final(owner)@, x) <==> (covers(old(owner)@, x) || x
                == l)),
        found ==> forall|r: int|
            0 <= r < nr && old(owner)@[r] is Some ==> (#[trigger] final(owner)@[r]) is Some,
        !found ==> final(owner)@ == old(owner)@,
        !found ==> forall|r: int|
            0 <= r < nr && #[trigger] edge(deep(g), flip, l as int, r) ==> final(visited)@[r],
        !found ==> forall|r: int|
            0 <= r < nr && #[trigger] final(visited)@[r] && !old(visited)@[r] ==> old(owner)@[r] is Some
                && forall|r2: int|
                0 <= r2 < nr && #[trigger] edge(deep(g), flip, old(owner)@[r]->0 as int, r2)
                    ==> final(visited)@[r2],
    decreases unvisited(old(visited)@),
{
    let ghost g0 = deep(g);
    let ghost v0 = visited@;
    let ghost o0 = owner@;
    let mut r: usize = 0;
    while r < nr
        invariant
            0 <= r <= nr,
            g0 == deep(g),
            is_oriented(g0, flip, nl as int, nr as int),
            l < nl,
            visited@.len() == nr,
            v0.len() == nr,
            v0 == old(visited)@,
            o0 == old(owner)@,
            unvisited(v0) <= fuel@,
            is_blocked(g0, flip, nr as int, o0, visited@, rs@, vs@),
            search(g0, flip, nl as int, nr as int, l as int, 0, v0, o0, fuel@) == search(
                g0,
                flip,
                nl as int,
                nr as int,
                l as int,
                r as int,
                visited@,
                o0,
                fuel@,
            ),
            owner@ == o0,
            o0.len() == nr,
            is_matching(g0, flip, nl as int, o0),
            !covers(o0, l as int),
            forall|x: int| 0 <= x < nr && v0[x] ==> #[trigger] visited@[x],
            unvisited(visited@) <= unvisited(v0),
            forall|x: int| 0 <= x < r && #[trigger] edge(g0, flip, l as int, x) ==> visited@[x],
            forall|x: int|
                0 <= x < nr && #[trigger] visited@[x] && !v0[x] ==> o0[x] is Some && forall|x2: int|
                    0 <= x2 < nr && #[trigger] edge(g0, flip, o0[x]->0 as int, x2) ==> visited@[x2],
        decreases nr - r,
    {
        if has_edge(g, flip, nl, nr, l, r) && !visited[r] {
            proof {
                lemma_unvisited_mark(visited@, r as int);
            }
            visited.set(r, true);
            match owner[r] {
                None => {
                    assert(!vs@.contains(r as int));
                    assert(!rs@.contains(l as int));
                    owner.set(r, Some(l));
                    proof {
                        assert forall|x: int|
                            0 <= x < nl implies (#[trigger] covers(owner@, x) <==> (covers(o0, x)
                                || x == l)) by {
                            if covers(o0, x) {
                                let w = choose|w: int| 0 <= w < o0.len() && o0[w] == Some(x as usize);
                                assert(owner@[w] == o0[w]);
                            }
                            if x == l {
                                assert(owner@[r as int] == Some(x as usize));
                            }
                            if covers(owner@, x) {
                                let w = choose|w: int| 0 <= w < owner@.len() && owner@[w] == Some(x as usize);
                                if w != r {
                                    assert(o0[w] == Some(x as usize));
                                }
                            }
                        }
                    }
                    return true;
                },
                Some(p) => {
                    owner.set(r, Some(l));
                    let ghost o1 = owner@;
                    proof {
                        assert forall|x: int|
                            0 <= x < nl implies (#[trigger] covers(o1, x) <==> ((covers(o0, x) && x
                                != p) || x == l)) by {
                            if covers(o0, x) && x != p {
                                let w = choose|w: int| 0 <= w < o0.len() && o0[w] == Some(x as usize);
                                assert(o1[w] == o0[w]);
                            }
                            if x == l {
                                assert(o1[r as int] == Some(x as usize));
                            }
                            if covers(o1, x) {
                                let w = choose|w: int| 0 <= w < o1.len() && o1[w] == Some(x as usize);
                                if w != r {
                                    assert(o0[w] == Some(x as usize));
                                    assert(o0[w] != o0[r as int]);
                                }
                            }
                        }
                        assert(o0[r as int] == Some(p));
                        assert(covers(o0, p as int));
                        assert(p < nl);
                        assert(!covers(o1, p as int));
                    }
                    let ghost v1 = visited@;
                    assert(is_blocked(g0, flip, nr as int, o1, v1, rs@, vs@));
                    if augment(g, flip, nl, nr, p, visited, owner, Ghost((fuel@ - 1) as nat), rs, vs) {
                        assert(!rs@.contains(p as int));
                        assert(!vs@.contains(r as int));
                        assert(!rs@.contains(l as int));
                        proof {
                            assert forall|x: int|
                                0 <= x < nl implies (#[trigger] covers(owner@, x) <==> (covers(
                                    o0,
                                    x,
                                ) || x == l)) by {
                                assert(covers(owner@, x) <==> (covers(o1, x) || x == p));
                                assert(covers(o1, x) <==> ((covers(o0, x) && x != p) || x == l));
                            }
                            assert forall|x: int|
                                0 <= x < nr && o0[x] is Some implies (#[trigger] owner@[x]) is Some by {
                                assert(o1[x] is Some);
                            }
                        }
                        return true;
                    }
                    owner.set(r, Some(p));
                    proof {
                        assert(owner@ =~= o0);
                        assert(is_blocked(g0, flip, nr as int, o0, visited@, rs@, vs@));
                        lemma_unvisited_grow(v0, visited@);
                    }
                },
            }
        }
        r += 1;
    }
    false
}

/// A right vertex paired with left vertex `x` in `owner`, when there is one.
pub open spec fn partner_of(owner: Seq<Option<usize>>, x: int) -> int {
    choose|r: int| 0 <= r < owner.len() && owner[r] == Some(x as usize)
}

/// When the search from the unpaired vertex `u` is stuck, the visited right
/// vertices together with `u` and their partners form a set of left vertices
/// with fewer neighbours than members, so no matching covers the left side.
proof fn lemma_stuck_search(
    g: Seq<Seq<bool>>,
    flip: bool,
    nl: int,
    nr: int,
    owner: Seq<Option<usize>>,
    visited: Seq<bool>,
    u: int,
)
    requires
        is_oriented(g, flip, nl, nr),
        0 <= u < nl <= usize::MAX,
        owner.len() == nr,
        visited.len() == nr,
        is_matching(g, flip, nl, owner),
        !covers(owner, u),
        forall|r: int| 0 <= r < nr && #[trigger] edge(g, flip, u, r) ==> visited[r],
        forall|r: int|
            0 <= r < nr && #[trigger] visited[r] ==> owner[r] is Some && forall|r2: int|
                0 <= r2 < nr && #[trigger] edge(g, flip, owner[r]->0 as int, r2) ==> visited[r2],
    ensures
        !saturable(g, flip, nl, nr),
{
    if saturable(g, flip, nl, nr) {
        let o = choose|o: Seq<Option<usize>>| #[trigger] is_saturating(g, flip, nl, nr, o);
        let vs = Set::new(|r: int| 0 <= r < nr && visited[r]);
        let h = |c: int| partner_of(o, owner[c]->0 as int);
        assert(vs.subset_of(set_int_range(0, nr)));
        lemma_int_range(0, nr);
        lemma_len_subset(vs, set_int_range(0, nr));
        assert forall|c: int| vs.contains(c) implies vs.contains(#[trigger] h(c)) by {
            let p = owner[c]->0 as int;
            assert(covers(o, p));
            let w = h(c);
            assert(0 <= w < nr && o[w] == Some(p as usize));
            assert(edge(g, flip, p, w));
        }
        assert(injective_on(h, vs)) by {
            assert forall|c1: int, c2: int|
                vs.contains(c1) && vs.contains(c2) && #[trigger] h(c1) == #[trigger] h(c2)
                implies c1 == c2 by {
                let p1 = owner[c1]->0 as int;
                let p2 = owner[c2]->0 as int;
                assert(covers(o, p1));
                assert(covers(o, p2));
                assert(o[h(c1)] == Some(p1 as usize));
                assert(o[h(c2)] == Some(p2 as usize));
                if c1 != c2 {
                    assert(owner[c1] != owner[c2]);
                }
            }
        }
        let img = vs.map(h);
        lemma_map_size(vs, img, h);
        assert(img.subset_of(vs));
        lemma_subset_equality(img, vs);
        assert(covers(o, u));
        let cu = partner_of(o, u);
        assert(0 <= cu < nr && o[cu] == Some(u as usize));
        assert(o[cu] is Some);
        assert(edge(g, flip, o[cu]->0 as int, cu));
        assert(edge(g, flip, u, cu));
        assert(vs.contains(cu));
        assert(img.contains(cu));
        let c = choose|c: int| vs.contains(c) && h(c) == cu;
        assert(covers(o, owner[c]->0 as int));
        assert(o[cu] == Some(u as usize));
        assert(o[h(c)] == Some(owner[c]->0));
        assert(owner[c] == Some(u as usize));
    }
}

/// A vector of `n` copies of `x`.
fn filled<T: Copy>(n: usize, x: T) -> (v: Vec<T>)
    ensures
        v@.len() == n,
        forall|i: int| 0 <= i < n ==> v@[i] == x,
{
    let mut v: Vec<T> = Vec::new();
    while v.len() < n
        invariant
            v@.len() <= n,
            forall|i: int| 0 <= i < v@.len() ==> v@[i] == x,
        decreases n - v@.len(),
    {
        v.push(x);
    }
    v
}

/// Pairs every left vertex with a distinct right vertex, taking left vertices
/// in ascending order, or reports that no such matching exists.
pub fn saturate(g: &Vec<Vec<bool>>, flip: bool, nl: usize, nr: usize) -> (res: Option<
    Vec<Option<usize>>,
>)
    requires
        is_oriented(deep(g), flip, nl as int, nr as int),
    ensures
        res is Some <==> saturable(deep(g), flip, nl as int, nr as int),
        res is Some ==> is_saturating(deep(g), flip, nl as int, nr as int, res->0@),
{
    let mut owner: Vec<Option<usize>> = filled(nr, None);
    let mut l: usize = 0;
    while l < nl
        invariant
            0 <= l <= nl,
            is_oriented(deep(g), flip, nl as int, nr as int),
            owner@.len() == nr,
            is_matching(deep(g), flip, nl as int, owner@),
            forall|x: int| 0 <= x < nl ==> (#[trigger] covers(owner@, x) <==> x < l),
        decreases nl - l,
    {
        let mut visited: Vec<bool> = filled(nr, false);
        let ghost v0 = visited@;
        proof {
            lemma_unvisited_bound(visited@);
        }
        let found = augment(
            g,
            flip,
            nl,
            nr,
            l,
            &mut visited,
            &mut owner,
            Ghost(nr as nat),
            Ghost(Set::empty()),
            Ghost(Set::empty()),
        );
        if !found {
            proof {
                assert forall|r: int| 0 <= r < nr && #[trigger] visited@[r] implies owner@[r] is Some
                    && forall|r2: int|
                    0 <= r2 < nr && #[trigger] edge(deep(g), flip, owner@[r]->0 as int, r2)
                        ==> visited@[r2] by {
                    assert(!v0[r]);
                }
                lemma_stuck_search(deep(g), flip, nl as int, nr as int, owner@, visited@, l as int);
            }
            return None;
        }
        l += 1;
    }
    proof {
        assert(is_saturating(deep(g), flip, nl as int, nr as int, owner@));
    }
    Some(owner)
}

/// The right vertices that `owner` pairs.
pub open spec fn paired(owner: Seq<Option<usize>>) -> Set<int> {
    Set::new(|c: int| 0 <= c < owner.len() && owner[c] is Some)
}

/// No matching of the graph pairs more vertices than `owner`.
pub open spec fn is_maximum(g: Seq<Seq<bool>>, flip: bool, nl: int, nr: int, owner: Seq<Option<usize>>) -> bool {
    forall|o: Seq<Option<usize>>|
        o.len() == nr && is_matching(g, flip, nl, o) ==> #[trigger] paired(o).len() <= paired(
            owner,
        ).len()
}

proof fn lemma_range_subset(s: Set<int>, lo: int, hi: int)
    requires
        lo <= hi,
        forall|x: int| #[trigger] s.contains(x) ==> lo <= x < hi,
    ensures
        s.finite(),
        s.len() <= hi - lo,
{
    lemma_int_range(lo, hi);
    assert(s.subset_of(set_int_range(lo, hi)));
    lemma_len_subset(s, set_int_range(lo, hi));
}

/// A block `rs`, `vs` that holds every unpaired left vertex, and otherwise only
/// partners of `vs`, bounds every matching by the size of `owner`: the left
/// vertices outside `rs` together with `vs` touch every edge, and there are
/// as many of them as `owner` has pairs.
proof fn lemma_cover_bound(
    g: Seq<Seq<bool>>,
    flip: bool,
    nl: int,
    nr: int,
    owner: Seq<Option<usize>>,
    rs: Set<int>,
    vs: Set<int>,
    o: Seq<Option<usize>>,
)
    requires
        0 <= nl <= usize::MAX,
        0 <= nr,
        owner.len() == nr,
        is_matching(g, flip, nl, owner),
        is_blocked(g, flip, nr, owner, Seq::new(nr as nat, |c: int| false), rs, vs),
        forall|x: int| #[trigger] rs.contains(x) ==> 0 <= x < nl,
        forall|x: int| 0 <= x < nl && !covers(owner, x) ==> #[trigger] rs.contains(x),
        forall|x: int|
            #[trigger] rs.contains(x) && covers(owner, x) ==> exists|c: int|
                vs.contains(c) && owner[c] == Some(x as usize),
        o.len() == nr,
        is_matching(g, flip, nl, o),
    ensures
        paired(o).len() <= paired(owner).len(),
{
    let range = set_int_range(0, nl);
    lemma_int_range(0, nl);
    let free = Set::new(|x: int| 0 <= x < nl && !covers(owner, x));
    let cov = Set::new(|x: int| 0 <= x < nl && covers(owner, x));
    lemma_range_subset(free, 0, nl);
    lemma_range_subset(cov, 0, nl);
    lemma_range_subset(rs, 0, nl);
    lemma_range_subset(vs, 0, nr);
    lemma_range_subset(paired(owner), 0, nr);
    lemma_range_subset(paired(o), 0, nr);
    // pairs of `owner` and covered left vertices correspond one to one
    let own = |c: int| owner[c]->0 as int;
    assert(injective_on(own, paired(owner))) by {
        assert forall|c1: int, c2: int|
            paired(owner).contains(c1) && paired(owner).contains(c2) && #[trigger] own(c1)
                == #[trigger] own(c2) implies c1 == c2 by {
            if c1 != c2 {
                assert(owner[c1] != owner[c2]);
            }
        }
    }
    assert(paired(owner).map(own) =~= cov) by {
        assert forall|x: int| cov.contains(x) implies paired(owner).map(own).contains(x) by {
            let c = choose|c: int| 0 <= c < owner.len() && owner[c] == Some(x as usize);
            assert(paired(owner).contains(c) && own(c) == x);
        }
        assert forall|x: int| paired(owner).map(own).contains(x) implies cov.contains(x) by {
            let c = choose|c: int| paired(owner).contains(c) && own(c) == x;
            assert(owner[c] == Some(x as usize));
        }
    }
    lemma_map_size(paired(owner), cov, own);
    // free and covered left vertices split the range
    assert((free + cov) =~= range);
    lemma_set_disjoint_lens(free, cov);
    // `rs` is the free vertices and the partners of `vs`
    assert(injective_on(own, vs)) by {
        assert forall|c1: int, c2: int|
            vs.contains(c1) && vs.contains(c2) && #[trigger] own(c1) == #[trigger] own(c2)
            implies c1 == c2 by {
            if c1 != c2 {
                assert(owner[c1] != owner[c2]);
            }
        }
    }
    let mates = vs.map(own);
    lemma_map_size(vs, mates, own);
    assert((free + mates) =~= rs) by {
        assert forall|x: int| rs.contains(x) implies (free + mates).contains(x) by {
            if covers(owner, x) {
                let c = choose|c: int| vs.contains(c) && owner[c] == Some(x as usize);
                assert(own(c) == x);
                assert(mates.contains(x));
            }
        }
        assert forall|x: int| (free + mates).contains(x) implies rs.contains(x) by {
            if mates.contains(x) {
                let c = choose|c: int| vs.contains(c) && own(c) == x;
                assert(owner[c] is Some);
            }
        }
    }
    assert(free.disjoint(mates)) by {
        assert forall|x: int| !(free.contains(x) && mates.contains(x)) by {
            if mates.contains(x) {
                let c = choose|c: int| vs.contains(c) && own(c) == x;
                assert(owner[c] == Some(x as usize));
                assert(covers(owner, x));
            }
        }
    }
    lemma_set_disjoint_lens(free, mates);
    // the cover: left vertices outside `rs`, written as negative numbers, and `vs`
    let outside = range.difference(rs);
    assert((rs + outside) =~= range);
    lemma_range_subset(outside, 0, nl);
    lemma_set_disjoint_lens(rs, outside);
    let neg = |x: int| -(x + 1);
    assert(injective_on(neg, outside));
    let left = outside.map(neg);
    lemma_map_size(outside, left, neg);
    assert(left.disjoint(vs));
    lemma_set_disjoint_lens(left, vs);
    let cover = left + vs;
    // each pair of `o` meets the cover in its own vertex
    let f = |c: int|
        if rs.contains(o[c]->0 as int) {
            c
        } else {
            -(o[c]->0 as int + 1)
        };
    assert(injective_on(f, paired(o))) by {
        assert forall|c1: int, c2: int|
            paired(o).contains(c1) && paired(o).contains(c2) && #[trigger] f(c1) == #[trigger] f(c2)
            implies c1 == c2 by {
            if c1 != c2 {
                assert(o[c1] != o[c2]);
            }
        }
    }
    let hit = paired(o).map(f);
    assert(hit.subset_of(cover)) by {
        assert forall|y: int| hit.contains(y) implies cover.contains(y) by {
            let c = choose|c: int| paired(o).contains(c) && f(c) == y;
            let x = o[c]->0 as int;
            assert(edge(g, flip, x, c));
            if rs.contains(x) {
                assert(vs.contains(c));
            } else {
                assert(outside.contains(x));
                assert(left.contains(neg(x)));
            }
        }
    }
    lemma_map_size(paired(o), hit, f);
    lemma_len_subset(hit, cover);
}

/// A maximum matching, built by searching from every left vertex in ascending
/// order; it also leaves no left vertex out while it has an unpaired neighbour.
pub fn maximum_matching(g: &Vec<Vec<bool>>, flip: bool, nl: usize, nr: usize) -> (owner: Vec<
    Option<usize>,
>)
    requires
        is_oriented(deep(g), flip, nl as int, nr as int),
    ensures
        owner@ == greedy(deep(g), flip, nl as int, nr as int, nl as int),
        owner@.len() == nr,
        is_matching(deep(g), flip, nl as int, owner@),
        is_maximal(deep(g), flip, nl as int, owner@),
        is_maximum(deep(g), flip, nl as int, nr as int, owner@),
{
    let ghost none = Seq::new(nr as nat, |c: int| false);
    let ghost mut rs: Set<int> = Set::empty();
    let ghost mut vs: Set<int> = Set::empty();
    let mut owner: Vec<Option<usize>> = filled(nr, None);
    assert(owner@ =~= greedy(deep(g), flip, nl as int, nr as int, 0));
    let mut l: usize = 0;
    while l < nl
        invariant
            0 <= l <= nl,
            is_oriented(deep(g), flip, nl as int, nr as int),
            none == Seq::new(nr as nat, |c: int| false),
            owner@ == greedy(deep(g), flip, nl as int, nr as int, l as int),
            owner@.len() == nr,
            is_matching(deep(g), flip, nl as int, owner@),
            forall|x: int| l <= x < nl ==> !(#[trigger] covers(owner@, x)),
            forall|x: int, r: int|
                0 <= x < l && 0 <= r < nr && #[trigger] edge(deep(g), flip, x, r) ==> covers(
                    owner@,
                    x,
                ) || owner@[r] is Some,
            is_blocked(deep(g), flip, nr as int, owner@, none, rs, vs),
            forall|x: int| #[trigger] rs.contains(x) ==> 0 <= x < l,
            forall|x: int| 0 <= x < l && !covers(owner@, x) ==> #[trigger] rs.contains(x),
            forall|x: int|
                #[trigger] rs.contains(x) && covers(owner@, x) ==> exists|c: int|
                    vs.contains(c) && owner@[c] == Some(x as usize),
        decreases nl - l,
    {
        let mut visited: Vec<bool> = filled(nr, false);
        let ghost before = owner@;
        let ghost v0 = visited@;
        proof {
            lemma_unvisited_bound(visited@);
            assert(v0 =~= none);
        }
        let found = augment(
            g,
            flip,
            nl,
            nr,
            l,
            &mut visited,
            &mut owner,
            Ghost(nr as nat),
            Ghost(rs),
            Ghost(vs),
        );
        proof {
            if found {
                assert forall|x: int, r: int|
                    0 <= x < l + 1 && 0 <= r < nr && #[trigger] edge(deep(g), flip, x, r) implies covers(
                    owner@,
                    x,
                ) || owner@[r] is Some by {
                    if x < l && !covers(before, x) {
                        assert(before[r] is Some);
                    }
                }
                assert forall|x: int|
                    #[trigger] rs.contains(x) && covers(owner@, x) implies exists|c: int|
                        vs.contains(c) && owner@[c] == Some(x as usize) by {
                    assert(covers(before, x));
                    let c = choose|c: int| vs.contains(c) && before[c] == Some(x as usize);
                    assert(owner@[c] == before[c]);
                }
                assert forall|x: int| 0 <= x < l + 1 && !covers(owner@, x) implies #[trigger] rs.contains(x) by {
                    assert(!covers(before, x));
                }
                assert forall|c: int| #[trigger] vs.contains(c) implies 0 <= c < nr && owner@[c] is Some
                    && (rs.contains(owner@[c]->0 as int) || none[c]) by {
                    assert(owner@[c] == before[c]);
                }
            } else {
                assert forall|r: int|
                    0 <= r < nr && #[trigger] edge(deep(g), flip, l as int, r) implies owner@[r] is Some by {
                    assert(visited@[r]);
                    assert(!v0[r]);
                }
                let seen = visited@;
                let vl = Set::new(|c: int| 0 <= c < nr && seen[c]);
                let rl = Set::new(
                    |x: int|
                        x == l || (0 <= x < nl && exists|c: int|
                            vl.contains(c) && before[c] == Some(x as usize)),
                );
                let rs2 = rs + rl;
                let vs2 = vs + vl;
                assert forall|x: int, c: int|
                    rs2.contains(x) && 0 <= c < nr && #[trigger] edge(deep(g), flip, x, c) implies vs2.contains(c) by {
                    if rl.contains(x) && x != l {
                        let c0 = choose|c0: int| vl.contains(c0) && before[c0] == Some(x as usize);
                        assert(!v0[c0]);
                        assert(before[c0]->0 as int == x);
                        assert(seen[c]);
                    }
                }
                assert forall|c: int| #[trigger] vs2.contains(c) implies 0 <= c < nr && owner@[c] is Some
                    && (rs2.contains(owner@[c]->0 as int) || none[c]) by {
                    if vl.contains(c) {
                        assert(!v0[c]);
                        assert(rl.contains(owner@[c]->0 as int));
                    }
                }
                assert forall|x: int| #[trigger] rs2.contains(x) implies 0 <= x < l + 1 by {
                    if rl.contains(x) && x != l {
                        let c0 = choose|c0: int| vl.contains(c0) && before[c0] == Some(x as usize);
                        assert(covers(before, x));
                    }
                }
                assert forall|x: int| 0 <= x < l + 1 && !covers(owner@, x) implies #[trigger] rs2.contains(x) by {
                    if x == l {
                        assert(rl.contains(x));
                    }
                }
                assert forall|x: int|
                    #[trigger] rs2.contains(x) && covers(owner@, x) implies exists|c: int|
                        vs2.contains(c) && owner@[c] == Some(x as usize) by {
                    if rs.contains(x) {
                        let c = choose|c: int| vs.contains(c) && owner@[c] == Some(x as usize);
                        assert(vs2.contains(c));
                    } else {
                        assert(x != l);
                        let c = choose|c: int| vl.contains(c) && before[c] == Some(x as usize);
                        assert(vs2.contains(c));
                    }
                }
                rs = rs2;
                vs = vs2;
            }
        }
        l += 1;
    }
    proof {
        assert forall|o: Seq<Option<usize>>|
            o.len() == nr && is_matching(deep(g), flip, nl as int, o) implies #[trigger] paired(o).len()
            <= paired(owner@).len() by {
            lemma_cover_bound(deep(g), flip, nl as int, nr as int, owner@, rs, vs, o);
        }
    }
    owner
}

} // verus!
