//! The text that says why a table does not meet a mode: sizes first, then
//! vertices that nothing can pair, then the best pairing that was found.
use crate::match_matrix::{MatchMatrix, Requirements};
use crate::matching::{covers, deep, is_matching, is_table, partner_of};
use crate::text::{decimal, text_of, usize_text};
use vstd::prelude::*;

verus! {

/// How a mode is named in the text.
pub open spec fn req_name(req: Requirements) -> Seq<char> {
    match req {
        Requirements::PerfectMatch => "perfect"@,
        Requirements::Superset => "superset"@,
        Requirements::Subset => "subset"@,
    }
}

/// The message for sizes that rule the mode out, if they do.
pub open spec fn size_message(req: Requirements, n: nat, m: nat) -> Option<Seq<char>> {
    match req {
        Requirements::PerfectMatch => if n != m {
            Some("which has size "@ + decimal(n) + " (expected "@ + decimal(m) + ")"@)
        } else {
            None
        },
        Requirements::Superset => if n < m {
            Some("which has size "@ + decimal(n) + " (expected at least "@ + decimal(m) + ")"@)
        } else {
            None
        },
        Requirements::Subset => if n > m {
            Some("which has size "@ + decimal(n) + " (expected at most "@ + decimal(m) + ")"@)
        } else {
            None
        },
    }
}

impl Requirements {
    /// The message for sizes that rule this mode out, or `None`.
    pub fn explain_size_mismatch(&self, actual_size: usize, expected_size: usize) -> (r: Option<
        String,
    >)
        ensures
            match r {
                Some(t) => size_message(*self, actual_size as nat, expected_size as nat) == Some(t@),
                None => size_message(*self, actual_size as nat, expected_size as nat) is None,
            },
    {
        let relation = match self {
            Requirements::PerfectMatch => {
                if actual_size == expected_size {
                    return None;
                }
                " (expected "
            },
            Requirements::Superset => {
                if actual_size >= expected_size {
                    return None;
                }
                " (expected at least "
            },
            Requirements::Subset => {
                if actual_size <= expected_size {
                    return None;
                }
                " (expected at most "
            },
        };
        let mut s = text_of("which has size ");
        s.append(usize_text(actual_size).as_str());
        s.append(relation);
        s.append(usize_text(expected_size).as_str());
        s.append(")");
        Some(s)
    }
}

/// No predicate accepts element `i`.
pub open spec fn row_unmatchable(g: Seq<Seq<bool>>, m: int, i: int) -> bool {
    forall|j: int| 0 <= j < m ==> !#[trigger] g[i][j]
}

/// Predicate `j` accepts no element.
pub open spec fn col_unmatchable(g: Seq<Seq<bool>>, n: int, j: int) -> bool {
    forall|i: int| 0 <= i < n ==> !#[trigger] g[i][j]
}

/// The elements below `k` that no predicate accepts, ascending.
pub open spec fn unmatchable_rows(g: Seq<Seq<bool>>, m: int, k: int) -> Seq<int>
    decreases k,
{
    if k <= 0 {
        seq![]
    } else if row_unmatchable(g, m, k - 1) {
        unmatchable_rows(g, m, k - 1).push(k - 1)
    } else {
        unmatchable_rows(g, m, k - 1)
    }
}

/// The predicates below `k` that accept no element, ascending.
pub open spec fn unmatchable_cols(g: Seq<Seq<bool>>, n: int, k: int) -> Seq<int>
    decreases k,
{
    if k <= 0 {
        seq![]
    } else if col_unmatchable(g, n, k - 1) {
        unmatchable_cols(g, n, k - 1).push(k - 1)
    } else {
        unmatchable_cols(g, n, k - 1)
    }
}

/// Indices written `#i`, joined by `, `.
pub open spec fn index_list(s: Seq<int>) -> Seq<char>
    decreases s.len(),
{
    if s.len() == 0 {
        seq![]
    } else if s.len() == 1 {
        "#"@ + decimal(s[0] as nat)
    } else {
        index_list(s.drop_last()) + ", #"@ + decimal(s.last() as nat)
    }
}

/// "the expected element #j" or "the expected elements #j, #k".
pub open spec fn expected_clause(e: Seq<int>) -> Seq<char> {
    if e.len() == 1 {
        "the expected element "@ + index_list(e)
    } else {
        "the expected elements "@ + index_list(e)
    }
}

/// The message naming unmatchable elements `a` and predicates `e`, if any.
pub open spec fn unmatchable_message(a: Seq<int>, e: Seq<int>) -> Option<Seq<char>> {
    if a.len() == 0 && e.len() == 0 {
        None
    } else if a.len() == 0 {
        Some(
            "which has no "@ + (if e.len() == 1 {
                "element"@
            } else {
                "elements"@
            }) + " matching "@ + expected_clause(e),
        )
    } else {
        let head = if a.len() == 1 {
            "whose element "@ + index_list(a) + " does not match any expected elements"@
        } else {
            "whose elements "@ + index_list(a) + " do not match any expected elements"@
        };
        if e.len() == 0 {
            Some(head)
        } else {
            Some(head + " and no elements match "@ + expected_clause(e))
        }
    }
}

/// What the mode looks at: both sides for a perfect match, the predicates for
/// a superset, the elements for a subset.
pub open spec fn unmatchable_for(g: Seq<Seq<bool>>, n: int, m: int, req: Requirements) -> Option<
    Seq<char>,
> {
    match req {
        Requirements::PerfectMatch => unmatchable_message(
            unmatchable_rows(g, m, n),
            unmatchable_cols(g, n, m),
        ),
        Requirements::Superset => unmatchable_message(seq![], unmatchable_cols(g, n, m)),
        Requirements::Subset => unmatchable_message(unmatchable_rows(g, m, n), seq![]),
    }
}

/// Indices as integers.
pub open spec fn as_ints(s: Seq<usize>) -> Seq<int> {
    s.map_values(|x: usize| x as int)
}

/// Writes `#i, #j, ...`.
fn index_list_text(v: &Vec<usize>) -> (r: String)
    ensures
        r@ == index_list(as_ints(v@)),
{
    let mut s = String::new();
    let mut k: usize = 0;
    while k < v.len()
        invariant
            0 <= k <= v@.len(),
            s@ == index_list(as_ints(v@.subrange(0, k as int))),
        decreases v@.len() - k,
    {
        let ghost pre = as_ints(v@.subrange(0, k as int));
        let ghost post = as_ints(v@.subrange(0, k + 1));
        assert(post.drop_last() =~= pre);
        if k == 0 {
            s.append("#");
        } else {
            s.append(", #");
        }
        s.append(usize_text(v[k]).as_str());
        k += 1;
    }
    assert(v@.subrange(0, v@.len() as int) =~= v@);
    s
}

/// "element" or "elements", by count.
fn noun(count: usize) -> (r: &'static str)
    ensures
        r@ == if count == 1 {
            "element"@
        } else {
            "elements"@
        },
{
    if count == 1 {
        "element"
    } else {
        "elements"
    }
}

fn expected_clause_text(e: &Vec<usize>) -> (r: String)
    ensures
        r@ == expected_clause(as_ints(e@)),
{
    let mut s = text_of("the expected ");
    s.append(noun(e.len()));
    s.append(" ");
    s.append(index_list_text(e).as_str());
    proof {
        reveal_strlit("the expected ");
        reveal_strlit("the expected element ");
        reveal_strlit("the expected elements ");
        reveal_strlit("element");
        reveal_strlit("elements");
        reveal_strlit(" ");
        if e@.len() == 1 {
            assert("the expected "@ + "element"@ + " "@ =~= "the expected element "@);
        } else {
            assert("the expected "@ + "elements"@ + " "@ =~= "the expected elements "@);
        }
    }
    s
}

/// Writes the message for unmatchable elements `a` and predicates `e`.
fn unmatchable_text(a: &Vec<usize>, e: &Vec<usize>) -> (r: Option<String>)
    ensures
        match r {
            Some(t) => unmatchable_message(as_ints(a@), as_ints(e@)) == Some(t@),
            None => unmatchable_message(as_ints(a@), as_ints(e@)) is None,
        },
{
    if a.len() == 0 && e.len() == 0 {
        return None;
    }
    if a.len() == 0 {
        let mut s = text_of("which has no ");
        s.append(noun(e.len()));
        s.append(" matching ");
        s.append(expected_clause_text(e).as_str());
        return Some(s);
    }
    let mut s = if a.len() == 1 {
        text_of("whose element ")
    } else {
        text_of("whose elements ")
    };
    s.append(index_list_text(a).as_str());
    if a.len() == 1 {
        s.append(" does not match any expected elements");
    } else {
        s.append(" do not match any expected elements");
    }
    if e.len() > 0 {
        s.append(" and no elements match ");
        s.append(expected_clause_text(e).as_str());
    }
    Some(s)
}

impl MatchMatrix {
    fn row_is_unmatchable(&self, i: usize) -> (r: bool)
        requires
            self.wf(),
            i < self.rows(),
        ensures
            r == row_unmatchable(self.table(), self.expected_len as int, i as int),
    {
        assert(self.table()[i as int] == self.graph@[i as int]@);
        let mut j: usize = 0;
        while j < self.expected_len
            invariant
                self.wf(),
                i < self.rows(),
                self.table()[i as int] == self.graph@[i as int]@,
                0 <= j <= self.expected_len,
                forall|k: int| 0 <= k < j ==> !#[trigger] self.table()[i as int][k],
            decreases self.expected_len - j,
        {
            if self.graph[i][j] {
                return false;
            }
            j += 1;
        }
        true
    }

    fn col_is_unmatchable(&self, j: usize) -> (r: bool)
        requires
            self.wf(),
            j < self.expected_len,
        ensures
            r == col_unmatchable(self.table(), self.rows(), j as int),
    {
        let mut i: usize = 0;
        while i < self.graph.len()
            invariant
                self.wf(),
                j < self.expected_len,
                0 <= i <= self.rows(),
                forall|k: int| 0 <= k < i ==> !#[trigger] self.table()[k][j as int],
            decreases self.rows() - i,
        {
            assert(self.table()[i as int] == self.graph@[i as int]@);
            if self.graph[i][j] {
                return false;
            }
            i += 1;
        }
        true
    }

    fn unmatchable_row_indices(&self) -> (v: Vec<usize>)
        requires
            self.wf(),
        ensures
            as_ints(v@) == unmatchable_rows(self.table(), self.expected_len as int, self.rows()),
    {
        let mut v: Vec<usize> = Vec::new();
        let mut i: usize = 0;
        while i < self.graph.len()
            invariant
                self.wf(),
                0 <= i <= self.rows(),
                as_ints(v@) == unmatchable_rows(self.table(), self.expected_len as int, i as int),
            decreases self.rows() - i,
        {
            if self.row_is_unmatchable(i) {
                v.push(i);
                assert(as_ints(v@) =~= as_ints(v@.drop_last()).push(i as int));
            }
            i += 1;
        }
        v
    }

    fn unmatchable_col_indices(&self) -> (v: Vec<usize>)
        requires
            self.wf(),
        ensures
            as_ints(v@) == unmatchable_cols(self.table(), self.rows(), self.expected_len as int),
    {
        let mut v: Vec<usize> = Vec::new();
        let mut j: usize = 0;
        while j < self.expected_len
            invariant
                self.wf(),
                0 <= j <= self.expected_len,
                as_ints(v@) == unmatchable_cols(self.table(), self.rows(), j as int),
            decreases self.expected_len - j,
        {
            if self.col_is_unmatchable(j) {
                v.push(j);
                assert(as_ints(v@) =~= as_ints(v@.drop_last()).push(j as int));
            }
            j += 1;
        }
        v
    }

    /// Names the elements or predicates that nothing can pair, as `req` looks
    /// at them, or `None` when there are none.
    pub fn explain_unmatchable(&self, req: Requirements) -> (r: Option<String>)
        requires
            self.wf(),
        ensures
            match r {
                Some(t) => unmatchable_for(self.table(), self.rows(), self.expected_len as int, req)
                    == Some(t@),
                None => unmatchable_for(
                    self.table(),
                    self.rows(),
                    self.expected_len as int,
                    req,
                ) is None,
            },
    {
        let none: Vec<usize> = Vec::new();
        assert(as_ints(none@) =~= seq![]);
        match req {
            Requirements::PerfectMatch => {
                let a = self.unmatchable_row_indices();
                let e = self.unmatchable_col_indices();
                unmatchable_text(&a, &e)
            },
            Requirements::Superset => {
                let e = self.unmatchable_col_indices();
                unmatchable_text(&none, &e)
            },
            Requirements::Subset => {
                let a = self.unmatchable_row_indices();
                unmatchable_text(&a, &none)
            },
        }
    }
}

/// The line for element `i` paired with predicate `j`.
pub open spec fn matched_line(shown: Seq<Seq<char>>, descs: Seq<Seq<char>>, i: int, j: int) -> Seq<
    char,
> {
    "\n  Actual element "@ + shown[i] + " at index "@ + decimal(i as nat)
        + " matched expected element `"@ + descs[j] + "` at index "@ + decimal(j as nat) + "."@
}

/// The line for element `i` left unpaired.
pub open spec fn lone_actual_line(shown: Seq<Seq<char>>, i: int) -> Seq<char> {
    "\n  Actual element "@ + shown[i] + " at index "@ + decimal(i as nat)
        + " did not match any remaining expected element."@
}

/// The line for predicate `j` left unpaired.
pub open spec fn lone_expected_line(descs: Seq<Seq<char>>, j: int) -> Seq<char> {
    "\n  Expected element `"@ + descs[j] + "` at index "@ + decimal(j as nat)
        + " did not match any remaining actual element."@
}

/// Lines for the paired elements below `k`, ascending.
pub open spec fn matched_lines(
    owner: Seq<Option<usize>>,
    shown: Seq<Seq<char>>,
    descs: Seq<Seq<char>>,
    k: int,
) -> Seq<char>
    decreases k,
{
    if k <= 0 {
        seq![]
    } else if covers(owner, k - 1) {
        matched_lines(owner, shown, descs, k - 1) + matched_line(
            shown,
            descs,
            k - 1,
            partner_of(owner, k - 1),
        )
    } else {
        matched_lines(owner, shown, descs, k - 1)
    }
}

/// Lines for the unpaired elements below `k`, ascending.
pub open spec fn lone_actual_lines(owner: Seq<Option<usize>>, shown: Seq<Seq<char>>, k: int) -> Seq<
    char,
>
    decreases k,
{
    if k <= 0 {
        seq![]
    } else if !covers(owner, k - 1) {
        lone_actual_lines(owner, shown, k - 1) + lone_actual_line(shown, k - 1)
    } else {
        lone_actual_lines(owner, shown, k - 1)
    }
}

/// Lines for the unpaired predicates below `k`, ascending.
pub open spec fn lone_expected_lines(owner: Seq<Option<usize>>, descs: Seq<Seq<char>>, k: int) -> Seq<
    char,
>
    decreases k,
{
    if k <= 0 {
        seq![]
    } else if owner[k - 1] is None {
        lone_expected_lines(owner, descs, k - 1) + lone_expected_line(descs, k - 1)
    } else {
        lone_expected_lines(owner, descs, k - 1)
    }
}

/// The report of pairing `owner` (predicate to element) of `n` elements and
/// `m` predicates, the elements written as `shown` and the predicates as
/// `descs`.
pub open spec fn best_match_message(
    req: Requirements,
    owner: Seq<Option<usize>>,
    n: int,
    m: int,
    shown: Seq<Seq<char>>,
    descs: Seq<Seq<char>>,
) -> Seq<char> {
    "which does not have a "@ + req_name(req)
        + " match with the expected elements. The best match found was:"@ + matched_lines(
        owner,
        shown,
        descs,
        n,
    ) + lone_actual_lines(owner, shown, n) + lone_expected_lines(owner, descs, m)
}

/// The views of a list of strings.
pub open spec fn texts(v: Seq<String>) -> Seq<Seq<char>> {
    v.map_values(|s: String| s@)
}

fn req_text(req: Requirements) -> (r: &'static str)
    ensures
        r@ == req_name(req),
{
    match req {
        Requirements::PerfectMatch => "perfect",
        Requirements::Superset => "superset",
        Requirements::Subset => "subset",
    }
}

/// For each element, the predicate it is paired with in `owner`.
fn assignment_of(owner: &Vec<Option<usize>>, n: usize, g: Ghost<Seq<Seq<bool>>>) -> (a: Vec<
    Option<usize>,
>)
    requires
        is_matching(g@, false, n as int, owner@),
    ensures
        a@.len() == n,
        forall|i: int|
            0 <= i < n ==> ((#[trigger] a@[i] is Some) <==> covers(owner@, i)) && (a@[i] is Some
                ==> a@[i]->0 == partner_of(owner@, i) && a@[i]->0 < owner@.len()),
{
    let mut a: Vec<Option<usize>> = Vec::new();
    while a.len() < n
        invariant
            a@.len() <= n,
            forall|i: int| 0 <= i < a@.len() ==> a@[i] is None,
        decreases n - a@.len(),
    {
        a.push(None);
    }
    let mut j: usize = 0;
    while j < owner.len()
        invariant
            is_matching(g@, false, n as int, owner@),
            a@.len() == n,
            0 <= j <= owner@.len(),
            forall|i: int|
                0 <= i < n ==> (#[trigger] a@[i] is Some ==> a@[i]->0 < j && owner@[a@[i]->0 as int]
                    == Some(i as usize)) && (a@[i] is None ==> forall|j2: int|
                    0 <= j2 < j ==> owner@[j2] != Some(i as usize)),
        decreases owner@.len() - j,
    {
        if let Some(i) = owner[j] {
            a.set(i, Some(j));
        }
        j += 1;
    }
    proof {
        assert forall|i: int| 0 <= i < n implies ((#[trigger] a@[i] is Some) <==> covers(owner@, i))
            && (a@[i] is Some ==> a@[i]->0 == partner_of(owner@, i) && a@[i]->0
            < owner@.len()) by {
            if a@[i] is Some {
                let j = a@[i]->0 as int;
                assert(owner@[j] == Some(i as usize));
                assert(covers(owner@, i));
                let w = partner_of(owner@, i);
                if w != j {
                    assert(owner@[w] != owner@[j]);
                }
            }
        }
    }
    a
}

/// Writes the report of pairing `owner`.
pub(crate) fn best_match_text(
    req: Requirements,
    owner: &Vec<Option<usize>>,
    n: usize,
    g: Ghost<Seq<Seq<bool>>>,
    shown: &Vec<String>,
    descs: &Vec<String>,
) -> (r: String)
    requires
        is_matching(g@, false, n as int, owner@),
        shown@.len() == n,
        descs@.len() == owner@.len(),
    ensures
        r@ == best_match_message(req, owner@, n as int, owner@.len() as int, texts(shown@), texts(descs@)),
{
    let ghost sh = texts(shown@);
    let ghost ds = texts(descs@);
    let a = assignment_of(owner, n, g);
    let mut s = text_of("which does not have a ");
    s.append(req_text(req));
    s.append(" match with the expected elements. The best match found was:");
    let ghost head = s@;
    let mut i: usize = 0;
    while i < n
        invariant
            0 <= i <= n,
            a@.len() == n,
            shown@.len() == n,
            descs@.len() == owner@.len(),
            sh == texts(shown@),
            ds == texts(descs@),
            forall|k: int|
                0 <= k < n ==> ((#[trigger] a@[k] is Some) <==> covers(owner@, k)) && (a@[k] is Some
                    ==> a@[k]->0 == partner_of(owner@, k) && a@[k]->0 < owner@.len()),
            s@ == head + matched_lines(owner@, sh, ds, i as int),
        decreases n - i,
    {
        if let Some(j) = a[i] {
            s.append("\n  Actual element ");
            s.append(shown[i].as_str());
            s.append(" at index ");
            s.append(usize_text(i).as_str());
            s.append(" matched expected element `");
            s.append(descs[j].as_str());
            s.append("` at index ");
            s.append(usize_text(j).as_str());
            s.append(".");
            assert(s@ =~= head + matched_lines(owner@, sh, ds, i as int) + matched_line(sh, ds, i as int, j as int));
        }
        i += 1;
    }
    let ghost head2 = s@;
    let mut i: usize = 0;
    while i < n
        invariant
            0 <= i <= n,
            a@.len() == n,
            shown@.len() == n,
            sh == texts(shown@),
            forall|k: int| 0 <= k < n ==> ((#[trigger] a@[k] is Some) <==> covers(owner@, k)),
            s@ == head2 + lone_actual_lines(owner@, sh, i as int),
        decreases n - i,
    {
        if a[i].is_none() {
            s.append("\n  Actual element ");
            s.append(shown[i].as_str());
            s.append(" at index ");
            s.append(usize_text(i).as_str());
            s.append(" did not match any remaining expected element.");
            assert(s@ =~= head2 + lone_actual_lines(owner@, sh, i as int) + lone_actual_line(sh, i as int));
        }
        i += 1;
    }
    let ghost head3 = s@;
    let mut j: usize = 0;
    while j < owner.len()
        invariant
            0 <= j <= owner@.len(),
            descs@.len() == owner@.len(),
            ds == texts(descs@),
            s@ == head3 + lone_expected_lines(owner@, ds, j as int),
        decreases owner@.len() - j,
    {
        if owner[j].is_none() {
            s.append("\n  Expected element `");
            s.append(descs[j].as_str());
            s.append("` at index ");
            s.append(usize_text(j).as_str());
            s.append(" did not match any remaining actual element.");
            assert(s@ =~= head3 + lone_expected_lines(owner@, ds, j as int) + lone_expected_line(ds, j as int));
        }
        j += 1;
    }
    assert(s@ =~= head + matched_lines(owner@, sh, ds, n as int) + lone_actual_lines(owner@, sh, n as int) + lone_expected_lines(owner@, ds, owner@.len() as int));
    s
}

} // verus!
