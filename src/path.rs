//! Dotted paths into JSON values: `user.name`, `items.0.id`. A backslash
//! takes the next character literally, so `a\.b` is the single field `a.b`.
use crate::text::{decimal, usize_text};
use vstd::prelude::*;

verus! {

/// One step of a path: an object field or an array index.
#[derive(Clone, Debug, PartialEq, Eq, PartialOrd, Ord)]
pub enum PathSegment {
    Field(String),
    Index(usize),
}

/// What a segment denotes.
pub enum SegmentView {
    Field(Seq<char>),
    Index(nat),
}

impl View for PathSegment {
    type V = SegmentView;

    open spec fn view(&self) -> SegmentView {
        match self {
            PathSegment::Field(f) => SegmentView::Field(f@),
            PathSegment::Index(i) => SegmentView::Index(*i as nat),
        }
    }
}

/// A path as written and as segments.
#[derive(Clone, Debug)]
pub struct ParsedPath {
    pub raw: String,
    pub segments: Vec<PathSegment>,
}

/// The paths that parsed, in input order, and a message for each that did not.
pub struct ParsedPaths {
    pub parsed: Vec<ParsedPath>,
    pub errors: Vec<String>,
}

/// Why a path does not parse.
#[derive(Clone, Copy, Debug, PartialEq, Eq, Structural)]
pub enum PathFault {
    EmptySegment,
    TrailingEscape,
}

/// How `Debug` writes a string: quoted, with special characters escaped.
pub uninterp spec fn debug_str(s: Seq<char>) -> Seq<char>;

/// Relies on `str`'s `Debug` formatting (through `format!`).
#[verifier::external_body]
fn quoted(s: &str) -> (r: String)
    ensures
        r@ == debug_str(s@),
{
    format!("{s:?}")
}

/// The value of a decimal digit character.
pub open spec fn digit_value(c: char) -> int {
    (c as u32) as int - ('0' as u32) as int
}

pub open spec fn all_digits(t: Seq<char>) -> bool {
    forall|i: int| 0 <= i < t.len() ==> '0' <= #[trigger] t[i] <= '9'
}

/// The number that decimal digits `t` write.
pub open spec fn digits_value(t: Seq<char>) -> int
    decreases t.len(),
{
    if t.len() == 0 {
        0
    } else {
        digits_value(t.drop_last()) * 10 + digit_value(t.last())
    }
}

/// The index that `t` writes as `usize`'s `FromStr` reads it: an optional
/// `+`, then at least one decimal digit, the value within range.
pub open spec fn index_of(t: Seq<char>) -> Option<usize> {
    let d = if t.len() > 0 && t[0] == '+' {
        t.subrange(1, t.len() as int)
    } else {
        t
    };
    if d.len() > 0 && all_digits(d) && digits_value(d) <= usize::MAX {
        Some(digits_value(d) as usize)
    } else {
        None
    }
}

/// Relies on `str::parse::<usize>`, which accepts exactly what `index_of`
/// describes.
#[verifier::external_body]
fn parse_index(s: &str) -> (r: Option<usize>)
    ensures
        r == index_of(s@),
{
    s.parse::<usize>().ok()
}

/// Relies on `String::push`: appends one character.
#[verifier::external_body]
fn push_char(s: &mut String, c: char)
    ensures
        final(s)@ == old(s)@.push(c),
{
    s.push(c)
}

/// A segment's text read as an index when it is one, else as a field.
pub open spec fn segment_of(t: Seq<char>) -> SegmentView {
    match index_of(t) {
        Some(i) => SegmentView::Index(i as nat),
        None => SegmentView::Field(t),
    }
}

/// Reads `s` from position `i`, with the segments `done` already read and the
/// unfinished segment `cur`: the segment texts with escapes resolved, or the
/// first fault met.
pub open spec fn split_path(s: Seq<char>, i: int, done: Seq<Seq<char>>, cur: Seq<char>) -> Result<
    Seq<Seq<char>>,
    PathFault,
>
    decreases s.len() - i,
{
    if i >= s.len() {
        if cur.len() == 0 {
            Err(PathFault::EmptySegment)
        } else {
            Ok(done.push(cur))
        }
    } else if s[i] == '\\' {
        if i + 1 < s.len() {
            split_path(s, i + 2, done, cur.push(s[i + 1]))
        } else {
            Err(PathFault::TrailingEscape)
        }
    } else if s[i] == '.' {
        if cur.len() == 0 {
            Err(PathFault::EmptySegment)
        } else {
            split_path(s, i + 1, done.push(cur), seq![])
        }
    } else {
        split_path(s, i + 1, done, cur.push(s[i]))
    }
}

/// The message for `path` failing with `f`.
pub open spec fn fault_message(path: Seq<char>, f: PathFault) -> Seq<char> {
    "Invalid path "@ + debug_str(path) + match f {
        PathFault::EmptySegment => ": empty segment"@,
        PathFault::TrailingEscape => ": trailing escape"@,
    }
}

pub open spec fn segment_views(s: Seq<PathSegment>) -> Seq<SegmentView> {
    s.map_values(|x: PathSegment| x@)
}

/// Whether `r` is what parsing `path` gives.
pub open spec fn parses_to(path: Seq<char>, r: Result<ParsedPath, String>) -> bool {
    match (split_path(path, 0, seq![], seq![]), r) {
        (Ok(texts), Ok(p)) => p.raw@ == path && segment_views(p.segments@) == texts.map_values(
            |t: Seq<char>| segment_of(t),
        ),
        (Err(f), Err(e)) => e@ == fault_message(path, f),
        _ => false,
    }
}

fn fault_text(path: &str, f: PathFault) -> (r: String)
    ensures
        r@ == fault_message(path@, f),
{
    let mut s = crate::text::text_of("Invalid path ");
    s.append(quoted(path).as_str());
    match f {
        PathFault::EmptySegment => s.append(": empty segment"),
        PathFault::TrailingEscape => s.append(": trailing escape"),
    }
    s
}

/// Ends the segment `current`: adds it to `segments`, as an index when it
/// reads as one, and empties it; an empty `current` is an error.
fn push_segment(path: &str, segments: &mut Vec<PathSegment>, current: &mut String) -> (r: Result<
    (),
    String,
>)
    ensures
        old(current)@.len() == 0 ==> r is Err && r->Err_0@ == fault_message(
            path@,
            PathFault::EmptySegment,
        ) && final(segments)@ == old(segments)@ && final(current)@ == old(current)@,
        old(current)@.len() > 0 ==> r is Ok && segment_views(final(segments)@) == segment_views(
            old(segments)@,
        ).push(segment_of(old(current)@)) && final(current)@.len() == 0,
{
    if current.as_str().is_empty() {
        return Err(fault_text(path, PathFault::EmptySegment));
    }
    let ghost before = segments@;
    match parse_index(current.as_str()) {
        Some(idx) => segments.push(PathSegment::Index(idx)),
        None => segments.push(PathSegment::Field(current.clone())),
    }
    assert(segment_views(segments@) =~= segment_views(before).push(segment_of(current@)));
    *current = String::new();
    Ok(())
}

/// Parses one path.
fn parse_path(path: &str) -> (r: Result<ParsedPath, String>)
    ensures
        parses_to(path@, r),
{
    let ghost s = path@;
    let ghost mut done: Seq<Seq<char>> = seq![];
    let mut segments: Vec<PathSegment> = Vec::new();
    let mut current = String::new();
    let len = path.unicode_len();
    let mut i: usize = 0;
    while i < len
        invariant
            s == path@,
            len == s.len(),
            0 <= i <= len,
            split_path(s, 0, seq![], seq![]) == split_path(s, i as int, done, current@),
            segment_views(segments@) == done.map_values(|t: Seq<char>| segment_of(t)),
        decreases len - i,
    {
        let ch = path.get_char(i);
        if ch == '\\' {
            if i + 1 < len {
                let next = path.get_char(i + 1);
                assert(split_path(s, i as int, done, current@) == split_path(
                    s,
                    i + 2,
                    done,
                    current@.push(next),
                ));
                push_char(&mut current, next);
                i += 2;
            } else {
                return Err(fault_text(path, PathFault::TrailingEscape));
            }
        } else if ch == '.' {
            let ghost cur = current@;
            match push_segment(path, &mut segments, &mut current) {
                Ok(()) => {},
                Err(e) => {
                    return Err(e);
                },
            }
            assert(split_path(s, i as int, done, cur) == split_path(
                s,
                i + 1,
                done.push(cur),
                seq![],
            ));
            assert(current@ =~= seq![]);
            proof {
                done = done.push(cur);
                assert(segment_views(segments@) =~= done.map_values(|t: Seq<char>| segment_of(t)));
            }
            i += 1;
        } else {
            assert(split_path(s, i as int, done, current@) == split_path(
                s,
                i + 1,
                done,
                current@.push(ch),
            ));
            push_char(&mut current, ch);
            i += 1;
        }
    }
    let ghost cur = current@;
    match push_segment(path, &mut segments, &mut current) {
        Ok(()) => {},
        Err(e) => {
            return Err(e);
        },
    }
    proof {
        assert(segment_views(segments@) =~= done.push(cur).map_values(|t: Seq<char>| segment_of(t)));
    }
    let raw = crate::text::text_of(path);
    Ok(ParsedPath { raw, segments })
}

/// The successful outcomes, in order.
pub open spec fn oks(res: Seq<Result<ParsedPath, String>>) -> Seq<ParsedPath>
    decreases res.len(),
{
    if res.len() == 0 {
        seq![]
    } else {
        oks(res.drop_last()) + match res.last() {
            Ok(p) => seq![p],
            Err(_) => seq![],
        }
    }
}

/// The error messages, in order.
pub open spec fn errs(res: Seq<Result<ParsedPath, String>>) -> Seq<String>
    decreases res.len(),
{
    if res.len() == 0 {
        seq![]
    } else {
        errs(res.drop_last()) + match res.last() {
            Ok(_) => seq![],
            Err(e) => seq![e],
        }
    }
}

/// Whether `r` holds the outcomes `res` of parsing each path, split into the
/// parsed paths and the error messages.
pub open spec fn splits_outcomes(paths: Seq<&str>, res: Seq<Result<ParsedPath, String>>, r: ParsedPaths) -> bool {
    &&& res.len() == paths.len()
    &&& forall|i: int| 0 <= i < paths.len() ==> parses_to(paths[i]@, #[trigger] res[i])
    &&& r.parsed@ == oks(res)
    &&& r.errors@ == errs(res)
}

/// Parses each path, keeping the parsed ones and the error messages apart,
/// both in input order.
pub fn parse_expected_paths(paths: &[&str]) -> (r: ParsedPaths)
    ensures
        exists|res: Seq<Result<ParsedPath, String>>| #[trigger] splits_outcomes(paths@, res, r),
{
    let ghost mut res: Seq<Result<ParsedPath, String>> = seq![];
    let mut parsed: Vec<ParsedPath> = Vec::new();
    let mut errors: Vec<String> = Vec::new();
    let mut i: usize = 0;
    while i < paths.len()
        invariant
            0 <= i <= paths@.len(),
            res.len() == i,
            forall|k: int| 0 <= k < i ==> parses_to(paths@[k]@, #[trigger] res[k]),
            parsed@ == oks(res),
            errors@ == errs(res),
        decreases paths@.len() - i,
    {
        let one = parse_path(paths[i]);
        let ghost prev = res;
        proof {
            res = res.push(one);
            assert(res.drop_last() =~= prev);
        }
        match one {
            Ok(p) => {
                parsed.push(p);
                assert(parsed@ =~= oks(prev) + seq![p]);
                assert(errors@ =~= errs(prev) + seq![]);
            },
            Err(e) => {
                errors.push(e);
                assert(errors@ =~= errs(prev) + seq![e]);
                assert(parsed@ =~= oks(prev) + seq![]);
            },
        }
        i += 1;
    }
    let r = ParsedPaths { parsed, errors };
    assert(splits_outcomes(paths@, res, r));
    r
}

/// How one character of a field is written in a path.
pub open spec fn escape_char(c: char) -> Seq<char> {
    if c == '.' {
        seq!['\\', '.']
    } else if c == '\\' {
        seq!['\\', '\\']
    } else {
        seq![c]
    }
}

/// A field written with its dots and backslashes escaped.
pub open spec fn escaped(f: Seq<char>) -> Seq<char>
    decreases f.len(),
{
    if f.len() == 0 {
        seq![]
    } else {
        escaped(f.drop_last()) + escape_char(f.last())
    }
}

/// How one segment is written.
pub open spec fn segment_text(v: SegmentView) -> Seq<char> {
    match v {
        SegmentView::Field(f) => escaped(f),
        SegmentView::Index(i) => decimal(i),
    }
}

/// Segments written one after another, separated by dots.
pub open spec fn formatted(segs: Seq<SegmentView>) -> Seq<char>
    decreases segs.len(),
{
    if segs.len() == 0 {
        seq![]
    } else if segs.len() == 1 {
        segment_text(segs[0])
    } else {
        formatted(segs.drop_last()) + seq!['.'] + segment_text(segs.last())
    }
}

/// Writes a field, escaping dots and backslashes.
fn escape_field(field: &str) -> (r: String)
    ensures
        r@ == escaped(field@),
{
    let mut out = String::new();
    let len = field.unicode_len();
    let mut i: usize = 0;
    while i < len
        invariant
            len == field@.len(),
            0 <= i <= len,
            out@ == escaped(field@.subrange(0, i as int)),
        decreases len - i,
    {
        let ch = field.get_char(i);
        assert(field@.subrange(0, i + 1).drop_last() =~= field@.subrange(0, i as int));
        if ch == '.' {
            push_char(&mut out, '\\');
            push_char(&mut out, '.');
        } else if ch == '\\' {
            push_char(&mut out, '\\');
            push_char(&mut out, '\\');
        } else {
            push_char(&mut out, ch);
        }
        assert(out@ =~= escaped(field@.subrange(0, i + 1)));
        i += 1;
    }
    assert(field@.subrange(0, len as int) =~= field@);
    out
}

/// Writes a path so that parsing it gives the same segments back.
pub fn format_path(path: &[PathSegment]) -> (r: String)
    ensures
        r@ == formatted(segment_views(path@)),
{
    let mut out = String::new();
    let mut i: usize = 0;
    while i < path.len()
        invariant
            0 <= i <= path@.len(),
            out@ == formatted(segment_views(path@.subrange(0, i as int))),
        decreases path@.len() - i,
    {
        let ghost pre = segment_views(path@.subrange(0, i as int));
        let ghost post = segment_views(path@.subrange(0, i + 1));
        assert(post.drop_last() =~= pre);
        assert(post.last() == path@[i as int]@);
        if i > 0 {
            push_char(&mut out, '.');
        }
        let text = match &path[i] {
            PathSegment::Field(f) => escape_field(f.as_str()),
            PathSegment::Index(idx) => usize_text(*idx),
        };
        out.append(text.as_str());
        assert(out@ =~= formatted(post));
        i += 1;
    }
    assert(path@.subrange(0, path@.len() as int) =~= path@);
    out
}

/// The paths as sequences of segment views.
pub open spec fn path_views(ps: Seq<Vec<PathSegment>>) -> Seq<Seq<SegmentView>> {
    ps.map_values(|p: Vec<PathSegment>| segment_views(p@))
}

/// The positions below `k` of the paths of `e` that are not in `a`, ascending.
pub open spec fn missing_from(e: Seq<Seq<SegmentView>>, a: Seq<Seq<SegmentView>>, k: int) -> Seq<int>
    decreases k,
{
    if k <= 0 {
        seq![]
    } else if a.contains(e[k - 1]) {
        missing_from(e, a, k - 1)
    } else {
        missing_from(e, a, k - 1).push(k - 1)
    }
}

fn same_segment(x: &PathSegment, y: &PathSegment) -> (r: bool)
    ensures
        r == (x@ == y@),
{
    match (x, y) {
        (PathSegment::Field(f), PathSegment::Field(g)) => f.eq(g),
        (PathSegment::Index(i), PathSegment::Index(j)) => i == j,
        _ => false,
    }
}

/// Whether two paths have the same segments.
pub fn same_path(a: &Vec<PathSegment>, b: &Vec<PathSegment>) -> (r: bool)
    ensures
        r == (segment_views(a@) == segment_views(b@)),
{
    if a.len() != b.len() {
        assert(segment_views(a@).len() != segment_views(b@).len());
        return false;
    }
    let mut i: usize = 0;
    while i < a.len()
        invariant
            a@.len() == b@.len(),
            0 <= i <= a@.len(),
            forall|k: int| 0 <= k < i ==> (#[trigger] a@[k])@ == b@[k]@,
        decreases a@.len() - i,
    {
        if !same_segment(&a[i], &b[i]) {
            assert(segment_views(a@)[i as int] != segment_views(b@)[i as int]);
            return false;
        }
        i += 1;
    }
    assert(segment_views(a@) =~= segment_views(b@));
    true
}

/// Whether `ps` holds a path with the same segments as `p`.
pub fn contains_path(ps: &Vec<Vec<PathSegment>>, p: &Vec<PathSegment>) -> (r: bool)
    ensures
        r == path_views(ps@).contains(segment_views(p@)),
{
    let mut i: usize = 0;
    while i < ps.len()
        invariant
            0 <= i <= ps@.len(),
            forall|k: int| 0 <= k < i ==> segment_views((#[trigger] ps@[k])@) != segment_views(p@),
        decreases ps@.len() - i,
    {
        if same_path(&ps[i], p) {
            assert(path_views(ps@)[i as int] == segment_views(p@));
            return true;
        }
        i += 1;
    }
    assert forall|k: int| 0 <= k < path_views(ps@).len() implies path_views(ps@)[k] != segment_views(
        p@,
    ) by {
        assert(path_views(ps@)[k] == segment_views(ps@[k]@));
    }
    false
}

/// The positions of the paths of `expected` that `actual` lacks, ascending.
pub fn missing_paths(expected: &Vec<Vec<PathSegment>>, actual: &Vec<Vec<PathSegment>>) -> (r: Vec<
    usize,
>)
    ensures
        r@.map_values(|x: usize| x as int) == missing_from(
            path_views(expected@),
            path_views(actual@),
            expected@.len() as int,
        ),
{
    let mut r: Vec<usize> = Vec::new();
    let mut i: usize = 0;
    while i < expected.len()
        invariant
            0 <= i <= expected@.len(),
            r@.map_values(|x: usize| x as int) == missing_from(
                path_views(expected@),
                path_views(actual@),
                i as int,
            ),
        decreases expected@.len() - i,
    {
        assert(path_views(expected@)[i as int] == segment_views(expected@[i as int]@));
        if !contains_path(actual, &expected[i]) {
            r.push(i);
            assert(r@.map_values(|x: usize| x as int) =~= r@.drop_last().map_values(
                |x: usize| x as int,
            ).push(i as int));
        }
        i += 1;
    }
    r
}

/// Whether every path of `expected` is among `actual`.
pub fn has_all_paths(expected: &Vec<Vec<PathSegment>>, actual: &Vec<Vec<PathSegment>>) -> (r: bool)
    ensures
        r == (forall|i: int|
            0 <= i < expected@.len() ==> path_views(actual@).contains(
                #[trigger] path_views(expected@)[i],
            )),
{
    let missing = missing_paths(expected, actual);
    proof {
        lemma_missing_members(path_views(expected@), path_views(actual@), expected@.len() as int);
    }
    if missing.len() == 0 {
        true
    } else {
        let ghost ms = missing@.map_values(|x: usize| x as int);
        assert(ms[0] == missing@[0] as int);
        assert(ms.contains(ms[0]));
        false
    }
}

/// Whether `expected` and `actual` hold the same paths, each possibly more
/// than once.
pub fn has_exactly_paths(expected: &Vec<Vec<PathSegment>>, actual: &Vec<Vec<PathSegment>>) -> (r: bool)
    ensures
        r == (path_views(expected@).to_set() == path_views(actual@).to_set()),
{
    let forward = has_all_paths(expected, actual);
    let backward = has_all_paths(actual, expected);
    let ghost e = path_views(expected@);
    let ghost a = path_views(actual@);
    if forward && backward {
        assert(e.to_set() =~= a.to_set()) by {
            assert forall|p: Seq<SegmentView>| e.to_set().contains(p) implies a.to_set().contains(p) by {
                let k = choose|k: int| 0 <= k < e.len() && e[k] == p;
                assert(a.contains(e[k]));
            }
            assert forall|p: Seq<SegmentView>| a.to_set().contains(p) implies e.to_set().contains(p) by {
                let k = choose|k: int| 0 <= k < a.len() && a[k] == p;
                assert(e.contains(a[k]));
            }
        }
        true
    } else {
        proof {
            if !forward {
                let k = choose|k: int| 0 <= k < expected@.len() && !a.contains(#[trigger] e[k]);
                assert(e.to_set().contains(e[k]));
                assert(!a.to_set().contains(e[k]));
            } else {
                let k = choose|k: int| 0 <= k < actual@.len() && !e.contains(#[trigger] a[k]);
                assert(a.to_set().contains(a[k]));
                assert(!e.to_set().contains(a[k]));
            }
        }
        false
    }
}

proof fn lemma_missing_members(e: Seq<Seq<SegmentView>>, a: Seq<Seq<SegmentView>>, k: int)
    requires
        k <= e.len(),
    ensures
        missing_from(e, a, k).len() == 0 <==> forall|i: int| 0 <= i < k ==> a.contains(#[trigger] e[i]),
        forall|x: int| #[trigger] missing_from(e, a, k).contains(x) ==> 0 <= x < k && !a.contains(e[x]),
    decreases k,
{
    if k > 0 {
        lemma_missing_members(e, a, k - 1);
        let prev = missing_from(e, a, k - 1);
        assert forall|x: int| #[trigger] missing_from(e, a, k).contains(x) implies 0 <= x < k
            && !a.contains(e[x]) by {
            if !a.contains(e[k - 1]) {
                let cur = prev.push(k - 1);
                let i = choose|i: int| 0 <= i < cur.len() && #[trigger] cur[i] == x;
                if i < prev.len() {
                    assert(prev[i] == x);
                    assert(prev.contains(x));
                }
            } else {
                assert(prev.contains(x));
            }
        }
        if !a.contains(e[k - 1]) {
            assert(missing_from(e, a, k).len() > 0);
        }
    }
}
} // verus!
