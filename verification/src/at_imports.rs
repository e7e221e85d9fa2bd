//! `@path` references in context files, replaced by what the files hold.
//!
//! An `@` counts where it starts a line or follows a blank. A relative path is seen from the
//! directory of the file that refers to it, `~/` from the home directory. Fenced code and code spans
//! stay as they are; references nest only so deep; a file is taken once, so that a cycle keeps its
//! reference; and so does a file that cannot be read.
use crate::files;
use crate::files::{FsCache, FsView};
use crate::js;
use crate::paths;
use crate::paths::{parent, resolve};
use crate::text;
use crate::text::{contains_text, is_at, same_text, slice_string, split_text, to_chars, Space};
use vstd::prelude::*;

verus! {

/// How deep references nest.
pub const MAX_AT_IMPORT_DEPTH: usize = 5;

// ------------------------------------------------------------------ code

/// The fence that a line opens or closes: its character and its length.
pub open spec fn fence_of(line: Seq<char>) -> Option<(char, int)> {
    let a = blanks(line, 0);
    if a < line.len() && (line[a] == '`' || line[a] == '~') {
        let n = run_end(line, line[a], a) - a;
        if n >= 3 {
            Some((line[a], n))
        } else {
            None
        }
    } else {
        None
    }
}

/// The first index from `i` on where no space and no tab stands.
pub open spec fn blanks(s: Seq<char>, i: int) -> int
    decreases s.len() - i,
{
    if 0 <= i < s.len() && (s[i] == ' ' || s[i] == '\t') {
        blanks(s, i + 1)
    } else {
        i
    }
}

/// The first index from `i` on where another character than `c` stands.
pub open spec fn run_end(s: Seq<char>, c: char, i: int) -> int
    decreases s.len() - i,
{
    if 0 <= i < s.len() && s[i] == c {
        run_end(s, c, i + 1)
    } else {
        i
    }
}

fn find_run_end(v: &Vec<char>, c: char, from: usize) -> (r: usize)
    requires
        from <= v@.len(),
    ensures
        r == run_end(v@, c, from as int),
        from <= r <= v@.len(),
{
    let mut i: usize = from;
    while i < v.len() && v[i] == c
        invariant
            from <= i <= v@.len(),
            run_end(v@, c, from as int) == run_end(v@, c, i as int),
        decreases v@.len() - i,
    {
        i += 1;
    }
    i
}

/// A fence: its character and its length.
#[derive(Clone, Copy, Debug, PartialEq, Eq, Structural)]
pub struct Fence {
    pub mark: char,
    pub length: usize,
}

/// A fence by what it stands for.
pub open spec fn fence_view(f: Option<Fence>) -> Option<(char, int)> {
    match f {
        Some(f) => Some((f.mark, f.length as int)),
        None => None,
    }
}

fn match_fence(line: &str) -> (r: Option<Fence>)
    ensures
        fence_view(r) == fence_of(line@),
{
    let v = to_chars(line);
    let mut a: usize = 0;
    while a < v.len() && (v[a] == ' ' || v[a] == '\t')
        invariant
            a <= v@.len(),
            blanks(v@, 0) == blanks(v@, a as int),
        decreases v@.len() - a,
    {
        a += 1;
    }
    if a >= v.len() {
        return None;
    }
    let mark = v[a];
    if mark != '`' && mark != '~' {
        return None;
    }
    let end: usize = find_run_end(&v, mark, a);
    if end - a >= 3 {
        Some(Fence { mark, length: end - a })
    } else {
        None
    }
}

/// A stretch of lines: code in a fence, or text.
#[derive(Debug, PartialEq)]
pub struct Segment {
    pub is_code: bool,
    pub text: String,
}

/// What a [`Segment`] stands for.
#[verifier::ext_equal]
pub struct SegmentView {
    pub is_code: bool,
    pub text: Seq<char>,
}

impl View for Segment {
    type V = SegmentView;

    open spec fn view(&self) -> SegmentView {
        SegmentView { is_code: self.is_code, text: self.text@ }
    }
}

/// How far a text is cut into segments.
#[verifier::ext_equal]
pub struct CutView {
    pub segments: Seq<SegmentView>,
    pub buffer: Seq<char>,
    pub in_code: bool,
    pub fence: Option<(char, int)>,
}

/// The segments with the buffer, where that holds anything.
pub open spec fn flushed(segments: Seq<SegmentView>, is_code: bool, buffer: Seq<char>) -> Seq<
    SegmentView,
> {
    if buffer.len() > 0 {
        segments.push(SegmentView { is_code, text: buffer })
    } else {
        segments
    }
}

/// Whether a fence closes the open one: it has its character and is no shorter.
pub open spec fn closes(found: Option<(char, int)>, open: Option<(char, int)>) -> bool {
    found is Some && open is Some && found.unwrap().0 == open.unwrap().0 && found.unwrap().1
        >= open.unwrap().1
}

/// The cut after one more line.
pub open spec fn cut_line(cut: CutView, line: Seq<char>, is_last: bool) -> CutView {
    let told = if is_last { line } else { line + seq!['\n'] };
    let found = fence_of(line);
    let next = if found is Some && !cut.in_code {
        CutView {
            segments: flushed(cut.segments, false, cut.buffer),
            buffer: told,
            in_code: true,
            fence: found,
        }
    } else if cut.in_code && closes(found, cut.fence) {
        CutView {
            segments: cut.segments.push(SegmentView { is_code: true, text: cut.buffer + told }),
            buffer: Seq::empty(),
            in_code: false,
            fence: None,
        }
    } else {
        CutView { buffer: cut.buffer + told, ..cut }
    };
    if is_last {
        CutView {
            segments: flushed(next.segments, next.in_code, next.buffer),
            buffer: Seq::empty(),
            ..next
        }
    } else {
        next
    }
}

/// The cut after the lines from `i` on.
pub open spec fn cut_lines(lines: Seq<Seq<char>>, i: int, cut: CutView) -> CutView
    decreases lines.len() - i,
{
    if i < 0 || i >= lines.len() {
        cut
    } else {
        cut_lines(lines, i + 1, cut_line(cut, lines[i], i == lines.len() - 1))
    }
}

/// Nothing is cut yet.
pub open spec fn uncut() -> CutView {
    CutView { segments: Seq::empty(), buffer: Seq::empty(), in_code: false, fence: None }
}

/// The segments of a text.
pub open spec fn segments_of(content: Seq<char>) -> Seq<SegmentView> {
    cut_lines(text::split(content, '\n'), 0, uncut()).segments
}

/// The segments of a text: stretches of text and of fenced code, each with its line ends.
pub fn split_markdown_segments(content: &str) -> (r: Vec<Segment>)
    ensures
        text::views(r@) == segments_of(content@),
{
    let lines = split_text(content, '\n');
    let ghost all = text::split(content@, '\n');
    let n: usize = lines.len();
    let mut segments: Vec<Segment> = Vec::new();
    let mut buffer = String::new();
    let mut in_code = false;
    let mut fence: Option<Fence> = None;
    let mut i: usize = 0;
    let ghost mut cut = uncut();
    proof {
        assert(text::views(segments@) =~= cut.segments);
        assert(buffer@ =~= cut.buffer);
    }
    while i < n
        invariant
            i <= n,
            n == lines@.len(),
            text::views(lines@) == all,
            cut_lines(all, 0, uncut()) == cut_lines(all, i as int, cut),
            cut == (CutView {
                segments: text::views(segments@),
                buffer: buffer@,
                in_code,
                fence: fence_view(fence),
            }),
        decreases n - i,
    {
        let ghost before = cut;
        let ghost have = segments@;
        assert(all[i as int] == lines@[i as int]@);
        let is_last = i == n - 1;
        let mut told = lines[i].clone();
        if !is_last {
            told.push('\n');
            assert(told@ =~= all[i as int] + seq!['\n']);
        }
        let found = match_fence(&lines[i]);
        let closing = match (found, fence) {
            (Some(f), Some(open)) => f.mark == open.mark && f.length >= open.length,
            _ => false,
        };
        if found.is_some() && !in_code {
            if to_chars(&buffer).len() > 0 {
                let s = Segment { is_code: false, text: buffer };
                proof {
                    text::lemma_views_push(segments@, s);
                }
                segments.push(s);
            }
            in_code = true;
            buffer = told;
            fence = found;
        } else if in_code && closing {
            buffer.append(&told);
            let s = Segment { is_code: true, text: buffer };
            proof {
                text::lemma_views_push(segments@, s);
            }
            segments.push(s);
            buffer = String::new();
            assert(buffer@ =~= Seq::empty());
            in_code = false;
            fence = None;
        } else {
            buffer.append(&told);
        }
        if is_last {
            if to_chars(&buffer).len() > 0 {
                let s = Segment { is_code: in_code, text: buffer };
                proof {
                    text::lemma_views_push(segments@, s);
                }
                segments.push(s);
            }
            buffer = String::new();
            assert(buffer@ =~= Seq::empty());
        }
        proof {
            cut = CutView {
                segments: text::views(segments@),
                buffer: buffer@,
                in_code,
                fence: fence_view(fence),
            };
            assert(cut == cut_line(before, all[i as int], is_last));
        }
        i += 1;
    }
    segments
}

/// Whether a code span is open at `position`, given whether one is open at `i`.
pub open spec fn span_open(s: Seq<char>, i: int, position: int, open: bool) -> bool
    decreases s.len() - i,
    via span_open_ends
{
    if i < 0 || i >= position || i >= s.len() {
        open
    } else if s[i] == '`' {
        span_open(s, run_end(s, '`', i), position, !open)
    } else {
        span_open(s, i + 1, position, open)
    }
}

proof fn lemma_run_end(s: Seq<char>, c: char, i: int)
    requires
        0 <= i <= s.len(),
    ensures
        i <= run_end(s, c, i) <= s.len(),
        i < s.len() && s[i] == c ==> i < run_end(s, c, i),
    decreases s.len() - i,
{
    if i < s.len() && s[i] == c {
        lemma_run_end(s, c, i + 1);
    }
}

#[via_fn]
proof fn span_open_ends(s: Seq<char>, i: int, position: int, open: bool) {
    if 0 <= i < s.len() {
        lemma_run_end(s, '`', i);
    }
}

/// Whether a code span is open at a position of a line.
pub open spec fn in_span(line: Seq<char>, position: int) -> bool {
    span_open(line, 0, position, false)
}

fn span_is_open(v: &Vec<char>, position: usize) -> (r: bool)
    ensures
        r == in_span(v@, position as int),
{
    let mut open = false;
    let mut i: usize = 0;
    while i < position && i < v.len()
        invariant
            i <= v@.len(),
            in_span(v@, position as int) == span_open(v@, i as int, position as int, open),
        decreases v@.len() - i,
    {
        proof {
            lemma_run_end(v@, '`', i as int);
        }
        if v[i] == '`' {
            i = find_run_end(v, '`', i);
            open = !open;
        } else {
            i += 1;
        }
    }
    open
}

/// Whether a code span is open at a position of a line.
pub fn is_inside_inline_code(line: &str, position: usize) -> (r: bool)
    ensures
        r == in_span(line@, position as int),
{
    let v = to_chars(line);
    span_is_open(&v, position)
}

// ------------------------------------------------------------------ references

/// A mark that does not belong to a path where it stands last.
pub open spec fn is_punct(c: char) -> bool {
    c == '.' || c == ',' || c == ';' || c == ':' || c == '!' || c == '?' || c == ')' || c == ']' || c
        == '}' || c == '"' || c == '\''
}

/// The token without the marks at its end.
pub open spec fn unpunctuated(token: Seq<char>) -> Seq<char>
    decreases token.len(),
{
    if token.len() > 0 && is_punct(token.last()) {
        unpunctuated(token.drop_last())
    } else {
        token
    }
}

proof fn lemma_unpunctuated(token: Seq<char>)
    ensures
        unpunctuated(token).len() <= token.len(),
        unpunctuated(token) == token.take(unpunctuated(token).len() as int),
    decreases token.len(),
{
    if token.len() > 0 && is_punct(token.last()) {
        lemma_unpunctuated(token.drop_last());
        let n = unpunctuated(token).len() as int;
        assert(token.drop_last().take(n) =~= token.take(n));
    } else {
        assert(token.take(token.len() as int) =~= token);
    }
}

fn punct_start(v: &Vec<char>, from: usize, to: usize) -> (r: usize)
    requires
        from <= to <= v@.len(),
    ensures
        from <= r <= to,
        unpunctuated(v@.subrange(from as int, to as int)) == v@.subrange(from as int, r as int),
{
    let ghost token = v@.subrange(from as int, to as int);
    let mut n: usize = to;
    while n > from
        invariant
            from <= n <= to <= v@.len(),
            token == v@.subrange(from as int, to as int),
            unpunctuated(token) == unpunctuated(v@.subrange(from as int, n as int)),
        decreases n,
    {
        let ghost here = v@.subrange(from as int, n as int);
        assert(here.last() == v@[n as int - 1]);
        assert(here.drop_last() =~= v@.subrange(from as int, n as int - 1));
        let c = v[n - 1];
        if !(c == '.' || c == ',' || c == ';' || c == ':' || c == '!' || c == '?' || c == ')' || c
            == ']' || c == '}' || c == '"' || c == '\'') {
            return n;
        }
        n -= 1;
    }
    n
}

/// The token without the marks at its end.
pub fn strip_trailing_punct(token: &str) -> (r: String)
    ensures
        r@ == unpunctuated(token@),
{
    let v = to_chars(token);
    let n: usize = v.len();
    assert(v@.subrange(0, n as int) =~= token@);
    let k: usize = punct_start(&v, 0, n);
    slice_string(&v, 0, k)
}

/// A character that a path of a reference starts with.
pub open spec fn starts_path(c: char) -> bool {
    c == '.' || c == '/' || c == '~' || ('A' <= c && c <= 'Z') || ('a' <= c && c <= 'z') || (
    '0' <= c && c <= '9') || c == '_' || c == '-'
}

/// Whether a reference has its `@` at `at`.
pub open spec fn refers_at(s: Seq<char>, at: int) -> bool {
    0 <= at && at + 1 < s.len() && s[at] == '@' && starts_path(s[at + 1])
}

/// The first index from `i` on where white space stands, or the length.
pub open spec fn token_end(s: Seq<char>, i: int) -> int
    decreases s.len() - i,
{
    if 0 <= i < s.len() && !text::is_space(Space::Js, s[i]) {
        token_end(s, i + 1)
    } else {
        i
    }
}

/// Where the `@` of a reference stands that is found at `i`, where it starts the line or has a
/// blank before it.
pub open spec fn found_at(s: Seq<char>, i: int) -> Option<int> {
    if i == 0 && refers_at(s, 0) {
        Some(0)
    } else if 0 <= i < s.len() && (s[i] == ' ' || s[i] == '\t') && refers_at(s, i + 1) {
        Some(i + 1)
    } else {
        None
    }
}

/// The reference with its `@` at `at`, and where it ends; nothing in a code span or where only
/// marks are left.
pub open spec fn reference_at(s: Seq<char>, at: int) -> Seq<(int, int)> {
    let path = unpunctuated(s.subrange(at + 1, token_end(s, at + 2)));
    if in_span(s, at) || path.len() == 0 {
        Seq::empty()
    } else {
        seq![(at, at + 1 + path.len())]
    }
}

/// The references of a line from `i` on: where each starts and ends.
pub open spec fn references_from(s: Seq<char>, i: int) -> Seq<(int, int)>
    decreases s.len() - i,
    via references_end
{
    if i < 0 || i >= s.len() {
        Seq::empty()
    } else {
        match found_at(s, i) {
            Some(at) => reference_at(s, at) + references_from(s, token_end(s, at + 2)),
            None => references_from(s, i + 1),
        }
    }
}

proof fn lemma_token_end(s: Seq<char>, i: int)
    requires
        0 <= i <= s.len(),
    ensures
        i <= token_end(s, i) <= s.len(),
    decreases s.len() - i,
{
    if i < s.len() && !text::is_space(Space::Js, s[i]) {
        lemma_token_end(s, i + 1);
    }
}

#[via_fn]
proof fn references_end(s: Seq<char>, i: int) {
    if 0 <= i < s.len() {
        match found_at(s, i) {
            Some(at) => lemma_token_end(s, at + 2),
            None => {},
        }
    }
}

/// A reference of a line: where it starts and where it ends.
#[derive(Clone, Copy, Debug, PartialEq, Eq, Structural)]
pub struct Reference {
    pub start: usize,
    pub end: usize,
}

impl View for Reference {
    type V = (int, int);

    open spec fn view(&self) -> (int, int) {
        (self.start as int, self.end as int)
    }
}

fn is_path_start(c: char) -> (r: bool)
    ensures
        r == starts_path(c),
{
    c == '.' || c == '/' || c == '~' || ('A' <= c && c <= 'Z') || ('a' <= c && c <= 'z') || ('0'
        <= c && c <= '9') || c == '_' || c == '-'
}

fn find_token_end(v: &Vec<char>, from: usize) -> (r: usize)
    requires
        from <= v@.len(),
    ensures
        r == token_end(v@, from as int),
        from <= r <= v@.len(),
{
    let mut i: usize = from;
    while i < v.len() && !js::is_space(v[i])
        invariant
            from <= i <= v@.len(),
            token_end(v@, from as int) == token_end(v@, i as int),
        decreases v@.len() - i,
    {
        i += 1;
    }
    i
}

/// Each reference lies in the line, behind the one before it.
pub open spec fn in_order(refs: Seq<(int, int)>, n: int) -> bool {
    &&& forall|i: int| 0 <= i < refs.len() ==> 0 <= (#[trigger] refs[i]).0 < refs[i].1 <= n
    &&& forall|i: int, j: int|
        0 <= i < j < refs.len() ==> (#[trigger] refs[i]).1 <= (#[trigger] refs[j]).0
}

fn find_references(v: &Vec<char>) -> (r: Vec<Reference>)
    ensures
        text::views(r@) == references_from(v@, 0),
        in_order(text::views(r@), v@.len() as int),
{
    let n: usize = v.len();
    let mut out: Vec<Reference> = Vec::new();
    let mut i: usize = 0;
    assert(text::views(out@) + references_from(v@, 0) =~= references_from(v@, 0));
    while i < n
        invariant
            i <= n,
            n == v@.len(),
            text::views(out@) + references_from(v@, i as int) == references_from(v@, 0),
            in_order(text::views(out@), n as int),
            forall|k: int| 0 <= k < out@.len() ==> (#[trigger] text::views(out@)[k]).1 <= i,
        decreases n - i,
    {
        let ghost before = text::views(out@);
        let at: Option<usize> = if i == 0 && i + 1 < n && v[0] == '@' && is_path_start(v[1]) {
            Some(0)
        } else if (v[i] == ' ' || v[i] == '\t') && i + 1 < n && i + 2 < n && v[i + 1] == '@'
            && is_path_start(v[i + 2]) {
            Some(i + 1)
        } else {
            None
        };
        match at {
            Some(at) => {
                let stop: usize = find_token_end(v, at + 2);
                let end: usize = punct_start(v, at + 1, stop);
                proof {
                    assert(found_at(v@, i as int) == Some(at as int));
                }
                if !span_is_open(v, at) && end > at + 1 {
                    let found = Reference { start: at, end };
                    proof {
                        text::lemma_views_push(out@, found);
                    }
                    out.push(found);
                    assert(reference_at(v@, at as int) =~= seq![found@]);
                    assert(before + references_from(v@, i as int) =~= text::views(out@)
                        + references_from(v@, stop as int));
                } else {
                    assert(reference_at(v@, at as int) =~= Seq::empty());
                    assert(before + references_from(v@, i as int) =~= before + references_from(
                        v@,
                        stop as int,
                    ));
                }
                i = stop;
            },
            None => {
                assert(found_at(v@, i as int) is None);
                i += 1;
            },
        }
    }
    assert(text::views(out@) + references_from(v@, i as int) =~= text::views(out@));
    out
}

// ------------------------------------------------------------------ expanding

/// What the host lets references bring in. It depends on the file alone.
pub trait ImportRule: Send + Sync {
    /// Whether it lets a file in; an implementer may state it.
    closed spec fn lets_in(&self, path: Seq<char>) -> bool {
        arbitrary()
    }

    /// Whether it lets a file in.
    fn allows(&self, path: &str) -> (r: bool)
        ensures
            r == self.lets_in(path@),
    ;
}

/// The rule of a host.
pub type ImportPolicy = Box<dyn ImportRule>;

/// Whether a file may be brought in: any, where there is no rule.
pub open spec fn allowed(rule: Option<ImportPolicy>, path: Seq<char>) -> bool {
    match rule {
        None => true,
        Some(r) => r.lets_in(path),
    }
}

fn is_allowed(rule: &Option<ImportPolicy>, path: &str) -> (r: bool)
    ensures
        r == allowed(*rule, path@),
{
    match rule {
        None => true,
        Some(p) => p.allows(path),
    }
}

/// Replaces references.
pub struct Expander<'a> {
    pub home: String,
    pub max_depth: usize,
    /// Which files may be brought in; any, where nothing is said.
    pub allow: &'a Option<ImportPolicy>,
}

/// Where and how references are replaced.
#[verifier::ext_equal]
pub struct ExpanderView {
    pub fs: FsView,
    pub home: Seq<char>,
    pub allow: Option<ImportPolicy>,
}

/// An expanded text, and the files that were taken.
pub type Expanded = (Seq<char>, Seq<Seq<char>>);

/// The file that a reference names, seen from `base`.
pub open spec fn target(x: ExpanderView, import: Seq<char>, base: Seq<char>) -> Seq<char> {
    if import == seq!['~'] {
        paths::resolved(x.fs.current, x.home)
    } else if text::stands_at(import, 0, "~/"@) {
        paths::resolved(x.fs.current, paths::joined(x.home, import.skip(2)))
    } else {
        paths::resolved(x.fs.current, paths::joined(base, import))
    }
}

/// The directory of a resolved path.
pub open spec fn dir_of(path: Seq<char>) -> Seq<char> {
    match paths::parent_of(path) {
        Some(d) => d,
        None => seq!['/'],
    }
}

/// What stands for a reference, `room` references deep at most: nothing where the file was
/// taken already, must not be taken or cannot be read.
pub open spec fn import_text(
    x: ExpanderView,
    import: Seq<char>,
    base: Seq<char>,
    room: nat,
    taken: Seq<Seq<char>>,
) -> (Option<Seq<char>>, Seq<Seq<char>>)
    decreases room, 5nat, 0nat,
{
    let path = target(x, import, base);
    if room == 0 || taken.contains(path) || !allowed(x.allow, path) {
        (None, taken)
    } else {
        match files::file_at(x.fs, path) {
            None => (None, taken),
            Some(content) => {
                let (s, t) = text_at(x, content, dir_of(path), (room - 1) as nat, taken.push(path));
                (Some(s), t)
            },
        }
    }
}

/// A text with its references replaced, `room` references deep at most.
pub open spec fn text_at(
    x: ExpanderView,
    content: Seq<char>,
    base: Seq<char>,
    room: nat,
    taken: Seq<Seq<char>>,
) -> Expanded
    decreases room, 10nat, 0nat,
{
    if room == 0 {
        (content, taken)
    } else {
        segments_at(x, segments_of(content), base, room, taken)
    }
}

/// Segments with their references replaced: code stays.
pub open spec fn segments_at(
    x: ExpanderView,
    segments: Seq<SegmentView>,
    base: Seq<char>,
    room: nat,
    taken: Seq<Seq<char>>,
) -> Expanded
    decreases room, 9nat, segments.len(),
{
    if segments.len() == 0 {
        (Seq::empty(), taken)
    } else {
        let (s, t) = segments_at(x, segments.drop_last(), base, room, taken);
        let last = segments.last();
        if last.is_code {
            (s + last.text, t)
        } else {
            let (lines, u) = lines_at(x, text::split(last.text, '\n'), base, room, t);
            (s + text::join(lines, seq!['\n']), u)
        }
    }
}

/// Lines with their references replaced.
pub open spec fn lines_at(
    x: ExpanderView,
    lines: Seq<Seq<char>>,
    base: Seq<char>,
    room: nat,
    taken: Seq<Seq<char>>,
) -> (Seq<Seq<char>>, Seq<Seq<char>>)
    decreases room, 8nat, lines.len(),
{
    if lines.len() == 0 {
        (Seq::empty(), taken)
    } else {
        let (s, t) = lines_at(x, lines.drop_last(), base, room, taken);
        let (l, u) = line_at(x, lines.last(), base, room, t);
        (s.push(l), u)
    }
}

/// A line with its references replaced.
pub open spec fn line_at(
    x: ExpanderView,
    line: Seq<char>,
    base: Seq<char>,
    room: nat,
    taken: Seq<Seq<char>>,
) -> Expanded
    decreases room, 7nat, 0nat,
{
    let refs = references_from(line, 0);
    let (s, t) = references_at(x, line, refs, base, room, taken);
    (s + line.skip(cursor(refs)), t)
}

/// Where the last reference ends.
pub open spec fn cursor(refs: Seq<(int, int)>) -> int {
    if refs.len() == 0 {
        0
    } else {
        refs.last().1
    }
}

/// A line up to the end of its last reference, with the references replaced; one that brings
/// nothing in stays.
pub open spec fn references_at(
    x: ExpanderView,
    line: Seq<char>,
    refs: Seq<(int, int)>,
    base: Seq<char>,
    room: nat,
    taken: Seq<Seq<char>>,
) -> Expanded
    decreases room, 6nat, refs.len(),
{
    if refs.len() == 0 {
        (Seq::empty(), taken)
    } else {
        let rest = refs.drop_last();
        let (s, t) = references_at(x, line, rest, base, room, taken);
        let (start, end) = refs.last();
        let (found, u) = import_text(x, line.subrange(start + 1, end), base, room, t);
        let here = match found {
            Some(f) => f,
            None => line.subrange(start, end),
        };
        (s + line.subrange(cursor(rest), start) + here, u)
    }
}

/// A text that was read from a file, with its references replaced.
pub open spec fn expanded(x: ExpanderView, content: Seq<char>, file: Seq<char>, depth: nat) -> Seq<
    char,
> {
    let path = paths::resolved(x.fs.current, file);
    text_at(x, content, dir_of(path), depth, seq![path]).0
}

fn directory(path: &str) -> (r: String)
    ensures
        r@ == dir_of(path@),
{
    proof {
        reveal_strlit("/");
        assert("/"@ =~= seq!['/']);
    }
    match parent(path) {
        Some(d) => d,
        None => "/".to_string(),
    }
}

impl<'a> Expander<'a> {
    /// Where and how references are replaced.
    pub open spec fn over(&self, fs: FsView) -> ExpanderView {
        ExpanderView { fs, home: self.home@, allow: *self.allow }
    }

    /// The text with its references replaced; it was read from `file`.
    pub fn expand(&self, fs: &mut FsCache, content: &str, file: &str) -> (r: String)
        ensures
            final(fs)@ == old(fs)@,
            r@ == expanded(self.over(old(fs)@), content@, file@, self.max_depth as nat),
            files::only_adds(old(fs).wanted@, final(fs).wanted@),
            files::asked_nothing(old(fs).wanted@, final(fs).wanted@) ==> forall|more: FsView| #[trigger]
                files::extends(more, old(fs)@) ==>
                    expanded(self.over(more), content@, file@, self.max_depth as nat)
                        == expanded(self.over(old(fs)@), content@, file@, self.max_depth as nat),
    {
        proof {
            files::lemma_extends_current(fs@);
        }
        let path = resolve(&fs.current, file);
        let base = directory(&path);
        let mut taken: Vec<String> = Vec::new();
        let ghost p = path@;
        taken.push(path);
        assert(text::views(taken@) =~= seq![p]);
        self.expand_at(fs, content, &base, self.max_depth, &mut taken)
    }

    fn expand_at(
        &self,
        fs: &mut FsCache,
        content: &str,
        base: &str,
        room: usize,
        taken: &mut Vec<String>,
    ) -> (r: String)
        ensures
            final(fs)@ == old(fs)@,
            (r@, text::views(final(taken)@)) == text_at(
                self.over(old(fs)@),
                content@,
                base@,
                room as nat,
                text::views(old(taken)@),
            ),
            files::only_adds(old(fs).wanted@, final(fs).wanted@),
            files::asked_nothing(old(fs).wanted@, final(fs).wanted@) ==> forall|more: FsView| #[trigger]
                files::extends(more, old(fs)@) ==>
                    text_at(self.over(more), content@, base@, room as nat, text::views(old(taken)@))
                        == text_at(self.over(old(fs)@), content@, base@, room as nat, text::views(old(taken)@)),
        decreases room, 10nat,
    {
        if room == 0 {
            return content.to_string();
        }
        let segments = split_markdown_segments(content);
        let ghost x = self.over(fs@);
        let ghost known = fs@;
        let ghost all = text::views(segments@);
        let ghost start = text::views(taken@);
        let mut out = String::new();
        let mut i: usize = 0;
        proof {
            assert(all.take(0) =~= Seq::<SegmentView>::empty());
            assert(out@ =~= Seq::empty());
        }
        while i < segments.len()
            invariant
                i <= segments@.len(),
                room > 0,
                fs@ == known,
                x == self.over(known),
                all == text::views(segments@),
                known == old(fs)@,
                (out@, text::views(taken@)) == segments_at(
                    x,
                    all.take(i as int),
                    base@,
                    room as nat,
                    start,
                ),
                files::only_adds(old(fs).wanted@, fs.wanted@),
                files::asked_nothing(old(fs).wanted@, fs.wanted@) ==> forall|more: FsView| #[trigger]
                    files::extends(more, known) ==>
                        segments_at(self.over(more), all.take(i as int), base@, room as nat, start)
                            == segments_at(x, all.take(i as int), base@, room as nat, start),
            decreases segments@.len() - i,
        {
            proof {
                assert(all.take(i as int + 1).drop_last() =~= all.take(i as int));
                assert(all.take(i as int + 1).last() == segments@[i as int]@);
            }
            if segments[i].is_code {
                out.append(&segments[i].text);
            } else {
                let part = self.expand_lines(fs, &segments[i].text, base, room, taken);
                out.append(&part);
            }
            i += 1;
        }
        assert(all.take(i as int) =~= all);
        out
    }

    fn expand_lines(
        &self,
        fs: &mut FsCache,
        part: &str,
        base: &str,
        room: usize,
        taken: &mut Vec<String>,
    ) -> (r: String)
        requires
            room > 0,
        ensures
            final(fs)@ == old(fs)@,
            ({
                let (lines, t) = lines_at(
                    self.over(old(fs)@),
                    text::split(part@, '\n'),
                    base@,
                    room as nat,
                    text::views(old(taken)@),
                );
                r@ == text::join(lines, seq!['\n']) && text::views(final(taken)@) == t
            }),
            files::only_adds(old(fs).wanted@, final(fs).wanted@),
            files::asked_nothing(old(fs).wanted@, final(fs).wanted@) ==> forall|more: FsView| #[trigger]
                files::extends(more, old(fs)@) ==>
                    lines_at(self.over(more), text::split(part@, '\n'), base@, room as nat, text::views(old(taken)@))
                        == lines_at(self.over(old(fs)@), text::split(part@, '\n'), base@, room as nat, text::views(old(taken)@)),
        decreases room, 9nat,
    {
        proof {
            reveal_strlit("\n");
            assert("\n"@ =~= seq!['\n']);
        }
        let lines = split_text(part, '\n');
        let ghost x = self.over(fs@);
        let ghost known = fs@;
        let ghost all = text::split(part@, '\n');
        let ghost start = text::views(taken@);
        let mut out: Vec<String> = Vec::new();
        let mut i: usize = 0;
        proof {
            assert(all.take(0) =~= Seq::<Seq<char>>::empty());
            assert(text::views(out@) =~= Seq::empty());
        }
        while i < lines.len()
            invariant
                i <= lines@.len(),
                room > 0,
                fs@ == known,
                x == self.over(known),
                all == text::views(lines@),
                known == old(fs)@,
                (text::views(out@), text::views(taken@)) == lines_at(
                    x,
                    all.take(i as int),
                    base@,
                    room as nat,
                    start,
                ),
                files::only_adds(old(fs).wanted@, fs.wanted@),
                files::asked_nothing(old(fs).wanted@, fs.wanted@) ==> forall|more: FsView| #[trigger]
                    files::extends(more, known) ==>
                        lines_at(self.over(more), all.take(i as int), base@, room as nat, start)
                            == lines_at(x, all.take(i as int), base@, room as nat, start),
            decreases lines@.len() - i,
        {
            proof {
                assert(all.take(i as int + 1).drop_last() =~= all.take(i as int));
                assert(all.take(i as int + 1).last() == lines@[i as int]@);
            }
            let line = self.expand_line(fs, &lines[i], base, room, taken);
            proof {
                text::lemma_views_push(out@, line);
            }
            out.push(line);
            i += 1;
        }
        assert(all.take(i as int) =~= all);
        text::join_strings(&out, "\n")
    }

    fn expand_line(
        &self,
        fs: &mut FsCache,
        line: &str,
        base: &str,
        room: usize,
        taken: &mut Vec<String>,
    ) -> (r: String)
        requires
            room > 0,
        ensures
            final(fs)@ == old(fs)@,
            (r@, text::views(final(taken)@)) == line_at(
                self.over(old(fs)@),
                line@,
                base@,
                room as nat,
                text::views(old(taken)@),
            ),
            files::only_adds(old(fs).wanted@, final(fs).wanted@),
            files::asked_nothing(old(fs).wanted@, final(fs).wanted@) ==> forall|more: FsView| #[trigger]
                files::extends(more, old(fs)@) ==>
                    line_at(self.over(more), line@, base@, room as nat, text::views(old(taken)@))
                        == line_at(self.over(old(fs)@), line@, base@, room as nat, text::views(old(taken)@)),
        decreases room, 8nat,
    {
        let v = to_chars(line);
        let n: usize = v.len();
        let refs = find_references(&v);
        let ghost x = self.over(fs@);
        let ghost known = fs@;
        let ghost all = text::views(refs@);
        let ghost start = text::views(taken@);
        let mut out = String::new();
        let mut done: usize = 0;
        let mut i: usize = 0;
        proof {
            assert(all.take(0) =~= Seq::<(int, int)>::empty());
            assert(out@ =~= Seq::empty());
        }
        while i < refs.len()
            invariant
                i <= refs@.len(),
                room > 0,
                v@ == line@,
                n == v@.len(),
                fs@ == known,
                x == self.over(known),
                all == text::views(refs@),
                in_order(all, n as int),
                done == cursor(all.take(i as int)),
                done <= n,
                i < refs@.len() ==> done <= all[i as int].0,
                known == old(fs)@,
                (out@, text::views(taken@)) == references_at(
                    x,
                    line@,
                    all.take(i as int),
                    base@,
                    room as nat,
                    start,
                ),
                files::only_adds(old(fs).wanted@, fs.wanted@),
                files::asked_nothing(old(fs).wanted@, fs.wanted@) ==> forall|more: FsView| #[trigger]
                    files::extends(more, known) ==>
                        references_at(self.over(more), line@, all.take(i as int), base@, room as nat, start)
                            == references_at(x, line@, all.take(i as int), base@, room as nat, start),
            decreases refs@.len() - i,
        {
            let here = refs[i];
            proof {
                assert(all.take(i as int + 1).drop_last() =~= all.take(i as int));
                assert(all.take(i as int + 1).last() == all[i as int]);
                assert(all[i as int] == here@);
            }
            out.append(&slice_string(&v, done, here.start));
            let import = slice_string(&v, here.start + 1, here.end);
            match self.resolve_and_expand(fs, &import, base, room, taken) {
                Some(s) => out.append(&s),
                None => out.append(&slice_string(&v, here.start, here.end)),
            }
            done = here.end;
            i += 1;
        }
        assert(all.take(i as int) =~= all);
        let tail = slice_string(&v, done, n);
        assert(tail@ =~= line@.skip(done as int));
        out.append(&tail);
        out
    }

    fn resolve_and_expand(
        &self,
        fs: &mut FsCache,
        import: &str,
        base: &str,
        room: usize,
        taken: &mut Vec<String>,
    ) -> (r: Option<String>)
        requires
            room > 0,
        ensures
            final(fs)@ == old(fs)@,
            (text::opt_view(r), text::views(final(taken)@)) == import_text(
                self.over(old(fs)@),
                import@,
                base@,
                room as nat,
                text::views(old(taken)@),
            ),
            files::only_adds(old(fs).wanted@, final(fs).wanted@),
            files::asked_nothing(old(fs).wanted@, final(fs).wanted@) ==> forall|more: FsView| #[trigger]
                files::extends(more, old(fs)@) ==>
                    import_text(self.over(more), import@, base@, room as nat, text::views(old(taken)@))
                        == import_text(self.over(old(fs)@), import@, base@, room as nat, text::views(old(taken)@)),
        decreases room, 5nat,
    {
        proof {
            files::lemma_extends_current(fs@);
            reveal_strlit("~");
            assert("~"@ =~= seq!['~']);
            reveal_strlit("~/");
            assert("~/"@.len() == 2);
        }
        let v = to_chars(import);
        let n: usize = v.len();
        let path = if same_text(import, "~") {
            resolve(&fs.current, &self.home)
        } else if is_at(&v, 0, "~/") {
            let rest = slice_string(&v, 2, n);
            assert(rest@ =~= import@.skip(2));
            paths::resolve_from(&fs.current, &self.home, &rest)
        } else {
            paths::resolve_from(&fs.current, base, import)
        };
        if contains_text(taken, &path) || !is_allowed(self.allow, &path) {
            return None;
        }
        let content = match fs.read_file(&path) {
            None => {
                return None;
            },
            Some(c) => c,
        };
        let dir = directory(&path);
        proof {
            text::lemma_views_push(taken@, path);
        }
        taken.push(path);
        Some(self.expand_at(fs, &content, &dir, room - 1, taken))
    }
}

// ------------------------------------------------------------------ laws

/// The texts of the segments, one after the other.
pub open spec fn told(segments: Seq<SegmentView>) -> Seq<char>
    decreases segments.len(),
{
    if segments.len() == 0 {
        Seq::empty()
    } else {
        told(segments.drop_last()) + segments.last().text
    }
}

proof fn lemma_told_push(segments: Seq<SegmentView>, s: SegmentView)
    ensures
        told(segments.push(s)) == told(segments) + s.text,
{
    assert(segments.push(s).drop_last() =~= segments);
}

proof fn lemma_flushed_told(segments: Seq<SegmentView>, is_code: bool, buffer: Seq<char>)
    ensures
        told(flushed(segments, is_code, buffer)) == told(segments) + buffer,
{
    if buffer.len() > 0 {
        lemma_told_push(segments, SegmentView { is_code, text: buffer });
    } else {
        assert(told(segments) + buffer =~= told(segments));
    }
}

proof fn lemma_cut_keeps(cut: CutView, line: Seq<char>, is_last: bool)
    ensures
        ({
            let next = cut_line(cut, line, is_last);
            let here = if is_last { line } else { line + seq!['\n'] };
            told(next.segments) + next.buffer == told(cut.segments) + cut.buffer + here && (
            is_last ==> next.buffer.len() == 0)
        }),
{
    let here = if is_last { line } else { line + seq!['\n'] };
    let found = fence_of(line);
    lemma_flushed_told(cut.segments, false, cut.buffer);
    lemma_told_push(cut.segments, SegmentView { is_code: true, text: cut.buffer + here });
    let middle = if found is Some && !cut.in_code {
        CutView {
            segments: flushed(cut.segments, false, cut.buffer),
            buffer: here,
            in_code: true,
            fence: found,
        }
    } else if cut.in_code && closes(found, cut.fence) {
        CutView {
            segments: cut.segments.push(SegmentView { is_code: true, text: cut.buffer + here }),
            buffer: Seq::empty(),
            in_code: false,
            fence: None,
        }
    } else {
        CutView { buffer: cut.buffer + here, ..cut }
    };
    assert(told(middle.segments) + middle.buffer =~= told(cut.segments) + cut.buffer + here);
    lemma_flushed_told(middle.segments, middle.in_code, middle.buffer);
    let next = cut_line(cut, line, is_last);
    if is_last {
        assert(told(next.segments) + next.buffer =~= told(middle.segments) + middle.buffer);
    }
}

proof fn lemma_cut_lines_keep(lines: Seq<Seq<char>>, i: int, cut: CutView)
    requires
        0 <= i < lines.len(),
    ensures
        told(cut_lines(lines, i, cut).segments) == told(cut.segments) + cut.buffer + text::join(
            lines.skip(i),
            seq!['\n'],
        ),
    decreases lines.len() - i,
{
    let line = lines[i];
    let is_last = i == lines.len() - 1;
    let next = cut_line(cut, line, is_last);
    lemma_cut_keeps(cut, line, is_last);
    if is_last {
        assert(lines.skip(i) =~= seq![line]);
        assert(cut_lines(lines, i + 1, next) == next);
        assert(told(next.segments) + next.buffer =~= told(next.segments));
    } else {
        lemma_cut_lines_keep(lines, i + 1, next);
        assert(lines.skip(i) =~= seq![line] + lines.skip(i + 1));
        text::lemma_join_first(line, lines.skip(i + 1), seq!['\n']);
        assert(told(next.segments) + next.buffer + text::join(lines.skip(i + 1), seq!['\n'])
            =~= told(cut.segments) + cut.buffer + text::join(lines.skip(i), seq!['\n']));
    }
}

/// The segments of a text, one after the other, are the text.
pub proof fn law_segments_are_the_text(content: Seq<char>)
    ensures
        told(segments_of(content)) == content,
{
    let lines = text::split(content, '\n');
    text::law_split_pieces_join(content, '\n');
    text::lemma_split_from_nonempty(content, '\n', 0);
    lemma_cut_lines_keep(lines, 0, uncut());
    assert(lines.skip(0) =~= lines);
    assert(told(uncut().segments) =~= Seq::empty());
    assert(Seq::<char>::empty() + Seq::<char>::empty() + text::join(lines, seq!['\n'])
        =~= content);
}

/// At the bottom nothing is replaced: what is nested deeper than allowed keeps its references.
pub proof fn law_the_depth_is_capped(
    x: ExpanderView,
    content: Seq<char>,
    file: Seq<char>,
)
    ensures
        expanded(x, content, file, 0) == content,
{
}

/// A file is taken once: a reference to a file that was taken already, the referring file among
/// them, brings nothing in.
pub proof fn law_cycles_keep_their_reference(
    x: ExpanderView,
    import: Seq<char>,
    base: Seq<char>,
    room: nat,
    taken: Seq<Seq<char>>,
)
    requires
        taken.contains(target(x, import, base)),
    ensures
        import_text(x, import, base, room, taken) == (None::<Seq<char>>, taken),
{
}

/// A file that the rule of the host does not let in is never brought in.
pub proof fn law_forbidden_files_stay_out(
    x: ExpanderView,
    import: Seq<char>,
    base: Seq<char>,
    room: nat,
    taken: Seq<Seq<char>>,
)
    requires
        !allowed(x.allow, target(x, import, base)),
    ensures
        import_text(x, import, base, room, taken) == (None::<Seq<char>>, taken),
{
}

/// A file that cannot be read brings nothing in.
pub proof fn law_unreadable_files_keep_their_reference(
    x: ExpanderView,
    import: Seq<char>,
    base: Seq<char>,
    room: nat,
    taken: Seq<Seq<char>>,
)
    requires
        files::file_at(x.fs, target(x, import, base)) is None,
    ensures
        import_text(x, import, base, room, taken) == (None::<Seq<char>>, taken),
{
}

/// No line holds a reference.
pub open spec fn no_references(lines: Seq<Seq<char>>) -> bool {
    forall|i: int| 0 <= i < lines.len() ==> references_from(#[trigger] lines[i], 0).len() == 0
}

/// Each segment is code, or its lines hold no reference.
pub open spec fn only_code_refers(segments: Seq<SegmentView>) -> bool {
    forall|i: int|
        0 <= i < segments.len() ==> (#[trigger] segments[i]).is_code || no_references(
            text::split(segments[i].text, '\n'),
        )
}

proof fn lemma_lines_stay(
    x: ExpanderView,
    lines: Seq<Seq<char>>,
    base: Seq<char>,
    room: nat,
    taken: Seq<Seq<char>>,
)
    requires
        no_references(lines),
    ensures
        lines_at(x, lines, base, room, taken) == (lines, taken),
    decreases lines.len(),
{
    if lines.len() > 0 {
        let rest = lines.drop_last();
        assert forall|i: int| 0 <= i < rest.len() implies references_from(
            #[trigger] rest[i],
            0,
        ).len() == 0 by {
            assert(rest[i] == lines[i]);
        }
        lemma_lines_stay(x, rest, base, room, taken);
        let line = lines.last();
        assert(references_from(lines[lines.len() - 1], 0).len() == 0);
        let refs = references_from(line, 0);
        assert(references_at(x, line, refs, base, room, taken) == (Seq::<char>::empty(), taken));
        assert(cursor(refs) == 0);
        assert(Seq::<char>::empty() + line.skip(0) =~= line);
        assert(line_at(x, line, base, room, taken) == (line, taken));
        assert(rest.push(line) =~= lines);
    } else {
        assert(lines =~= Seq::empty());
    }
}

proof fn lemma_segments_stay(
    x: ExpanderView,
    segments: Seq<SegmentView>,
    base: Seq<char>,
    room: nat,
    taken: Seq<Seq<char>>,
)
    requires
        only_code_refers(segments),
    ensures
        segments_at(x, segments, base, room, taken) == (told(segments), taken),
    decreases segments.len(),
{
    if segments.len() > 0 {
        let rest = segments.drop_last();
        assert forall|i: int| 0 <= i < rest.len() implies (#[trigger] rest[i]).is_code
            || no_references(text::split(rest[i].text, '\n')) by {
            assert(rest[i] == segments[i]);
        }
        lemma_segments_stay(x, rest, base, room, taken);
        let last = segments[segments.len() - 1];
        if !last.is_code {
            lemma_lines_stay(x, text::split(last.text, '\n'), base, room, taken);
            text::law_split_pieces_join(last.text, '\n');
        }
    }
}

/// Code stays as it is: where no line outside code holds a reference, the text is not changed.
pub proof fn law_code_is_left_alone(
    x: ExpanderView,
    content: Seq<char>,
    file: Seq<char>,
    depth: nat,
)
    requires
        only_code_refers(segments_of(content)),
    ensures
        expanded(x, content, file, depth) == content,
{
    let path = paths::resolved(x.fs.current, file);
    lemma_segments_stay(x, segments_of(content), dir_of(path), depth, seq![path]);
    law_segments_are_the_text(content);
}

} // verus!
