//! Templates as they are written: tags, calls and blocks.
use crate::js;
use crate::json::{Json, JsonView};
use crate::number;
use crate::number::parse_float;
use crate::text;
use crate::text::{
    concat, find_char_at, find_text_at, is_at, is_blank, same_text, slice_string, to_chars,
    trim_text, Space,
};
use vstd::prelude::*;

verus! {

/// Why a template cannot be read or rendered.
#[derive(Debug, PartialEq)]
pub struct TemplateError(pub String);

/// How deep blocks, calls inside calls and partials may nest.
pub const MAX_NESTING: usize = 100;

/// An argument.
#[derive(Debug)]
pub enum Expr {
    Path(String),
    Literal(Json),
    Call(Call),
}

/// A name with its arguments.
#[derive(Debug)]
pub struct Call {
    pub name: String,
    pub args: Vec<Expr>,
    pub hash: Vec<(String, Expr)>,
}

/// A piece of a template.
#[derive(Debug)]
pub enum Node {
    Text(String),
    Output { call: Call, escaped: bool },
    Block { call: Call, body: Vec<Node>, inverse: Vec<Node> },
    Partial(Call),
}

/// What an [`Expr`] stands for.
pub enum ExprView {
    Path(Seq<char>),
    Literal(JsonView),
    Call(CallView),
}

/// What a [`Call`] stands for.
pub struct CallView {
    pub name: Seq<char>,
    pub args: Seq<ExprView>,
    pub hash: Seq<(Seq<char>, ExprView)>,
}

/// What a [`Node`] stands for.
pub enum NodeView {
    Text(Seq<char>),
    Output { call: CallView, escaped: bool },
    Block { call: CallView, body: Seq<NodeView>, inverse: Seq<NodeView> },
    Partial(CallView),
}

impl View for Expr {
    type V = ExprView;

    open spec fn view(&self) -> ExprView
        decreases self,
    {
        match self {
            Expr::Path(p) => ExprView::Path(p@),
            Expr::Literal(v) => ExprView::Literal(v@),
            Expr::Call(c) => ExprView::Call(c.view()),
        }
    }
}

impl View for Call {
    type V = CallView;

    open spec fn view(&self) -> CallView
        decreases self,
    {
        CallView {
            name: self.name@,
            args: exprs_view(self.args),
            hash: hash_view(self.hash),
        }
    }
}

/// The arguments, one by one.
pub open spec fn exprs_view(a: Vec<Expr>) -> Seq<ExprView>
    decreases a,
{
    Seq::new(
        a@.len(),
        |i: int|
            if 0 <= i < a@.len() {
                a@[i].view()
            } else {
                ExprView::Path(Seq::empty())
            },
    )
}

/// The named arguments, one by one.
pub open spec fn hash_view(a: Vec<(String, Expr)>) -> Seq<(Seq<char>, ExprView)>
    decreases a,
{
    Seq::new(
        a@.len(),
        |i: int|
            if 0 <= i < a@.len() {
                (a@[i].0@, a@[i].1.view())
            } else {
                (Seq::empty(), ExprView::Path(Seq::empty()))
            },
    )
}

impl View for Node {
    type V = NodeView;

    open spec fn view(&self) -> NodeView
        decreases self,
    {
        match self {
            Node::Text(t) => NodeView::Text(t@),
            Node::Output { call, escaped } => NodeView::Output { call: call@, escaped: *escaped },
            Node::Block { call, body, inverse } => NodeView::Block {
                call: call@,
                body: nodes_view(*body),
                inverse: nodes_view(*inverse),
            },
            Node::Partial(call) => NodeView::Partial(call@),
        }
    }
}

/// The pieces, one by one.
pub open spec fn nodes_view(a: Vec<Node>) -> Seq<NodeView>
    decreases a,
{
    Seq::new(
        a@.len(),
        |i: int|
            if 0 <= i < a@.len() {
                a@[i].view()
            } else {
                NodeView::Text(Seq::empty())
            },
    )
}

// ------------------------------------------------------------------ standalone tags

/// A line without its line end.
pub open spec fn line_body(line: Seq<char>) -> Seq<char> {
    if line.len() > 0 && line.last() == '\n' {
        let body = line.drop_last();
        if body.len() > 0 && body.last() == '\r' {
            body.drop_last()
        } else {
            body
        }
    } else {
        line
    }
}

/// The lines from an index on, each with its line end.
pub open spec fn lines_from(s: Seq<char>, i: int) -> Seq<Seq<char>>
    decreases s.len() - i,
    via lines_from_ends
{
    if i < 0 || i >= s.len() {
        Seq::empty()
    } else {
        match text::find_char(s, '\n', i) {
            Some(k) => seq![s.subrange(i, k + 1)] + lines_from(s, k + 1),
            None => seq![s.subrange(i, s.len() as int)],
        }
    }
}

#[via_fn]
proof fn lines_from_ends(s: Seq<char>, i: int) {
    if 0 <= i {
        text::lemma_find_char(s, '\n', i);
    }
}

/// The line opens a comment.
pub open spec fn opens_comment(body: Seq<char>) -> bool {
    text::stands_at(text::trim_start(Space::Js, body), 0, "{{!--"@)
}

/// The line holds nothing but one tag of a block, or one comment.
pub open spec fn is_standalone(body: Seq<char>) -> bool {
    let t = text::trim(Space::Js, body);
    &&& t.len() >= 4
    &&& text::stands_at(t, 0, "{{"@)
    &&& text::stands_at(t, t.len() - 2, "}}"@)
    &&& is_block_tag(t.subrange(2, t.len() - 2))
}

/// A character of an ASCII word.
pub open spec fn is_word(c: char) -> bool {
    ('a' <= c && c <= 'z') || ('A' <= c && c <= 'Z') || ('0' <= c && c <= '9') || c == '_'
}

/// The inside of a tag opens, closes or divides a block, or is a comment.
pub open spec fn is_block_tag(t: Seq<char>) -> bool {
    &&& t.len() > 0
    &&& (t[0] == '#' || t[0] == '/' || t[0] == '^' || t[0] == '!' || (text::stands_at(
        t,
        0,
        "else"@,
    ) && (t.len() == 4 || !is_word(t[4]))))
    &&& no_braces(t)
}

/// No brace stands in the text.
pub open spec fn no_braces(t: Seq<char>) -> bool {
    forall|i: int| 0 <= i < t.len() ==> #[trigger] t[i] != '{' && t[i] != '}'
}

/// The first line from `i` on that closes a comment.
pub open spec fn comment_end(lines: Seq<Seq<char>>, i: int) -> Option<int>
    decreases lines.len() - i,
{
    if i < 0 || i >= lines.len() {
        None
    } else if text::find_text(line_body(lines[i]), "--}}"@, 0) is Some {
        Some(i)
    } else {
        comment_end(lines, i + 1)
    }
}

/// Nothing but white space follows the comment that a line closes.
pub open spec fn ends_with_comment(body: Seq<char>) -> bool {
    match text::find_text(body, "--}}"@, 0) {
        Some(k) => text::all_space(Space::Js, body.skip(k + 4)),
        None => false,
    }
}

/// The lines from `i` on: a line that is only a tag of a block loses the white space around it and
/// its line end, and lines that are only a comment are left out.
pub open spec fn stripped_from(lines: Seq<Seq<char>>, i: int) -> Seq<char>
    decreases lines.len() - i,
    via stripped_from_ends
{
    if i < 0 || i >= lines.len() {
        Seq::empty()
    } else {
        let body = line_body(lines[i]);
        if opens_comment(body) && text::find_text(body, "--}}"@, 0) is None {
            match comment_end(lines, i + 1) {
                Some(e) => if ends_with_comment(line_body(lines[e])) {
                    stripped_from(lines, e + 1)
                } else {
                    lines[i] + stripped_from(lines, i + 1)
                },
                None => lines[i] + stripped_from(lines, i + 1),
            }
        } else if is_standalone(body) {
            text::trim(Space::Js, body) + stripped_from(lines, i + 1)
        } else {
            lines[i] + stripped_from(lines, i + 1)
        }
    }
}

proof fn lemma_comment_end(lines: Seq<Seq<char>>, i: int)
    requires
        0 <= i,
    ensures
        match comment_end(lines, i) {
            Some(e) => i <= e < lines.len(),
            None => true,
        },
    decreases lines.len() - i,
{
    if i < lines.len() && text::find_text(line_body(lines[i]), "--}}"@, 0) is None {
        lemma_comment_end(lines, i + 1);
    }
}

#[via_fn]
proof fn stripped_from_ends(lines: Seq<Seq<char>>, i: int) {
    if 0 <= i {
        lemma_comment_end(lines, i + 1);
    }
}

/// The source without its standalone lines.
pub open spec fn stripped(s: Seq<char>) -> Seq<char> {
    stripped_from(lines_from(s, 0), 0)
}

fn split_lines(s: &str) -> (r: Vec<String>)
    ensures
        text::views(r@) == lines_from(s@, 0),
{
    let v = to_chars(s);
    let n: usize = v.len();
    let mut out: Vec<String> = Vec::new();
    let mut i: usize = 0;
    assert(text::views(out@) + lines_from(v@, 0) =~= lines_from(v@, 0));
    while i < n
        invariant
            v@ == s@,
            n == v@.len(),
            i <= n,
            text::views(out@) + lines_from(v@, i as int) == lines_from(v@, 0),
        decreases n - i,
    {
        let to: usize = match find_char_at(&v, '\n', i) {
            Some(k) => k + 1,
            None => n,
        };
        let line = slice_string(&v, i, to);
        proof {
            text::lemma_views_push(out@, line);
            assert(lines_from(v@, i as int) =~= seq![line@] + lines_from(v@, to as int));
            assert(text::views(out@) + lines_from(v@, i as int) =~= text::views(out@).push(line@)
                + lines_from(v@, to as int));
        }
        out.push(line);
        i = to;
    }
    assert(text::views(out@) + lines_from(v@, i as int) =~= text::views(out@));
    out
}

fn without_end(line: &str) -> (r: String)
    ensures
        r@ == line_body(line@),
{
    let v = to_chars(line);
    let n: usize = v.len();
    let mut to: usize = n;
    if n > 0 && v[n - 1] == '\n' {
        to = n - 1;
        if n > 1 && v[n - 2] == '\r' {
            to = n - 2;
        }
    }
    let r = slice_string(&v, 0, to);
    assert(r@ =~= line_body(line@));
    r
}

fn comment_opens(body: &str) -> (r: bool)
    ensures
        r == opens_comment(body@),
{
    let t = text::trim_start_text(Space::Js, body);
    is_at(&to_chars(t.as_str()), 0, "{{!--")
}

fn closes_comment(body: &str) -> (r: bool)
    ensures
        r == (text::find_text(body@, "--}}"@, 0) is Some),
{
    find_text_at(&to_chars(body), "--}}", 0).is_some()
}

fn only_comment_left(body: &str) -> (r: bool)
    ensures
        r == ends_with_comment(body@),
{
    proof {
        reveal_strlit("--}}");
    }
    let v = to_chars(body);
    let n: usize = v.len();
    match find_text_at(&v, "--}}", 0) {
        Some(k) => {
            let rest = slice_string(&v, k + 4, n);
            assert(rest@ =~= body@.skip(k + 4));
            is_blank(Space::Js, rest.as_str())
        },
        None => false,
    }
}

fn tag_of_block(v: &Vec<char>, from: usize, to: usize) -> (r: bool)
    requires
        from <= to <= v@.len(),
    ensures
        r == is_block_tag(v@.subrange(from as int, to as int)),
{
    let ghost t = v@.subrange(from as int, to as int);
    if from == to {
        return false;
    }
    let c = v[from];
    let inner = to_chars(slice_string(v, from, to).as_str());
    let word = if to - from > 4 {
        let d = v[from + 4];
        ('a' <= d && d <= 'z') || ('A' <= d && d <= 'Z') || ('0' <= d && d <= '9') || d == '_'
    } else {
        false
    };
    proof {
        reveal_strlit("else");
    }
    if !(c == '#' || c == '/' || c == '^' || c == '!' || (is_at(&inner, 0, "else") && !word)) {
        return false;
    }
    let mut i: usize = from;
    while i < to
        invariant
            from <= i <= to <= v@.len(),
            t == v@.subrange(from as int, to as int),
            forall|j: int| 0 <= j < i - from ==> #[trigger] t[j] != '{' && t[j] != '}',
        decreases to - i,
    {
        if v[i] == '{' || v[i] == '}' {
            let ghost k: int = i - from;
            assert(0 <= k < t.len() && (t[k] == '{' || t[k] == '}'));
            assert(!no_braces(t));
            return false;
        }
        i += 1;
    }
    assert(no_braces(t));
    true
}

fn standalone(body: &str) -> (r: bool)
    ensures
        r == is_standalone(body@),
{
    let t = trim_text(Space::Js, body);
    let v = to_chars(t.as_str());
    let n: usize = v.len();
    n >= 4 && is_at(&v, 0, "{{") && is_at(&v, n - 2, "}}") && tag_of_block(&v, 2, n - 2)
}

fn find_comment_end(lines: &Vec<String>, from: usize) -> (r: Option<usize>)
    requires
        from <= lines@.len(),
    ensures
        match r {
            Some(e) => comment_end(text::views(lines@), from as int) == Some(e as int) && from <= e
                < lines@.len(),
            None => comment_end(text::views(lines@), from as int) is None,
        },
{
    let ghost all = text::views(lines@);
    let mut e: usize = from;
    while e < lines.len()
        invariant
            from <= e <= lines@.len(),
            all == text::views(lines@),
            comment_end(all, from as int) == comment_end(all, e as int),
        decreases lines@.len() - e,
    {
        assert(all[e as int] == lines@[e as int]@);
        if closes_comment(without_end(lines[e].as_str()).as_str()) {
            return Some(e);
        }
        e += 1;
    }
    None
}

/// Strips the lines that hold nothing but a tag of a block or a comment.
pub fn strip_standalone(source: &str) -> (r: String)
    ensures
        r@ == stripped(source@),
{
    let lines = split_lines(source);
    let n: usize = lines.len();
    let ghost all = text::views(lines@);
    let mut out = String::new();
    let mut i: usize = 0;
    assert(out@ + stripped_from(all, 0) =~= stripped_from(all, 0));
    while i < n
        invariant
            n == lines@.len(),
            i <= n,
            all == text::views(lines@),
            out@ + stripped_from(all, i as int) == stripped_from(all, 0),
        decreases n - i,
    {
        let ghost before = out@;
        let ghost here = stripped_from(all, i as int);
        assert(all[i as int] == lines@[i as int]@);
        let body = without_end(lines[i].as_str());
        if comment_opens(body.as_str()) && !closes_comment(body.as_str()) {
            let end = find_comment_end(&lines, i + 1);
            let (skip, to): (bool, usize) = match end {
                Some(e) => {
                    assert(all[e as int] == lines@[e as int]@);
                    (only_comment_left(without_end(lines[e].as_str()).as_str()), e + 1)
                },
                None => (false, n),
            };
            if skip {
                i = to;
            } else {
                out.append(lines[i].as_str());
                assert(before + here =~= out@ + stripped_from(all, i as int + 1));
                i += 1;
            }
        } else if standalone(body.as_str()) {
            out.append(trim_text(Space::Js, body.as_str()).as_str());
            assert(before + here =~= out@ + stripped_from(all, i as int + 1));
            i += 1;
        } else {
            out.append(lines[i].as_str());
            assert(before + here =~= out@ + stripped_from(all, i as int + 1));
            i += 1;
        }
    }
    assert(out@ + stripped_from(all, i as int) =~= out@);
    out
}

// ------------------------------------------------------------------ tokens

/// How far a scan over quotes and brackets has come.
pub struct ScanView {
    pub start: Option<int>,
    pub quote: Option<char>,
    pub depth: int,
    pub brackets: int,
}

/// The scan after a character that belongs to a token.
pub open spec fn in_token(st: ScanView, i: int) -> ScanView {
    ScanView {
        start: match st.start {
            Some(b) => Some(b),
            None => Some(i),
        },
        ..st
    }
}

/// The character divides tokens here.
pub open spec fn divides(st: ScanView, c: char) -> bool {
    text::is_space(Space::Js, c) && st.depth == 0 && st.brackets == 0
}

/// The scan after the character at an index, and the index where it goes on.
pub open spec fn token_step(s: Seq<char>, i: int, st: ScanView) -> (int, ScanView) {
    let c = s[i];
    match st.quote {
        Some(q) => if c == '\\' {
            (i + 2, st)
        } else if c == q {
            (i + 1, ScanView { quote: None, ..st })
        } else {
            (i + 1, st)
        },
        None => (
            i + 1,
            if c == '"' || c == '\'' {
                ScanView { quote: Some(c), ..in_token(st, i) }
            } else if c == '(' {
                ScanView { depth: st.depth + 1, ..in_token(st, i) }
            } else if c == ')' {
                ScanView { depth: st.depth - 1, ..st }
            } else if c == '[' {
                ScanView { brackets: st.brackets + 1, ..in_token(st, i) }
            } else if c == ']' {
                ScanView { brackets: st.brackets - 1, ..st }
            } else if divides(st, c) {
                ScanView { start: None, ..st }
            } else {
                in_token(st, i)
            },
        ),
    }
}

/// The token that ends before the character at an index.
pub open spec fn token_before(s: Seq<char>, i: int, st: ScanView) -> Seq<Seq<char>> {
    match st.start {
        Some(b) => if st.quote is None && divides(st, s[i]) {
            seq![s.subrange(b, i)]
        } else {
            Seq::empty()
        },
        None => Seq::empty(),
    }
}

/// The tokens from an index on: white space divides them outside quotes and brackets.
pub open spec fn tokens_from(s: Seq<char>, i: int, st: ScanView) -> Seq<Seq<char>>
    decreases
        if i < s.len() {
            s.len() - i
        } else {
            0
        },
{
    if 0 <= i < s.len() {
        let next = token_step(s, i, st);
        token_before(s, i, st) + tokens_from(s, next.0, next.1)
    } else {
        match st.start {
            Some(b) => seq![s.subrange(b, s.len() as int)],
            None => Seq::empty(),
        }
    }
}

/// A scan at its start.
pub open spec fn scan_start() -> ScanView {
    ScanView { start: None, quote: None, depth: 0, brackets: 0 }
}

/// The tokens of a text.
pub open spec fn tokens(s: Seq<char>) -> Seq<Seq<char>> {
    tokens_from(s, 0, scan_start())
}

fn tokenize(source: &str) -> (r: Vec<String>)
    ensures
        text::views(r@) == tokens(source@),
{
    let v = to_chars(source);
    let n: usize = v.len();
    let mut out: Vec<String> = Vec::new();
    let mut start: Option<usize> = None;
    let mut quote: Option<char> = None;
    let mut depth: i128 = 0;
    let mut brackets: i128 = 0;
    let mut i: usize = 0;
    let ghost mut st = scan_start();
    assert(text::views(out@) + tokens_from(v@, 0, st) =~= tokens(v@));
    while i < n
        invariant
            v@ == source@,
            n == v@.len(),
            -(i as int) <= depth <= i,
            -(i as int) <= brackets <= i,
            st.start == (match start {
                Some(b) => Some(b as int),
                None => None,
            }),
            start is Some ==> start.unwrap() <= i && start.unwrap() <= n,
            st.quote == quote,
            st.depth == depth,
            st.brackets == brackets,
            i <= n + 1,
            text::views(out@) + tokens_from(v@, i as int, st) == tokens(v@),
        decreases n + 1 - i,
    {
        let c = v[i];
        let ghost before = text::views(out@);
        let ghost next = token_step(v@, i as int, st);
        let ghost cut = token_before(v@, i as int, st);
        assert(tokens_from(v@, i as int, st) == cut + tokens_from(v@, next.0, next.1));
        match quote {
            Some(q) => {
                assert(before + tokens_from(v@, i as int, st) =~= before + tokens_from(
                    v@,
                    next.0,
                    next.1,
                ));
                if c == '\\' {
                    if i + 1 < n {
                        i += 2;
                    } else {
                        assert(tokens_from(v@, i as int + 2, st) == tokens_from(v@, n as int, st));
                        i = n;
                    }
                } else if c == q {
                    quote = None;
                    i += 1;
                } else {
                    i += 1;
                }
            },
            None => {
                if c == '"' || c == '\'' {
                    start = or_here(start, i);
                    quote = Some(c);
                } else if c == '(' {
                    start = or_here(start, i);
                    depth += 1;
                } else if c == ')' {
                    depth -= 1;
                } else if c == '[' {
                    start = or_here(start, i);
                    brackets += 1;
                } else if c == ']' {
                    brackets -= 1;
                } else if text::is_space_char(Space::Js, c) && depth == 0 && brackets == 0 {
                    if let Some(b) = start {
                        let piece = slice_string(&v, b, i);
                        proof {
                            text::lemma_views_push(out@, piece);
                        }
                        out.push(piece);
                        assert(text::views(out@) =~= before + cut);
                    }
                    start = None;
                } else {
                    start = or_here(start, i);
                }
                assert(text::views(out@) =~= before + cut);
                assert(text::views(out@) + tokens_from(v@, next.0, next.1) =~= before
                    + tokens_from(v@, i as int, st));
                i += 1;
            },
        }
        proof {
            st = next.1;
        }
    }
    if let Some(b) = start {
        let piece = slice_string(&v, b, n);
        proof {
            text::lemma_views_push(out@, piece);
            assert(text::views(out@) + tokens_from(v@, i as int, st) =~= text::views(out@).push(
                piece@,
            ));
        }
        out.push(piece);
    } else {
        assert(text::views(out@) + tokens_from(v@, i as int, st) =~= text::views(out@));
    }
    out
}

fn or_here(start: Option<usize>, i: usize) -> (r: Option<usize>)
    ensures
        r == (match start {
            Some(b) => Some(b),
            None => Some(i),
        }),
{
    match start {
        Some(b) => Some(b),
        None => Some(i),
    }
}

// ------------------------------------------------------------------ atoms

/// The text between quotes from an index on: a backslash keeps the quote or the backslash after it.
pub open spec fn unquoted_from(s: Seq<char>, quote: char, i: int, to: int) -> Seq<char>
    decreases to - i,
{
    if i < 0 || i >= to {
        Seq::empty()
    } else if s[i] == '\\' && i + 1 < to {
        if s[i + 1] == quote || s[i + 1] == '\\' {
            seq![s[i + 1]] + unquoted_from(s, quote, i + 2, to)
        } else {
            seq!['\\', s[i + 1]] + unquoted_from(s, quote, i + 2, to)
        }
    } else {
        seq![s[i]] + unquoted_from(s, quote, i + 1, to)
    }
}

/// The text of a quoted token.
pub open spec fn unquoted(token: Seq<char>) -> Seq<char> {
    if token.len() < 2 {
        Seq::empty()
    } else {
        unquoted_from(token, token[0], 1, token.len() - 1)
    }
}

fn parse_string(v: &Vec<char>) -> (r: String)
    ensures
        r@ == unquoted(v@),
{
    let n: usize = v.len();
    let mut out = String::new();
    if n < 2 {
        assert(out@ =~= Seq::empty());
        return out;
    }
    let quote = v[0];
    let to: usize = n - 1;
    let mut i: usize = 1;
    assert(out@ + unquoted_from(v@, quote, 1, to as int) =~= unquoted(v@));
    while i < to
        invariant
            to < v@.len(),
            i <= to,
            out@ + unquoted_from(v@, quote, i as int, to as int) == unquoted(v@),
        decreases to - i,
    {
        let ghost before = out@;
        let ghost here = unquoted_from(v@, quote, i as int, to as int);
        if v[i] == '\\' && i + 1 < to {
            let c = v[i + 1];
            if !(c == quote || c == '\\') {
                out.push('\\');
            }
            out.push(c);
            assert(before + here =~= out@ + unquoted_from(v@, quote, i as int + 2, to as int));
            i += 2;
        } else {
            out.push(v[i]);
            assert(before + here =~= out@ + unquoted_from(v@, quote, i as int + 1, to as int));
            i += 1;
        }
    }
    assert(out@ + unquoted_from(v@, quote, i as int, to as int) =~= out@);
    out
}

/// The token is a decimal number.
pub open spec fn is_number(t: Seq<char>) -> bool {
    let from = if t.len() > 0 && t[0] == '-' {
        1int
    } else {
        0int
    };
    let k = js::digits_until(t, from);
    let dot = k < t.len() && t[k] == '.';
    let end = if dot {
        js::digits_until(t, k + 1)
    } else {
        k
    };
    end == t.len() && (k > from || end > k + 1)
}

fn digits_end(v: &Vec<char>, from: usize) -> (r: usize)
    requires
        from <= v@.len(),
    ensures
        r == js::digits_until(v@, from as int),
        from <= r <= v@.len(),
{
    let n: usize = v.len();
    let mut i: usize = from;
    while i < n && '0' <= v[i] && v[i] <= '9'
        invariant
            from <= i <= n,
            n == v@.len(),
            js::digits_until(v@, from as int) == js::digits_until(v@, i as int),
        decreases n - i,
    {
        i += 1;
    }
    i
}

fn number_token(v: &Vec<char>) -> (r: bool)
    ensures
        r == is_number(v@),
{
    let n: usize = v.len();
    let from: usize = if n > 0 && v[0] == '-' {
        1
    } else {
        0
    };
    let k: usize = digits_end(v, from);
    let dot = k < n && v[k] == '.';
    let end: usize = if dot {
        digits_end(v, k + 1)
    } else {
        k
    };
    end == n && (k > from || (dot && end > k + 1))
}

/// The index of the sign that divides a name from its value, from an index on: the first `=`
/// outside quotes and brackets.
pub open spec fn equals_from(s: Seq<char>, i: int, quote: Option<char>, depth: int) -> Option<int>
    decreases
        if i < s.len() {
            s.len() - i
        } else {
            0
        },
{
    if i < 0 || i >= s.len() {
        None
    } else {
        let c = s[i];
        match quote {
            Some(q) => if c == '\\' {
                equals_from(s, i + 2, quote, depth)
            } else if c == q {
                equals_from(s, i + 1, None, depth)
            } else {
                equals_from(s, i + 1, quote, depth)
            },
            None => if c == '"' || c == '\'' {
                equals_from(s, i + 1, Some(c), depth)
            } else if c == '(' {
                equals_from(s, i + 1, None, depth + 1)
            } else if c == ')' {
                equals_from(s, i + 1, None, depth - 1)
            } else if c == '=' && depth == 0 {
                Some(i)
            } else {
                equals_from(s, i + 1, None, depth)
            },
        }
    }
}

fn hash_separator(v: &Vec<char>) -> (r: Option<usize>)
    ensures
        match r {
            Some(k) => equals_from(v@, 0, None, 0) == Some(k as int) && k < v@.len(),
            None => equals_from(v@, 0, None, 0) is None,
        },
{
    let n: usize = v.len();
    let mut quote: Option<char> = None;
    let mut depth: i128 = 0;
    let mut i: usize = 0;
    while i < n
        invariant
            n == v@.len(),
            i <= n,
            -(i as int) <= depth <= i,
            equals_from(v@, 0, None, 0) == equals_from(v@, i as int, quote, depth as int),
        decreases n - i,
    {
        let c = v[i];
        match quote {
            Some(q) => {
                if c == '\\' {
                    if i + 1 < n {
                        i += 2;
                    } else {
                        assert(equals_from(v@, i as int + 2, quote, depth as int) is None);
                        i = n;
                    }
                } else {
                    if c == q {
                        quote = None;
                    }
                    i += 1;
                }
            },
            None => {
                if c == '"' || c == '\'' {
                    quote = Some(c);
                } else if c == '(' {
                    depth += 1;
                } else if c == ')' {
                    depth -= 1;
                } else if c == '=' && depth == 0 {
                    return Some(i);
                }
                i += 1;
            },
        }
    }
    None
}

/// What is told of a template that nests too deep.
pub const NESTING_ERROR: &'static str = "Template nesting exceeds 100 levels";

/// The token is quoted.
pub open spec fn is_quoted(t: Seq<char>) -> bool {
    t.len() > 0 && ((t[0] == '"' && t.last() == '"') || (t[0] == '\'' && t.last() == '\''))
}

/// The argument that a token is.
pub open spec fn atom(t: Seq<char>, depth: nat) -> Result<ExprView, Seq<char>>
    decreases (if depth <= 101 { 102 - depth } else { 0 }), 0nat, 0nat,
{
    if t.len() >= 2 && t[0] == '(' && t.last() == ')' {
        if depth >= MAX_NESTING {
            Err(NESTING_ERROR@)
        } else {
            match call_of(t.subrange(1, t.len() - 1), depth + 1) {
                Ok(c) => Ok(ExprView::Call(c)),
                Err(e) => Err(e),
            }
        }
    } else if is_quoted(t) {
        Ok(ExprView::Literal(JsonView::String(unquoted(t))))
    } else if t == "true"@ {
        Ok(ExprView::Literal(JsonView::Bool(true)))
    } else if t == "false"@ {
        Ok(ExprView::Literal(JsonView::Bool(false)))
    } else if t == "null"@ || t == "undefined"@ {
        Ok(ExprView::Literal(JsonView::Null))
    } else if is_number(t) {
        Ok(
            ExprView::Literal(
                js::number_value(js::decimal_number(number::float_parsed(t), t)),
            ),
        )
    } else {
        Ok(ExprView::Path(t))
    }
}

/// The call that tokens from an index on add to.
pub open spec fn call_from(tokens: Seq<Seq<char>>, i: int, call: CallView, depth: nat) -> Result<
    CallView,
    Seq<char>,
>
    decreases
        (if depth <= 101 { 102 - depth } else { 0 }),
        1nat,
        (if i < tokens.len() { tokens.len() - i } else { 0 }),
{
    if i < 0 || i >= tokens.len() {
        Ok(call)
    } else {
        let t = tokens[i];
        match equals_from(t, 0, None, 0) {
            Some(k) => if k > 0 {
                match atom(t.skip(k + 1), depth) {
                    Ok(e) => call_from(
                        tokens,
                        i + 1,
                        CallView { hash: call.hash.push((t.take(k), e)), ..call },
                        depth,
                    ),
                    Err(e) => Err(e),
                }
            } else {
                match atom(t, depth) {
                    Ok(e) => call_from(
                        tokens,
                        i + 1,
                        CallView { args: call.args.push(e), ..call },
                        depth,
                    ),
                    Err(e) => Err(e),
                }
            },
            None => match atom(t, depth) {
                Ok(e) => call_from(
                    tokens,
                    i + 1,
                    CallView { args: call.args.push(e), ..call },
                    depth,
                ),
                Err(e) => Err(e),
            },
        }
    }
}

/// The call that a text spells: a name, then arguments and named arguments.
pub open spec fn call_of(s: Seq<char>, depth: nat) -> Result<CallView, Seq<char>>
    decreases (if depth <= 101 { 102 - depth } else { 0 }), 2nat, 0nat,
{
    if depth > MAX_NESTING {
        Err(NESTING_ERROR@)
    } else {
        let all = tokens(text::trim(Space::Js, s));
        call_from(
            all,
            1,
            CallView {
                name: if all.len() > 0 {
                    all[0]
                } else {
                    Seq::empty()
                },
                args: Seq::empty(),
                hash: Seq::empty(),
            },
            depth,
        )
    }
}

/// A parse result as a view.
pub open spec fn parsed_view<T: View>(r: Result<T, TemplateError>) -> Result<T::V, Seq<char>> {
    match r {
        Ok(x) => Ok(x@),
        Err(e) => Err(e.0@),
    }
}

fn nesting_error() -> (r: TemplateError)
    ensures
        r.0@ == NESTING_ERROR@,
{
    TemplateError(NESTING_ERROR.to_owned())
}

fn parse_atom(token: &str, depth: usize) -> (r: Result<Expr, TemplateError>)
    requires
        depth <= MAX_NESTING,
    ensures
        parsed_view(r) == atom(token@, depth as nat),
    decreases 102 - depth, 0nat, 0nat,
{
    let v = to_chars(token);
    let n: usize = v.len();
    if n >= 2 && v[0] == '(' && v[n - 1] == ')' {
        if depth >= MAX_NESTING {
            return Err(nesting_error());
        }
        let inner = slice_string(&v, 1, n - 1);
        return match parse_call(inner.as_str(), depth + 1) {
            Ok(c) => Ok(Expr::Call(c)),
            Err(e) => Err(e),
        };
    }
    if n > 0 && ((v[0] == '"' && v[n - 1] == '"') || (v[0] == '\'' && v[n - 1] == '\'')) {
        return Ok(Expr::Literal(Json::String(parse_string(&v))));
    }
    if same_text(token, "true") {
        Ok(Expr::Literal(Json::Bool(true)))
    } else if same_text(token, "false") {
        Ok(Expr::Literal(Json::Bool(false)))
    } else if same_text(token, "null") || same_text(token, "undefined") {
        Ok(Expr::Literal(Json::Null))
    } else if number_token(&v) {
        Ok(Expr::Literal(js::number(js::decimal_result(parse_float(token), token))))
    } else {
        Ok(Expr::Path(token.to_owned()))
    }
}

fn add_arg(call: &mut Call, e: Expr)
    ensures
        final(call)@ == (CallView { args: old(call)@.args.push(e@), ..old(call)@ }),
{
    let ghost before = call@.args;
    call.args.push(e);
    assert(call@.args =~= before.push(e@));
}

fn add_hash(call: &mut Call, name: String, e: Expr)
    ensures
        final(call)@ == (CallView { hash: old(call)@.hash.push((name@, e@)), ..old(call)@ }),
{
    let ghost before = call@.hash;
    call.hash.push((name, e));
    assert(call@.hash =~= before.push((name@, e@)));
}

/// Reads a call.
pub fn parse_call(source: &str, depth: usize) -> (r: Result<Call, TemplateError>)
    requires
        depth <= MAX_NESTING + 1,
    ensures
        parsed_view(r) == call_of(source@, depth as nat),
    decreases 102 - depth, 2nat, 0nat,
{
    if depth > MAX_NESTING {
        return Err(nesting_error());
    }
    let all = tokenize(trim_text(Space::Js, source).as_str());
    let ghost toks = text::views(all@);
    let n: usize = all.len();
    let name = if n > 0 {
        all[0].clone()
    } else {
        String::new()
    };
    let mut call = Call { name, args: Vec::new(), hash: Vec::new() };
    assert(call@.args =~= Seq::empty());
    assert(call@.hash =~= Seq::empty());
    assert(call@.name =~= (if toks.len() > 0 {
        toks[0]
    } else {
        Seq::empty()
    }));
    let mut i: usize = 1;
    while i < n
        invariant
            n == all@.len(),
            toks == text::views(all@),
            1 <= i,
            depth <= MAX_NESTING,
            call_of(source@, depth as nat) == call_from(toks, i as int, call@, depth as nat),
        decreases n - i,
    {
        let v = to_chars(all[i].as_str());
        let m: usize = v.len();
        assert(toks[i as int] == all@[i as int]@);
        let cut: Option<usize> = match hash_separator(&v) {
            Some(k) => if k > 0 {
                Some(k)
            } else {
                None
            },
            None => None,
        };
        match cut {
            Some(k) => {
                let name = slice_string(&v, 0, k);
                let value = slice_string(&v, k + 1, m);
                proof {
                    assert(value@ =~= toks[i as int].skip(k + 1));
                    assert(name@ =~= toks[i as int].take(k as int));
                }
                match parse_atom(value.as_str(), depth) {
                    Ok(e) => add_hash(&mut call, name, e),
                    Err(e) => {
                        return Err(e);
                    },
                }
            },
            None => match parse_atom(all[i].as_str(), depth) {
                Ok(e) => add_arg(&mut call, e),
                Err(e) => {
                    return Err(e);
                },
            },
        }
        i += 1;
    }
    Ok(call)
}

// ------------------------------------------------------------------ tags

/// Where the tag that is open at an index ends: the first closing braces outside quotes and
/// brackets.
pub open spec fn tag_end(s: Seq<char>, i: int, close: Seq<char>, quote: Option<char>, depth: int) -> Option<int>
    decreases
        if i < s.len() {
            s.len() - i
        } else {
            0
        },
{
    if i < 0 || i >= s.len() {
        None
    } else {
        let c = s[i];
        match quote {
            Some(q) => if c == '\\' {
                tag_end(s, i + 2, close, quote, depth)
            } else if c == q {
                tag_end(s, i + 1, close, None, depth)
            } else {
                tag_end(s, i + 1, close, quote, depth)
            },
            None => if c == '"' || c == '\'' {
                tag_end(s, i + 1, close, Some(c), depth)
            } else if c == '(' {
                tag_end(s, i + 1, close, None, depth + 1)
            } else if c == ')' {
                tag_end(s, i + 1, close, None, depth - 1)
            } else if depth == 0 && text::stands_at(s, i, close) {
                Some(i)
            } else {
                tag_end(s, i + 1, close, None, depth)
            },
        }
    }
}

proof fn lemma_tag_end(s: Seq<char>, i: int, close: Seq<char>, quote: Option<char>, depth: int)
    requires
        0 <= i,
    ensures
        match tag_end(s, i, close, quote, depth) {
            Some(k) => i <= k && k + close.len() <= s.len(),
            None => true,
        },
    decreases
        if i < s.len() {
            s.len() - i
        } else {
            0
        },
{
    if i < s.len() {
        let c = s[i];
        match quote {
            Some(q) => if c == '\\' {
                lemma_tag_end(s, i + 2, close, quote, depth);
            } else if c == q {
                lemma_tag_end(s, i + 1, close, None, depth);
            } else {
                lemma_tag_end(s, i + 1, close, quote, depth);
            },
            None => if c == '"' || c == '\'' {
                lemma_tag_end(s, i + 1, close, Some(c), depth);
            } else if c == '(' {
                lemma_tag_end(s, i + 1, close, None, depth + 1);
            } else if c == ')' {
                lemma_tag_end(s, i + 1, close, None, depth - 1);
            } else {
                lemma_tag_end(s, i + 1, close, None, depth);
            },
        }
    }
}

/// The braces that close a tag.
pub open spec fn closer(triple: bool) -> Seq<char> {
    if triple {
        "}}}"@
    } else {
        "}}"@
    }
}

fn find_tag_end(v: &Vec<char>, start: usize, triple: bool) -> (r: Option<usize>)
    requires
        start <= v@.len(),
    ensures
        match r {
            Some(k) => tag_end(v@, start as int, closer(triple), None, 0) == Some(k as int) && start
                <= k && k + closer(triple).len() <= v@.len(),
            None => tag_end(v@, start as int, closer(triple), None, 0) is None,
        },
{
    let close = if triple {
        "}}}"
    } else {
        "}}"
    };
    let n: usize = v.len();
    let mut quote: Option<char> = None;
    let mut depth: i128 = 0;
    let mut i: usize = start;
    proof {
        lemma_tag_end(v@, start as int, closer(triple), None, 0);
    }
    while i < n
        invariant
            n == v@.len(),
            start <= i <= n,
            close@ == closer(triple),
            -(i as int) <= depth <= i,
            tag_end(v@, start as int, closer(triple), None, 0) == tag_end(
                v@,
                i as int,
                closer(triple),
                quote,
                depth as int,
            ),
        decreases n - i,
    {
        let c = v[i];
        match quote {
            Some(q) => {
                if c == '\\' {
                    if i + 1 < n {
                        i += 2;
                    } else {
                        assert(tag_end(
                            v@,
                            i as int + 2,
                            closer(triple),
                            quote,
                            depth as int,
                        ) is None);
                        i = n;
                    }
                } else {
                    if c == q {
                        quote = None;
                    }
                    i += 1;
                }
            },
            None => {
                if c == '"' || c == '\'' {
                    quote = Some(c);
                } else if c == '(' {
                    depth += 1;
                } else if c == ')' {
                    depth -= 1;
                } else if depth == 0 && is_at(v, i, close) {
                    return Some(i);
                }
                i += 1;
            },
        }
    }
    None
}

// ------------------------------------------------------------------ blocks

/// A block that is open.
pub struct Open {
    pub call: Call,
    pub body: Vec<Node>,
    pub inverse: Vec<Node>,
    /// The part after `else` is being read.
    pub in_inverse: bool,
    pub inverted: bool,
    /// It was opened by an `else` and closes together with its parent.
    pub chained: bool,
}

/// What an [`Open`] stands for.
pub struct OpenView {
    pub call: CallView,
    pub body: Seq<NodeView>,
    pub inverse: Seq<NodeView>,
    pub in_inverse: bool,
    pub inverted: bool,
    pub chained: bool,
}

impl View for Open {
    type V = OpenView;

    open spec fn view(&self) -> OpenView {
        OpenView {
            call: self.call@,
            body: nodes_view(self.body),
            inverse: nodes_view(self.inverse),
            in_inverse: self.in_inverse,
            inverted: self.inverted,
            chained: self.chained,
        }
    }
}

/// A template that is being read.
pub struct Parsing {
    pub root: Vec<Node>,
    pub stack: Vec<Open>,
}

/// What a [`Parsing`] stands for.
pub struct ParsingView {
    pub root: Seq<NodeView>,
    pub stack: Seq<OpenView>,
}

impl View for Parsing {
    type V = ParsingView;

    open spec fn view(&self) -> ParsingView {
        ParsingView { root: nodes_view(self.root), stack: text::views(self.stack@) }
    }
}

/// A piece goes into the innermost open block.
pub open spec fn with_node(st: ParsingView, node: NodeView) -> ParsingView {
    if st.stack.len() == 0 {
        ParsingView { root: st.root.push(node), ..st }
    } else {
        let open = st.stack.last();
        ParsingView {
            stack: st.stack.drop_last().push(
                if open.in_inverse {
                    OpenView { inverse: open.inverse.push(node), ..open }
                } else {
                    OpenView { body: open.body.push(node), ..open }
                },
            ),
            ..st
        }
    }
}

/// The innermost open block closes.
pub open spec fn with_closed(st: ParsingView) -> ParsingView {
    if st.stack.len() == 0 {
        st
    } else {
        let open = st.stack.last();
        with_node(
            ParsingView { stack: st.stack.drop_last(), ..st },
            if open.inverted {
                NodeView::Block { call: open.call, body: open.inverse, inverse: open.body }
            } else {
                NodeView::Block { call: open.call, body: open.body, inverse: open.inverse }
            },
        )
    }
}

/// The blocks that an `else` opened close.
pub open spec fn with_chain_closed(st: ParsingView) -> ParsingView
    decreases st.stack.len(),
{
    if st.stack.len() > 0 && st.stack.last().chained {
        with_chain_closed(with_closed(st))
    } else {
        st
    }
}

/// A block opens.
pub open spec fn with_open(st: ParsingView, source: Seq<char>, inverted: bool, chained: bool) -> Result<
    ParsingView,
    Seq<char>,
> {
    if st.stack.len() >= MAX_NESTING {
        Err(NESTING_ERROR@)
    } else {
        match call_of(source, 0) {
            Ok(call) => Ok(
                ParsingView {
                    stack: st.stack.push(
                        OpenView {
                            call,
                            body: Seq::empty(),
                            inverse: Seq::empty(),
                            in_inverse: false,
                            inverted,
                            chained,
                        },
                    ),
                    ..st
                },
            ),
            Err(e) => Err(e),
        }
    }
}

/// The innermost open block goes on with its other part.
pub open spec fn with_else(st: ParsingView) -> ParsingView {
    ParsingView {
        stack: st.stack.drop_last().push(OpenView { in_inverse: true, ..st.stack.last() }),
        ..st
    }
}

/// A tag was read: its text without the braces and the white space around it.
pub open spec fn with_tag(st: ParsingView, raw: Seq<char>, triple: bool) -> Result<
    ParsingView,
    Seq<char>,
> {
    if raw.len() == 0 || raw[0] == '!' {
        Ok(st)
    } else if raw == "else"@ || text::stands_at(raw, 0, "else "@) {
        if st.stack.len() == 0 {
            Err("Parse error: unexpected else"@)
        } else if raw.len() > 4 {
            with_open(with_else(st), raw.skip(5), false, true)
        } else {
            Ok(with_else(st))
        }
    } else if raw[0] == '#' || raw[0] == '^' {
        with_open(st, raw.skip(1), raw[0] == '^', false)
    } else if raw[0] == '/' {
        let s = with_chain_closed(st);
        if s.stack.len() > 0 && s.stack.last().call.name == text::trim(Space::Js, raw.skip(1)) {
            Ok(with_closed(s))
        } else {
            Err("Parse error: mismatched "@ + raw)
        }
    } else if raw[0] == '>' {
        match call_of(raw.skip(1), 0) {
            Ok(call) => Ok(with_node(st, NodeView::Partial(call))),
            Err(e) => Err(e),
        }
    } else {
        let amp = raw[0] == '&';
        match call_of(
            if amp {
                raw.skip(1)
            } else {
                raw
            },
            0,
        ) {
            Ok(call) => Ok(with_node(st, NodeView::Output { call, escaped: !triple && !amp })),
            Err(e) => Err(e),
        }
    }
}

/// One tag is read, with the text before it: where reading goes on, and what was read.
pub open spec fn parse_step(s: Seq<char>, cursor: int, st: ParsingView) -> Result<
    (int, ParsingView),
    Seq<char>,
> {
    match text::find_text(s, "{{"@, cursor) {
        None => Ok((s.len() as int, with_node(st, NodeView::Text(s.skip(cursor))))),
        Some(open) => {
            let st = if open > cursor {
                with_node(st, NodeView::Text(s.subrange(cursor, open)))
            } else {
                st
            };
            if text::stands_at(s, open, "{{!--"@) {
                match text::find_text(s, "--}}"@, open + 6) {
                    Some(end) => Ok((end + 4, st)),
                    None => Err("Parse error: unclosed comment"@),
                }
            } else {
                let triple = text::stands_at(s, open, "{{{"@);
                let width = closer(triple).len();
                match tag_end(s, open + width, closer(triple), None, 0) {
                    None => Err("Parse error: unclosed template expression"@),
                    Some(end) => match with_tag(
                        st,
                        text::trim(Space::Js, s.subrange(open + width, end)),
                        triple,
                    ) {
                        Ok(after) => Ok((end + width, after)),
                        Err(e) => Err(e),
                    },
                }
            }
        },
    }
}

/// The innermost block that was not opened by an `else`.
pub open spec fn last_unchained(stack: Seq<OpenView>) -> Option<OpenView>
    decreases stack.len(),
{
    if stack.len() == 0 {
        None
    } else if !stack.last().chained {
        Some(stack.last())
    } else {
        last_unchained(stack.drop_last())
    }
}

/// The template after its last tag.
pub open spec fn parse_end(st: ParsingView) -> Result<Seq<NodeView>, Seq<char>> {
    if st.stack.len() == 0 {
        Ok(st.root)
    } else {
        Err(
            "Parse error: unclosed block "@ + (match last_unchained(st.stack) {
                Some(open) => open.call.name,
                None => st.stack.last().call.name,
            }),
        )
    }
}

proof fn lemma_parse_step(s: Seq<char>, cursor: int, st: ParsingView)
    requires
        0 <= cursor < s.len(),
    ensures
        match parse_step(s, cursor, st) {
            Ok(next) => cursor < next.0 <= s.len(),
            Err(_) => true,
        },
{
    reveal_strlit("{{");
    reveal_strlit("}}");
    reveal_strlit("}}}");
    reveal_strlit("--}}");
    text::lemma_find_text(s, "{{"@, cursor);
    match text::find_text(s, "{{"@, cursor) {
        Some(open) => {
            text::lemma_find_text(s, "--}}"@, open + 6);
            let triple = text::stands_at(s, open, "{{{"@);
            let width = closer(triple).len();
            lemma_tag_end(s, open + width, closer(triple), None, 0);
        },
        None => {},
    }
}

/// The template from an index on.
pub open spec fn parse_from(s: Seq<char>, cursor: int, st: ParsingView) -> Result<
    Seq<NodeView>,
    Seq<char>,
>
    decreases s.len() - cursor,
    via parse_from_ends
{
    if 0 <= cursor < s.len() {
        match parse_step(s, cursor, st) {
            Ok(next) => parse_from(s, next.0, next.1),
            Err(e) => Err(e),
        }
    } else {
        parse_end(st)
    }
}

#[via_fn]
proof fn parse_from_ends(s: Seq<char>, cursor: int, st: ParsingView) {
    if 0 <= cursor < s.len() {
        lemma_parse_step(s, cursor, st);
    }
}

/// Nothing is read yet.
pub open spec fn parse_start() -> ParsingView {
    ParsingView { root: Seq::empty(), stack: Seq::empty() }
}

/// The pieces of a template.
pub open spec fn template_of(source: Seq<char>) -> Result<Seq<NodeView>, Seq<char>> {
    parse_from(stripped(source), 0, parse_start())
}

fn push_node(list: &mut Vec<Node>, node: Node)
    ensures
        nodes_view(*final(list)) == nodes_view(*old(list)).push(node@),
{
    let ghost before = nodes_view(*list);
    list.push(node);
    assert(nodes_view(*list) =~= before.push(node@));
}

impl Parsing {
    fn add_node(&mut self, node: Node)
        ensures
            final(self)@ == with_node(old(self)@, node@),
    {
        let ghost before = self@;
        if self.stack.len() == 0 {
            push_node(&mut self.root, node);
        } else {
            let ghost all = self.stack@;
            let mut open = self.stack.pop().unwrap();
            proof {
                assert(text::views(all).last() == all.last()@);
                assert(text::views(self.stack@) =~= text::views(all).drop_last());
            }
            if open.in_inverse {
                push_node(&mut open.inverse, node);
            } else {
                push_node(&mut open.body, node);
            }
            proof {
                text::lemma_views_push(self.stack@, open);
            }
            self.stack.push(open);
        }
    }

    fn close(&mut self)
        ensures
            final(self)@ == with_closed(old(self)@),
    {
        if self.stack.len() == 0 {
            return;
        }
        let ghost all = self.stack@;
        let open = self.stack.pop().unwrap();
        proof {
            assert(text::views(all).last() == all.last()@);
            assert(text::views(self.stack@) =~= text::views(all).drop_last());
        }
        let node = if open.inverted {
            Node::Block { call: open.call, body: open.inverse, inverse: open.body }
        } else {
            Node::Block { call: open.call, body: open.body, inverse: open.inverse }
        };
        self.add_node(node);
    }

    fn close_chain(&mut self)
        ensures
            final(self)@ == with_chain_closed(old(self)@),
    {
        let ghost start = self@;
        let mut n: usize = self.stack.len();
        while n > 0 && self.stack[n - 1].chained
            invariant
                n == self.stack@.len(),
                with_chain_closed(start) == with_chain_closed(self@),
            decreases n,
        {
            assert(self@.stack.last() == self.stack@[n - 1]@);
            self.close();
            assert(self@.stack.len() == n - 1);
            n -= 1;
        }
        assert(n > 0 ==> self@.stack.last() == self.stack@[n - 1]@);
    }

    fn open(&mut self, source: &str, inverted: bool, chained: bool) -> (r: Result<(), TemplateError>)
        ensures
            match with_open(old(self)@, source@, inverted, chained) {
                Ok(st) => r is Ok && final(self)@ == st,
                Err(e) => r matches Err(told) && told.0@ == e,
            },
    {
        if self.stack.len() >= MAX_NESTING {
            return Err(nesting_error());
        }
        match parse_call(source, 0) {
            Ok(call) => {
                let open = Open {
                    call,
                    body: Vec::new(),
                    inverse: Vec::new(),
                    in_inverse: false,
                    inverted,
                    chained,
                };
                proof {
                    assert(open@.body =~= Seq::empty());
                    assert(open@.inverse =~= Seq::empty());
                    text::lemma_views_push(self.stack@, open);
                }
                self.stack.push(open);
                Ok(())
            },
            Err(e) => Err(e),
        }
    }

    fn turn(&mut self)
        requires
            old(self)@.stack.len() > 0,
        ensures
            final(self)@ == with_else(old(self)@),
    {
        let ghost all = self.stack@;
        let mut open = self.stack.pop().unwrap();
        proof {
            assert(text::views(all).last() == all.last()@);
            assert(text::views(self.stack@) =~= text::views(all).drop_last());
        }
        open.in_inverse = true;
        proof {
            text::lemma_views_push(self.stack@, open);
        }
        self.stack.push(open);
    }

    fn tag(&mut self, raw: &str, triple: bool) -> (r: Result<(), TemplateError>)
        ensures
            match with_tag(old(self)@, raw@, triple) {
                Ok(st) => r is Ok && final(self)@ == st,
                Err(e) => r matches Err(told) && told.0@ == e,
            },
    {
        let v = to_chars(raw);
        let n: usize = v.len();
        if n == 0 || v[0] == '!' {
            return Ok(());
        }
        proof {
            reveal_strlit("else ");
            reveal_strlit("else");
        }
        let rest = slice_string(&v, 1, n);
        assert(rest@ =~= raw@.skip(1));
        if same_text(raw, "else") || is_at(&v, 0, "else ") {
            if self.stack.len() == 0 {
                return Err(TemplateError("Parse error: unexpected else".to_owned()));
            }
            self.turn();
            if n > 4 {
                let call = slice_string(&v, 5, n);
                assert(call@ =~= raw@.skip(5));
                return self.open(call.as_str(), false, true);
            }
            return Ok(());
        }
        if v[0] == '#' || v[0] == '^' {
            return self.open(rest.as_str(), v[0] == '^', false);
        }
        if v[0] == '/' {
            self.close_chain();
            let name = trim_text(Space::Js, rest.as_str());
            let m: usize = self.stack.len();
            assert(m > 0 ==> self@.stack.last() == self.stack@[m - 1]@);
            if m > 0 && same_text(self.stack[m - 1].call.name.as_str(), name.as_str()) {
                self.close();
                return Ok(());
            }
            return Err(TemplateError(concat("Parse error: mismatched ", raw)));
        }
        if v[0] == '>' {
            return match parse_call(rest.as_str(), 0) {
                Ok(call) => {
                    self.add_node(Node::Partial(call));
                    Ok(())
                },
                Err(e) => Err(e),
            };
        }
        let amp = v[0] == '&';
        let source = if amp {
            rest.as_str()
        } else {
            raw
        };
        match parse_call(source, 0) {
            Ok(call) => {
                self.add_node(Node::Output { call, escaped: !triple && !amp });
                Ok(())
            },
            Err(e) => Err(e),
        }
    }

    fn step(&mut self, v: &Vec<char>, cursor: usize) -> (r: Result<usize, TemplateError>)
        requires
            cursor < v@.len(),
        ensures
            match parse_step(v@, cursor as int, old(self)@) {
                Ok(next) => r matches Ok(to) && to == next.0 && final(self)@ == next.1,
                Err(e) => r matches Err(told) && told.0@ == e,
            },
            r is Ok ==> cursor < r.unwrap() <= v@.len(),
    {
        proof {
            reveal_strlit("{{");
            reveal_strlit("}}");
            reveal_strlit("}}}");
            reveal_strlit("{{{");
            reveal_strlit("--}}");
            reveal_strlit("{{!--");
            lemma_parse_step(v@, cursor as int, self@);
        }
        let n: usize = v.len();
        match find_text_at(v, "{{", cursor) {
            None => {
                let rest = slice_string(v, cursor, n);
                assert(rest@ =~= v@.skip(cursor as int));
                self.add_node(Node::Text(rest));
                Ok(n)
            },
            Some(open) => {
                if open > cursor {
                    self.add_node(Node::Text(slice_string(v, cursor, open)));
                }
                if is_at(v, open, "{{!--") {
                    if n - open < 6 {
                        assert(text::find_text(v@, "--}}"@, open + 6) is None);
                        return Err(TemplateError("Parse error: unclosed comment".to_owned()));
                    }
                    return match find_text_at(v, "--}}", open + 6) {
                        Some(end) => Ok(end + 4),
                        None => Err(TemplateError("Parse error: unclosed comment".to_owned())),
                    };
                }
                let triple = is_at(v, open, "{{{");
                let width: usize = if triple {
                    3
                } else {
                    2
                };
                match find_tag_end(v, open + width, triple) {
                    None => Err(
                        TemplateError("Parse error: unclosed template expression".to_owned()),
                    ),
                    Some(end) => {
                        let inner = slice_string(v, open + width, end);
                        let raw = trim_text(Space::Js, inner.as_str());
                        match self.tag(raw.as_str(), triple) {
                            Ok(_) => Ok(end + width),
                            Err(e) => Err(e),
                        }
                    },
                }
            },
        }
    }

    fn unclosed(&self) -> (r: &str)
        requires
            self@.stack.len() > 0,
        ensures
            r@ == (match last_unchained(self@.stack) {
                Some(open) => open.call.name,
                None => self@.stack.last().call.name,
            }),
    {
        let ghost all = self@.stack;
        let m: usize = self.stack.len();
        let mut i: usize = m;
        assert(all.take(m as int) =~= all);
        while i > 0
            invariant
                i <= m,
                m == self.stack@.len(),
                all == text::views(self.stack@),
                last_unchained(all) == last_unchained(all.take(i as int)),
            decreases i,
        {
            assert(all.take(i as int).last() == self.stack@[i - 1]@);
            assert(all.take(i as int).drop_last() =~= all.take(i - 1));
            if !self.stack[i - 1].chained {
                return self.stack[i - 1].call.name.as_str();
            }
            i -= 1;
        }
        assert(all.last() == self.stack@[m - 1]@);
        self.stack[m - 1].call.name.as_str()
    }
}

/// Reads a template.
pub fn parse_template(source: &str) -> (r: Result<Vec<Node>, TemplateError>)
    ensures
        match parse_from(source@, 0, parse_start()) {
            Ok(nodes) => r matches Ok(list) && nodes_view(list) == nodes,
            Err(e) => r matches Err(told) && told.0@ == e,
        },
{
    let v = to_chars(source);
    let n: usize = v.len();
    let mut st = Parsing { root: Vec::new(), stack: Vec::new() };
    assert(st@.root =~= Seq::empty());
    assert(st@.stack =~= Seq::empty());
    let mut cursor: usize = 0;
    while cursor < n
        invariant
            v@ == source@,
            n == v@.len(),
            cursor <= n,
            parse_from(v@, 0, parse_start()) == parse_from(v@, cursor as int, st@),
        decreases n - cursor,
    {
        match st.step(&v, cursor) {
            Ok(next) => {
                cursor = next;
            },
            Err(e) => {
                return Err(e);
            },
        }
    }
    if st.stack.len() > 0 {
        let name = st.unclosed();
        return Err(TemplateError(concat("Parse error: unclosed block ", name)));
    }
    Ok(st.root)
}

} // verus!
