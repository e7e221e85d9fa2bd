//! Rendering templates.
//!
//! Nesting of blocks, calls inside calls and partials is capped at
//! [`MAX_NESTING`](crate::template_parse::MAX_NESTING) levels. A partial sees the built-in blocks
//! only: neither helpers nor other partials.
use crate::js;
use crate::json;
use crate::json::{Entries, Json, JsonObject, JsonView, Number, NumberView};
use crate::number;
use crate::number::{is_equal, is_less};
use crate::template_parse;
use crate::template_parse::{
    parse_template, strip_standalone, Call, CallView, Expr, ExprView, Node, NodeView,
    TemplateError, MAX_NESTING, NESTING_ERROR,
};
use crate::text;
use crate::text::{
    concat, digits_between, is_at, join_strings, parse_unsigned, replace_text, same_text,
    slice_string, split_text, to_chars, trim_text, Space,
};
use vstd::prelude::*;

verus! {

// ------------------------------------------------------------------ paths

/// The index of a part's first character, or of the character after an opening bracket.
pub open spec fn parts_from(s: Seq<char>, i: int, start: int, bracket: Option<int>) -> Seq<Seq<char>>
    decreases s.len() - i + 1,
{
    if i < 0 || i > s.len() {
        Seq::empty()
    } else if i == s.len() {
        if bracket is None && i > start {
            seq![s.subrange(start, i)]
        } else {
            Seq::empty()
        }
    } else {
        match bracket {
            None => if s[i] == '[' {
                let piece = if i > start {
                    seq![s.subrange(start, i)]
                } else {
                    Seq::empty()
                };
                piece + parts_from(s, i + 1, start, Some(i + 1))
            } else if s[i] == '.' || s[i] == '/' {
                let piece = if i > start {
                    seq![s.subrange(start, i)]
                } else {
                    Seq::empty()
                };
                piece + parts_from(s, i + 1, i + 1, None)
            } else {
                parts_from(s, i + 1, start, None)
            },
            Some(b) => if s[i] == ']' {
                let piece = if i > b {
                    seq![s.subrange(b, i)]
                } else {
                    Seq::empty()
                };
                piece + parts_from(s, i + 1, i + 1, None)
            } else {
                parts_from(s, i + 1, start, bracket)
            },
        }
    }
}

/// The parts of a path: dots and slashes divide them, and what stands in square brackets is one.
pub open spec fn parts(s: Seq<char>) -> Seq<Seq<char>> {
    parts_from(s, 0, 0, None)
}

/// The parts of a path.
pub fn path_parts(path: &str) -> (r: Vec<String>)
    ensures
        text::views(r@) == parts(path@),
{
    let v = to_chars(path);
    let n: usize = v.len();
    let mut out: Vec<String> = Vec::new();
    let mut start: usize = 0;
    let mut bracket: Option<usize> = None;
    let mut i: usize = 0;
    let ghost mut b: Option<int> = None;
    assert(text::views(out@) + parts_from(v@, 0, 0, None) =~= parts(v@));
    while i < n
        invariant
            v@ == path@,
            n == v@.len(),
            i <= n,
            start <= i,
            b == (match bracket {
                Some(k) => Some(k as int),
                None => None,
            }),
            bracket is Some ==> bracket.unwrap() <= i,
            text::views(out@) + parts_from(v@, i as int, start as int, b) == parts(v@),
        decreases n - i,
    {
        let c = v[i];
        let ghost before = text::views(out@);
        let ghost here = parts_from(v@, i as int, start as int, b);
        match bracket {
            None => {
                if c == '[' || c == '.' || c == '/' {
                    if i > start {
                        let piece = slice_string(&v, start, i);
                        proof {
                            text::lemma_views_push(out@, piece);
                        }
                        out.push(piece);
                    }
                    if c == '[' {
                        bracket = Some(i + 1);
                    } else {
                        start = i + 1;
                    }
                }
            },
            Some(k) => {
                if c == ']' {
                    if i > k {
                        let piece = slice_string(&v, k, i);
                        proof {
                            text::lemma_views_push(out@, piece);
                        }
                        out.push(piece);
                    }
                    start = i + 1;
                    bracket = None;
                }
            },
        }
        i += 1;
        proof {
            b = match bracket {
                Some(k) => Some(k as int),
                None => None,
            };
            assert(before + here =~= text::views(out@) + parts_from(v@, i as int, start as int, b));
        }
    }
    if bracket.is_none() && n > start {
        let piece = slice_string(&v, start, n);
        proof {
            text::lemma_views_push(out@, piece);
            assert(text::views(out@) + parts_from(v@, n as int, start as int, b) =~= text::views(
                out@,
            ).push(piece@));
        }
        out.push(piece);
    } else {
        assert(text::views(out@) + parts_from(v@, n as int, start as int, b) =~= text::views(out@));
    }
    out
}

/// The place in an array that a key names.
pub open spec fn place_of(key: Seq<char>, len: int) -> Option<int> {
    if text::is_digits(key) && (key.len() == 1 || key[0] != '0') && text::digits_value(key) < len {
        Some(text::digits_value(key))
    } else {
        None
    }
}

/// A length as a value.
pub open spec fn length_value(n: int) -> JsonView {
    JsonView::Number(NumberView::PosInt(n as u64))
}

/// The property of a value under a key, its own only; `null` where there is none.
pub open spec fn property_of(v: JsonView, key: Seq<char>) -> JsonView {
    match v {
        JsonView::String(s) => if key == "length"@ {
            length_value(js::utf16(s).len() as int)
        } else {
            JsonView::Null
        },
        JsonView::Array(items) => if key == "length"@ {
            length_value(items.len() as int)
        } else {
            match place_of(key, items.len() as int) {
                Some(i) => items[i],
                None => JsonView::Null,
            }
        },
        JsonView::Object(o) => if key == "__proto__"@ || key == "prototype"@ || key
            == "constructor"@ {
            JsonView::Null
        } else {
            match json::lookup(o, key) {
                Some(x) => x,
                None => JsonView::Null,
            }
        },
        _ => JsonView::Null,
    }
}

/// The property of a value under a key.
pub fn property(v: &Json, key: &str) -> (r: Json)
    ensures
        r@ == property_of(v@, key@),
{
    match v {
        Json::String(s) => if same_text(key, "length") {
            Json::Number(Number::PosInt(js::utf16_len(s.as_str()) as u64))
        } else {
            Json::Null
        },
        Json::Array(items) => {
            proof {
                json::lemma_values_view(*items);
            }
            if same_text(key, "length") {
                return Json::Number(Number::PosInt(items.len() as u64));
            }
            let k = to_chars(key);
            let n: usize = k.len();
            let m: usize = items.len();
            assert(k@.subrange(0, n as int) =~= k@);
            match digits_between(&k, 0, n) {
                Some(i) => if (n == 1 || k[0] != '0') && i < m as u64 {
                    items[i as usize].clone()
                } else {
                    Json::Null
                },
                None => Json::Null,
            }
        },
        Json::Object(o) => if same_text(key, "__proto__") || same_text(key, "prototype")
            || same_text(key, "constructor") {
            Json::Null
        } else {
            match o.get(key) {
                Some(x) => x.clone(),
                None => Json::Null,
            }
        },
        _ => Json::Null,
    }
}

/// The value that the parts lead to, from an index on.
pub open spec fn walked(v: JsonView, parts: Seq<Seq<char>>, i: int) -> JsonView
    decreases parts.len() - i,
{
    if i < 0 || i >= parts.len() {
        v
    } else {
        walked(property_of(v, parts[i]), parts, i + 1)
    }
}

fn walk(v: &Json, parts: &Vec<String>, from: usize) -> (r: Json)
    ensures
        r@ == walked(v@, text::views(parts@), from as int),
{
    let mut at = v.clone();
    let mut i: usize = from;
    while i < parts.len()
        invariant
            from <= i,
            walked(v@, text::views(parts@), from as int) == walked(
                at@,
                text::views(parts@),
                i as int,
            ),
        decreases parts@.len() - i,
    {
        assert(text::views(parts@)[i as int] == parts@[i as int]@);
        at = property(&at, parts[i].as_str());
        i += 1;
    }
    at
}

/// Where a template is being rendered.
pub struct Frame<'a> {
    pub context: Json,
    pub parent: Option<&'a Frame<'a>>,
    pub root: &'a Json,
    /// What a loop knows of its turn.
    pub data: JsonObject,
}

/// What a [`Frame`] stands for.
pub struct FrameView {
    pub context: JsonView,
    pub parent: Option<Box<FrameView>>,
    pub root: JsonView,
    pub data: Entries,
}

impl<'a> View for Frame<'a> {
    type V = FrameView;

    open spec fn view(&self) -> FrameView
        decreases self,
    {
        FrameView {
            context: self.context@,
            parent: match self.parent {
                Some(p) => Some(Box::new(p.view())),
                None => None,
            },
            root: self.root@,
            data: self.data@,
        }
    }
}

/// A frame inside another, with its own context.
pub open spec fn inside(f: FrameView, context: JsonView, data: Entries) -> FrameView {
    FrameView { context, parent: Some(Box::new(f)), root: f.root, data }
}

fn enter<'a>(f: &'a Frame<'a>, context: Json, data: JsonObject) -> (r: Frame<'a>)
    ensures
        r@ == inside(f@, context@, data@),
{
    Frame { context, parent: Some(f), root: f.root, data }
}

/// The path without its steps up, and the frame that they lead to.
pub open spec fn climbed(path: Seq<char>, f: FrameView) -> (Seq<char>, FrameView)
    decreases path.len(),
{
    if path.len() >= 3 && text::stands_at(path, 0, "../"@) {
        climbed(
            path.skip(3),
            match f.parent {
                Some(p) => *p,
                None => f,
            },
        )
    } else {
        (path, f)
    }
}

/// The path names the context itself.
pub open spec fn is_this(path: Seq<char>) -> bool {
    path == "this"@ || path == "."@
}

/// The value that a path without steps up names in a frame.
pub open spec fn resolved_in(path: Seq<char>, f: FrameView) -> JsonView {
    if is_this(path) {
        f.context
    } else {
        let p = if text::stands_at(path, 0, "this."@) {
            path.skip(5)
        } else {
            path
        };
        if p == "@root"@ {
            f.root
        } else if text::stands_at(p, 0, "@root."@) {
            walked(f.root, parts(p.skip(6)), 0)
        } else if p.len() > 0 && p[0] == '@' {
            let names = parts(p.skip(1));
            if names.len() == 0 {
                JsonView::Null
            } else {
                match json::lookup(f.data, names[0]) {
                    Some(v) => walked(v, names, 1),
                    None => JsonView::Null,
                }
            }
        } else {
            walked(f.context, parts(p), 0)
        }
    }
}

/// The value that a path names.
pub open spec fn resolved(path: Seq<char>, f: FrameView) -> JsonView {
    let c = climbed(path, f);
    resolved_in(c.0, c.1)
}

fn resolve_in(v: &Vec<char>, from: usize, f: &Frame) -> (r: Json)
    requires
        from <= v@.len(),
    ensures
        r@ == resolved_in(v@.skip(from as int), f@),
{
    let n: usize = v.len();
    let path = slice_string(v, from, n);
    let ghost p0 = v@.skip(from as int);
    assert(path@ =~= p0);
    if same_text(path.as_str(), "this") || same_text(path.as_str(), ".") {
        return f.context.clone();
    }
    proof {
        reveal_strlit("this.");
        reveal_strlit("@root.");
    }
    let all = to_chars(path.as_str());
    let m: usize = all.len();
    let p = if is_at(&all, 0, "this.") {
        slice_string(&all, 5, m)
    } else {
        path
    };
    let ghost q = if text::stands_at(p0, 0, "this."@) {
        p0.skip(5)
    } else {
        p0
    };
    assert(p@ =~= q);
    let w = to_chars(p.as_str());
    let k: usize = w.len();
    if same_text(p.as_str(), "@root") {
        return f.root.clone();
    }
    if is_at(&w, 0, "@root.") {
        let rest = slice_string(&w, 6, k);
        assert(rest@ =~= q.skip(6));
        let names = path_parts(rest.as_str());
        return walk(f.root, &names, 0);
    }
    if k > 0 && w[0] == '@' {
        let rest = slice_string(&w, 1, k);
        assert(rest@ =~= q.skip(1));
        let names = path_parts(rest.as_str());
        if names.len() == 0 {
            return Json::Null;
        }
        assert(text::views(names@)[0] == names@[0]@);
        return match f.data.get(names[0].as_str()) {
            Some(start) => walk(start, &names, 1),
            None => Json::Null,
        };
    }
    let names = path_parts(p.as_str());
    walk(&f.context, &names, 0)
}

fn resolve_path<'a>(path: &str, f: &'a Frame<'a>) -> (r: Json)
    ensures
        r@ == resolved(path@, f@),
{
    let v = to_chars(path);
    let n: usize = v.len();
    let mut at: &'a Frame<'a> = f;
    let mut from: usize = 0;
    proof {
        reveal_strlit("../");
        assert(v@.skip(0) =~= v@);
    }
    while is_at(&v, from, "../")
        invariant
            v@ == path@,
            n == v@.len(),
            from <= n,
            "../"@.len() == 3,
            climbed(path@, f@) == climbed(v@.skip(from as int), at@),
        decreases n - from,
    {
        proof {
            let rest = v@.skip(from as int);
            assert(rest.subrange(0, 3) =~= v@.subrange(from as int, from + 3));
            assert(rest.skip(3) =~= v@.skip(from + 3));
        }
        if let Some(p) = at.parent {
            at = p;
        }
        from += 3;
    }
    proof {
        let rest = v@.skip(from as int);
        if rest.len() >= 3 && text::stands_at(rest, 0, "../"@) {
            assert(rest.subrange(0, 3) =~= v@.subrange(from as int, from + 3));
        }
    }
    resolve_in(&v, from, at)
}

// ------------------------------------------------------------------ values as text

/// Whether a block is rendered for a value: an empty list counts as false, zero as asked.
pub open spec fn counts(v: JsonView, include_zero: bool) -> bool {
    match v {
        JsonView::Number(n) => if number::float_equal(n, js::zero()) {
            include_zero
        } else {
            js::is_truthy(v)
        },
        JsonView::Array(items) => items.len() > 0,
        _ => js::is_truthy(v),
    }
}

fn conditional_truthy(v: &Json, include_zero: bool) -> (r: bool)
    ensures
        r == counts(v@, include_zero),
{
    match v {
        Json::Number(n) => if is_equal(n, &Number::PosInt(0)) {
            include_zero
        } else {
            js::truthy(v)
        },
        Json::Array(items) => {
            proof {
                json::lemma_values_view(*items);
            }
            items.len() > 0
        },
        _ => js::truthy(v),
    }
}

/// A character as HTML shows it.
pub open spec fn entity(c: char) -> Seq<char> {
    if c == '&' {
        "&amp;"@
    } else if c == '<' {
        "&lt;"@
    } else if c == '>' {
        "&gt;"@
    } else if c == '"' {
        "&quot;"@
    } else if c == '\'' {
        "&#x27;"@
    } else if c == '`' {
        "&#x60;"@
    } else if c == '=' {
        "&#x3D;"@
    } else {
        seq![c]
    }
}

/// A text as HTML shows it.
pub open spec fn escaped(s: Seq<char>) -> Seq<char>
    decreases s.len(),
{
    if s.len() == 0 {
        Seq::empty()
    } else {
        escaped(s.drop_last()) + entity(s.last())
    }
}

fn push_entity(out: &mut String, c: char)
    ensures
        final(out)@ == old(out)@ + entity(c),
{
    let ghost before = out@;
    if c == '&' {
        out.append("&amp;");
    } else if c == '<' {
        out.append("&lt;");
    } else if c == '>' {
        out.append("&gt;");
    } else if c == '"' {
        out.append("&quot;");
    } else if c == '\'' {
        out.append("&#x27;");
    } else if c == '`' {
        out.append("&#x60;");
    } else if c == '=' {
        out.append("&#x3D;");
    } else {
        out.push(c);
        assert(out@ =~= before + entity(c));
    }
}

/// A text as HTML shows it.
pub fn escape_expression(s: &str) -> (r: String)
    ensures
        r@ == escaped(s@),
{
    let v = to_chars(s);
    let mut out = String::new();
    let mut i: usize = 0;
    assert(out@ =~= escaped(v@.take(0)));
    while i < v.len()
        invariant
            i <= v@.len(),
            out@ == escaped(v@.take(i as int)),
        decreases v@.len() - i,
    {
        assert(v@.take(i as int + 1).drop_last() =~= v@.take(i as int));
        push_entity(&mut out, v[i]);
        i += 1;
    }
    assert(v@.take(i as int) =~= v@);
    out
}

/// A character that means something in HTML.
pub open spec fn is_special(c: char) -> bool {
    c == '<' || c == '>' || c == '"' || c == '\'' || c == '`' || c == '='
}

proof fn lemma_entity_is_plain(c: char, i: int)
    requires
        0 <= i < entity(c).len(),
    ensures
        !is_special(entity(c)[i]),
{
    reveal_strlit("&amp;");
    reveal_strlit("&lt;");
    reveal_strlit("&gt;");
    reveal_strlit("&quot;");
    reveal_strlit("&#x27;");
    reveal_strlit("&#x60;");
    reveal_strlit("&#x3D;");
    if c == '&' {
        assert(i == 0 || i == 1 || i == 2 || i == 3 || i == 4);
    } else if c == '<' || c == '>' {
        assert(i == 0 || i == 1 || i == 2 || i == 3);
    } else if c == '"' || c == '\'' || c == '`' || c == '=' {
        assert(i == 0 || i == 1 || i == 2 || i == 3 || i == 4 || i == 5);
    }
}

/// An escaped text holds no quote, no angle bracket, no backtick and no equals sign.
pub proof fn law_escaped_text_is_plain(s: Seq<char>, i: int)
    requires
        0 <= i < escaped(s).len(),
    ensures
        !is_special(escaped(s)[i]),
    decreases s.len(),
{
    let head = escaped(s.drop_last());
    if i < head.len() {
        law_escaped_text_is_plain(s.drop_last(), i);
    } else {
        lemma_entity_is_plain(s.last(), i - head.len());
    }
}

/// What a helper gives back.
#[derive(Debug)]
pub enum Output {
    Value(Json),
    /// Text that is not escaped.
    Safe(String),
}

/// What an [`Output`] stands for.
pub enum OutputView {
    Value(JsonView),
    Safe(Seq<char>),
}

impl View for Output {
    type V = OutputView;

    open spec fn view(&self) -> OutputView {
        match self {
            Output::Value(v) => OutputView::Value(v@),
            Output::Safe(s) => OutputView::Safe(s@),
        }
    }
}

/// The text of an output.
pub open spec fn output_text(o: OutputView, escape: bool) -> Seq<char> {
    match o {
        OutputView::Safe(s) => s,
        OutputView::Value(v) => if v is Null {
            Seq::empty()
        } else if escape {
            escaped(js::js_text(v))
        } else {
            js::js_text(v)
        },
    }
}

fn stringify(o: &Output, escape: bool) -> (r: String)
    ensures
        r@ == output_text(o@, escape),
{
    match o {
        Output::Safe(s) => s.clone(),
        Output::Value(v) => if v.is_null() {
            let none = String::new();
            assert(none@ =~= Seq::empty());
            none
        } else {
            let told = js::to_string(v);
            if escape {
                escape_expression(told.as_str())
            } else {
                told
            }
        },
    }
}

// ------------------------------------------------------------------ helpers

/// A helper: one of the library, or one that the host brings.
pub enum Helper {
    Arg,
    List,
    Join,
    Default,
    Pluralize,
    When,
    IfAny,
    IfAll,
    Table,
    Codeblock,
    Xml,
    EscapeXml,
    Len,
    Add,
    Sub,
    Has,
    Includes,
    Not,
    JsonStringify,
    Custom(Box<dyn CustomHelper>),
}

/// What a helper gets.
pub struct HelperCall {
    pub name: String,
    pub this: Json,
    pub args: Vec<Json>,
    pub hash: JsonObject,
}

/// What a [`HelperCall`] stands for.
pub struct HelperCallView {
    pub name: Seq<char>,
    pub this: JsonView,
    pub args: Seq<JsonView>,
    pub hash: Entries,
}

impl View for HelperCall {
    type V = HelperCallView;

    open spec fn view(&self) -> HelperCallView {
        HelperCallView {
            name: self.name@,
            this: self.this@,
            args: text::views(self.args@),
            hash: self.hash@,
        }
    }
}

/// An argument; `null` where there is none.
pub open spec fn arg_of(h: HelperCallView, i: int) -> JsonView {
    if 0 <= i < h.args.len() {
        h.args[i]
    } else {
        JsonView::Null
    }
}

impl HelperCall {
    /// The context of the call.
    pub fn this(&self) -> (r: &Json)
        ensures
            r@ == self@.this,
    {
        &self.this
    }

    /// An argument; `null` where there is none.
    pub fn arg(&self, i: usize) -> (r: Json)
        ensures
            r@ == arg_of(self@, i as int),
    {
        if i < self.args.len() {
            self.args[i].clone()
        } else {
            Json::Null
        }
    }
}

/// A part of a block that a helper has rendered: its body, or what follows `else`.
pub struct Part {
    pub inverse: bool,
    pub context: Json,
}

/// What a [`Part`] stands for.
pub struct PartView {
    pub inverse: bool,
    pub context: JsonView,
}

impl View for Part {
    type V = PartView;

    open spec fn view(&self) -> PartView {
        PartView { inverse: self.inverse, context: self.context@ }
    }
}

/// What a helper of the host does next.
pub enum HelperStep {
    /// It has a part of its block rendered.
    Render(Part),
    /// It is done.
    Done(Output),
}

/// What a [`HelperStep`] stands for.
pub enum HelperStepView {
    Render(PartView),
    Done(OutputView),
}

impl View for HelperStep {
    type V = HelperStepView;

    open spec fn view(&self) -> HelperStepView {
        match self {
            HelperStep::Render(p) => HelperStepView::Render(p@),
            HelperStep::Done(o) => HelperStepView::Done(o@),
        }
    }
}

/// What became of the parts that a helper had rendered: their texts, or what went wrong.
pub open spec fn outcomes(seen: Seq<Result<String, TemplateError>>) -> Seq<
    Result<Seq<char>, Seq<char>>,
> {
    seen.map_values(|r: Result<String, TemplateError>| template_parse::parsed_view(r))
}

/// A helper that the host brings. It has parts of its block rendered, one after the other, and
/// then makes its output of them. What it does next depends on the call and on what became of the
/// parts so far.
pub trait CustomHelper: Send + Sync {
    /// What it does next; an implementer may state it.
    closed spec fn next_step(&self, h: HelperCallView, seen: Seq<Result<Seq<char>, Seq<char>>>) -> Result<
        HelperStepView,
        Seq<char>,
    > {
        arbitrary()
    }

    /// What it does next, given what became of the parts so far.
    fn step(&self, h: &HelperCall, seen: &Vec<Result<String, TemplateError>>) -> (r: Result<
        HelperStep,
        TemplateError,
    >)
        ensures
            template_parse::parsed_view(r) == self.next_step(h@, outcomes(seen@)),
    ;
}

/// What a helper does.
pub enum Plan {
    /// It is done.
    Ready(Output),
    /// It renders its block once; the part after `else` where asked.
    Once { inverse: bool },
    /// It renders its block for each of these.
    Items(Vec<Json>),
    /// It renders parts of its block step by step.
    Steps,
}

/// What a [`Plan`] stands for.
pub enum PlanView {
    Ready(OutputView),
    Once { inverse: bool },
    Items(Seq<JsonView>),
    Steps,
}

impl View for Plan {
    type V = PlanView;

    open spec fn view(&self) -> PlanView {
        match self {
            Plan::Ready(o) => PlanView::Ready(o@),
            Plan::Once { inverse } => PlanView::Once { inverse: *inverse },
            Plan::Items(items) => PlanView::Items(text::views(items@)),
            Plan::Steps => PlanView::Steps,
        }
    }
}

/// A text as an output.
pub open spec fn told(s: Seq<char>) -> PlanView {
    PlanView::Ready(OutputView::Value(JsonView::String(s)))
}

/// A value as an output.
pub open spec fn given(v: JsonView) -> PlanView {
    PlanView::Ready(OutputView::Value(v))
}

fn tell(s: String) -> (r: Plan)
    ensures
        r@ == told(s@),
{
    Plan::Ready(Output::Value(Json::String(s)))
}

fn give(v: Json) -> (r: Plan)
    ensures
        r@ == given(v@),
{
    Plan::Ready(Output::Value(v))
}

/// The text of a value, or another text where there is none.
pub open spec fn string_or(v: Option<JsonView>, other: Seq<char>) -> Seq<char> {
    match v {
        Some(x) => if x is Null {
            other
        } else {
            js::js_text(x)
        },
        None => other,
    }
}

fn text_or(v: Option<&Json>, other: &str) -> (r: String)
    ensures
        r@ == string_or(text::opt_view(v), other@),
{
    match v {
        Some(x) => if x.is_null() {
            other.to_owned()
        } else {
            js::to_string(x)
        },
        None => other.to_owned(),
    }
}

/// A separator with its line ends and tabs.
pub open spec fn separator(s: Seq<char>) -> Seq<char> {
    text::replaced(text::replaced(s, "\\n"@, "\n"@), "\\t"@, "\t"@)
}

fn unescape_separator(s: &str) -> (r: String)
    ensures
        r@ == separator(s@),
{
    proof {
        reveal_strlit("\\n");
        reveal_strlit("\\t");
    }
    let a = replace_text(s, "\\n", "\n");
    replace_text(a.as_str(), "\\t", "\t")
}

/// The separator that a list is joined with; nothing where it is no text.
pub open spec fn list_separator(hash: Entries) -> Option<Seq<char>> {
    match json::lookup(hash, "join"@) {
        None => Some("\n"@),
        Some(JsonView::Null) => Some("\n"@),
        Some(JsonView::String(s)) => Some(separator(s)),
        Some(_) => None,
    }
}

fn get_list_separator(hash: &JsonObject) -> (r: Option<String>)
    ensures
        text::opt_view(r) == list_separator(hash@),
{
    match hash.get("join") {
        None => Some("\n".to_owned()),
        Some(Json::Null) => Some("\n".to_owned()),
        Some(Json::String(s)) => Some(unescape_separator(s.as_str())),
        Some(_) => None,
    }
}

/// The headers of a table; nothing where they are no text.
pub open spec fn table_headers(hash: Entries) -> Option<Seq<Seq<char>>> {
    match json::lookup(hash, "headers"@) {
        None => Some(Seq::empty()),
        Some(JsonView::Null) => Some(Seq::empty()),
        Some(JsonView::String(s)) => Some(text::split(s, '|')),
        Some(_) => None,
    }
}

fn get_table_headers(hash: &JsonObject) -> (r: Option<Vec<String>>)
    ensures
        match r {
            Some(list) => table_headers(hash@) == Some(text::views(list@)),
            None => table_headers(hash@) is None,
        },
{
    match hash.get("headers") {
        None => {
            let none: Vec<String> = Vec::new();
            assert(text::views(none@) =~= Seq::empty());
            Some(none)
        },
        Some(Json::Null) => {
            let none: Vec<String> = Vec::new();
            assert(text::views(none@) =~= Seq::empty());
            Some(none)
        },
        Some(Json::String(s)) => Some(split_text(s.as_str(), '|')),
        Some(_) => None,
    }
}

/// Whether an item is in a list.
pub open spec fn holds(items: Seq<JsonView>, item: JsonView) -> bool {
    exists|i: int| 0 <= i < items.len() && js::identical(#[trigger] items[i], item)
}

fn includes(items: &Vec<Json>, item: &Json) -> (r: bool)
    ensures
        r == holds(text::views(items@), item@),
{
    let mut i: usize = 0;
    while i < items.len()
        invariant
            i <= items@.len(),
            forall|j: int|
                0 <= j < i ==> !js::identical(#[trigger] text::views(items@)[j], item@),
        decreases items@.len() - i,
    {
        assert(text::views(items@)[i as int] == items@[i as int]@);
        if js::strict_eq(&items[i], item) {
            return true;
        }
        i += 1;
    }
    false
}

/// A key that every object answers to.
pub open spec fn is_object_key(key: Seq<char>) -> bool {
    key == "__defineGetter__"@ || key == "__defineSetter__"@ || key == "__lookupGetter__"@ || key
        == "__lookupSetter__"@ || key == "__proto__"@ || key == "constructor"@ || key
        == "hasOwnProperty"@ || key == "isPrototypeOf"@ || key == "propertyIsEnumerable"@ || key
        == "toLocaleString"@ || key == "toString"@ || key == "valueOf"@
}

fn object_key(key: &str) -> (r: bool)
    ensures
        r == is_object_key(key@),
{
    same_text(key, "__defineGetter__") || same_text(key, "__defineSetter__") || same_text(
        key,
        "__lookupGetter__",
    ) || same_text(key, "__lookupSetter__") || same_text(key, "__proto__") || same_text(
        key,
        "constructor",
    ) || same_text(key, "hasOwnProperty") || same_text(key, "isPrototypeOf") || same_text(
        key,
        "propertyIsEnumerable",
    ) || same_text(key, "toLocaleString") || same_text(key, "toString") || same_text(
        key,
        "valueOf",
    )
}

/// Whether a value has an item: a list by its elements, an object by its keys.
pub open spec fn has_item(v: JsonView, item: JsonView) -> bool {
    match v {
        JsonView::Array(items) => holds(items, item),
        JsonView::Object(o) => if item is String || item is Number {
            json::lookup(o, js::js_text(item)) is Some || is_object_key(js::js_text(item))
        } else {
            false
        },
        _ => false,
    }
}

fn contains_item(v: &Json, item: &Json) -> (r: bool)
    ensures
        r == has_item(v@, item@),
{
    match v {
        Json::Array(items) => {
            proof {
                json::lemma_values_view(*items);
            }
            includes(items, item)
        },
        Json::Object(o) => match item {
            Json::String(_) => {
                let key = js::to_string(item);
                o.get(key.as_str()).is_some() || object_key(key.as_str())
            },
            Json::Number(_) => {
                let key = js::to_string(item);
                o.get(key.as_str()).is_some() || object_key(key.as_str())
            },
            _ => false,
        },
        _ => false,
    }
}

/// The character of a text at a place, counted in code units: half of a pair stands for no
/// character.
pub open spec fn unit_char(s: Seq<char>, i: int) -> Option<char>
    decreases s.len(),
{
    if s.len() == 0 || i < 0 {
        None
    } else {
        let pair = s[0] as int >= 0x10000;
        let width: int = if pair {
            2
        } else {
            1
        };
        if i < width {
            Some(
                if pair {
                    '\u{FFFD}'
                } else {
                    s[0]
                },
            )
        } else {
            unit_char(s.skip(1), i - width)
        }
    }
}

fn is_pair(c: char) -> (r: bool)
    ensures
        r == (c as int >= 0x10000),
{
    c as u32 >= 0x10000
}

fn char_at_unit(v: &Vec<char>, i: u64) -> (r: Option<char>)
    ensures
        r == unit_char(v@, i as int),
{
    let n: usize = v.len();
    let mut k: usize = 0;
    let mut left: u64 = i;
    assert(v@.skip(0) =~= v@);
    while k < n
        invariant
            k <= n,
            n == v@.len(),
            unit_char(v@, i as int) == unit_char(v@.skip(k as int), left as int),
        decreases n - k,
    {
        let c = v[k];
        let pair = is_pair(c);
        let width: u64 = if pair {
            2
        } else {
            1
        };
        let ghost rest = v@.skip(k as int);
        assert(rest.len() > 0 && rest[0] == c);
        if left < width {
            return Some(
                if pair {
                    '\u{FFFD}'
                } else {
                    c
                },
            );
        }
        assert(v@.skip(k as int).skip(1) =~= v@.skip(k as int + 1));
        left -= width;
        k += 1;
    }
    None
}

/// The place that the first argument of `arg` names, counted from one; nothing where it names none.
pub open spec fn arg_key(index: JsonView) -> Option<Seq<char>> {
    let n = match index {
        JsonView::Number(x) => js::JsNumberView::Finite(x),
        _ => js::leading_int(index),
    };
    match n {
        js::JsNumberView::Finite(x) => {
            let before = js::subtracted(n, js::JsNumberView::Finite(NumberView::PosInt(1)));
            if below_zero(before) {
                None
            } else {
                Some(js::js_text(js::number_value(before)))
            }
        },
        _ => None,
    }
}

/// The number is below zero.
pub open spec fn below_zero(n: js::JsNumberView) -> bool {
    match n {
        js::JsNumberView::Finite(x) => number::float_less(x, js::zero()),
        js::JsNumberView::NegInfinity => true,
        _ => false,
    }
}

fn get_arg_key(index: &Json) -> (r: Option<String>)
    ensures
        text::opt_view(r) == arg_key(index@),
{
    let n = match index {
        Json::Number(x) => js::JsNumber::Finite(x.clone()),
        _ => js::parse_int(index),
    };
    match n {
        js::JsNumber::Finite(x) => {
            let one = js::JsNumber::Finite(Number::PosInt(1));
            let before = js::subtract(js::JsNumber::Finite(x), one);
            let below = match &before {
                js::JsNumber::Finite(y) => is_less(y, &Number::PosInt(0)),
                js::JsNumber::NegInfinity => true,
                _ => false,
            };
            if below {
                None
            } else {
                Some(js::to_string(&js::number(before)))
            }
        },
        _ => None,
    }
}

/// The element of the arguments under a key.
pub open spec fn element_under(args: JsonView, key: Seq<char>) -> JsonView {
    match args {
        JsonView::String(s) => match text::unsigned_value(key) {
            Some(i) => if i <= u64::MAX {
                match unit_char(s, i) {
                    Some(c) => JsonView::String(seq![c]),
                    None => JsonView::Null,
                }
            } else {
                JsonView::Null
            },
            None => JsonView::Null,
        },
        _ => property_of(args, key),
    }
}

fn get_element(args: &Json, key: &str) -> (r: Json)
    ensures
        r@ == element_under(args@, key@),
{
    match args {
        Json::String(s) => {
            let v = to_chars(s.as_str());
            match parse_unsigned(key) {
                Some(i) => match char_at_unit(&v, i) {
                    Some(c) => {
                        let mut one = String::new();
                        one.push(c);
                        assert(one@ =~= seq![c]);
                        Json::String(one)
                    },
                    None => Json::Null,
                },
                None => Json::Null,
            }
        },
        _ => property(args, key),
    }
}

/// The value that `arg` gives.
pub open spec fn arg_value(this: JsonView, index: JsonView) -> JsonView {
    match arg_key(index) {
        None => JsonView::String(Seq::empty()),
        Some(key) => {
            let v = element_under(property_of(this, "args"@), key);
            if v is Null {
                JsonView::String(Seq::empty())
            } else {
                v
            }
        },
    }
}

fn empty_text() -> (r: Json)
    ensures
        r@ == JsonView::String(Seq::empty()),
{
    let none = String::new();
    assert(none@ =~= Seq::empty());
    Json::String(none)
}

fn helper_arg(this: &Json, index: &Json) -> (r: Json)
    ensures
        r@ == arg_value(this@, index@),
{
    match get_arg_key(index) {
        None => empty_text(),
        Some(key) => {
            let v = get_element(&property(this, "args"), key.as_str());
            if v.is_null() {
                empty_text()
            } else {
                v
            }
        },
    }
}

/// Whether a comparison holds; nothing where the sign is unknown.
pub open spec fn relation(a: JsonView, sign: Seq<char>, b: JsonView) -> Option<bool> {
    let o = js::value_order(a, b);
    if sign == "=="@ || sign == "==="@ {
        Some(js::identical(a, b))
    } else if sign == "!="@ || sign == "!=="@ {
        Some(!js::identical(a, b))
    } else if sign == ">"@ {
        Some(o == Some(js::Order::Greater))
    } else if sign == "<"@ {
        Some(o == Some(js::Order::Less))
    } else if sign == ">="@ {
        Some(o == Some(js::Order::Greater) || o == Some(js::Order::Equal))
    } else if sign == "<="@ {
        Some(o == Some(js::Order::Less) || o == Some(js::Order::Equal))
    } else {
        None
    }
}

fn relate(a: &Json, sign: &str, b: &Json) -> (r: Option<bool>)
    ensures
        r == relation(a@, sign@, b@),
{
    if same_text(sign, "==") || same_text(sign, "===") {
        return Some(js::strict_eq(a, b));
    }
    if same_text(sign, "!=") || same_text(sign, "!==") {
        return Some(!js::strict_eq(a, b));
    }
    let o = js::compare_values(a, b);
    if same_text(sign, ">") {
        Some(matches!(o, Some(js::Order::Greater)))
    } else if same_text(sign, "<") {
        Some(matches!(o, Some(js::Order::Less)))
    } else if same_text(sign, ">=") {
        Some(matches!(o, Some(js::Order::Greater)) || matches!(o, Some(js::Order::Equal)))
    } else if same_text(sign, "<=") {
        Some(matches!(o, Some(js::Order::Less)) || matches!(o, Some(js::Order::Equal)))
    } else {
        None
    }
}

/// Some value counts as true.
pub open spec fn some_truthy(args: Seq<JsonView>) -> bool {
    exists|i: int| 0 <= i < args.len() && js::is_truthy(#[trigger] args[i])
}

/// Every value counts as true.
pub open spec fn all_truthy(args: Seq<JsonView>) -> bool {
    forall|i: int| 0 <= i < args.len() ==> js::is_truthy(#[trigger] args[i])
}

fn any_truthy(args: &Vec<Json>) -> (r: bool)
    ensures
        r == some_truthy(text::views(args@)),
{
    let mut i: usize = 0;
    while i < args.len()
        invariant
            i <= args@.len(),
            forall|j: int| 0 <= j < i ==> !js::is_truthy(#[trigger] text::views(args@)[j]),
        decreases args@.len() - i,
    {
        assert(text::views(args@)[i as int] == args@[i as int]@);
        if js::truthy(&args[i]) {
            return true;
        }
        i += 1;
    }
    false
}

fn each_truthy(args: &Vec<Json>) -> (r: bool)
    ensures
        r == all_truthy(text::views(args@)),
{
    let mut i: usize = 0;
    while i < args.len()
        invariant
            i <= args@.len(),
            forall|j: int| 0 <= j < i ==> js::is_truthy(#[trigger] text::views(args@)[j]),
        decreases args@.len() - i,
    {
        assert(text::views(args@)[i as int] == args@[i as int]@);
        if !js::truthy(&args[i]) {
            return false;
        }
        i += 1;
    }
    true
}

/// A character as XML shows it.
pub open spec fn xml_entity(c: char) -> Seq<char> {
    if c == '&' {
        "&amp;"@
    } else if c == '<' {
        "&lt;"@
    } else if c == '>' {
        "&gt;"@
    } else if c == '"' {
        "&quot;"@
    } else {
        seq![c]
    }
}

/// A text as XML shows it.
pub open spec fn xml_escaped(s: Seq<char>) -> Seq<char>
    decreases s.len(),
{
    if s.len() == 0 {
        Seq::empty()
    } else {
        xml_escaped(s.drop_last()) + xml_entity(s.last())
    }
}

fn push_xml(out: &mut String, c: char)
    ensures
        final(out)@ == old(out)@ + xml_entity(c),
{
    let ghost before = out@;
    if c == '&' {
        out.append("&amp;");
    } else if c == '<' {
        out.append("&lt;");
    } else if c == '>' {
        out.append("&gt;");
    } else if c == '"' {
        out.append("&quot;");
    } else {
        out.push(c);
        assert(out@ =~= before + xml_entity(c));
    }
}

fn escape_xml(s: &str) -> (r: String)
    ensures
        r@ == xml_escaped(s@),
{
    let v = to_chars(s);
    let mut out = String::new();
    let mut i: usize = 0;
    assert(out@ =~= xml_escaped(v@.take(0)));
    while i < v.len()
        invariant
            i <= v@.len(),
            out@ == xml_escaped(v@.take(i as int)),
        decreases v@.len() - i,
    {
        assert(v@.take(i as int + 1).drop_last() =~= v@.take(i as int));
        push_xml(&mut out, v[i]);
        i += 1;
    }
    assert(v@.take(i as int) =~= v@);
    out
}

/// The value, or zero where there is none.
pub open spec fn or_zero(v: JsonView) -> JsonView {
    if v is Null {
        JsonView::Number(js::zero())
    } else {
        v
    }
}

fn value_or_zero(v: Json) -> (r: Json)
    ensures
        r@ == or_zero(v@),
{
    if v.is_null() {
        Json::Number(Number::PosInt(0))
    } else {
        v
    }
}

/// The length of a list or a text.
pub open spec fn length_of(v: JsonView) -> JsonView {
    match v {
        JsonView::Array(items) => length_value(items.len() as int),
        JsonView::String(s) => length_value(js::utf16(s).len() as int),
        _ => JsonView::Number(js::zero()),
    }
}

fn length(v: &Json) -> (r: Json)
    ensures
        r@ == length_of(v@),
{
    match v {
        Json::Array(items) => {
            proof {
                json::lemma_values_view(*items);
            }
            Json::Number(Number::PosInt(items.len() as u64))
        },
        Json::String(s) => Json::Number(Number::PosInt(js::utf16_len(s.as_str()) as u64)),
        _ => Json::Number(Number::PosInt(0)),
    }
}

/// A list joined, `null` being empty.
pub open spec fn joined(v: JsonView, sep: JsonView) -> Seq<char> {
    match v {
        JsonView::Array(items) => text::join(
            js::element_texts(items),
            match sep {
                JsonView::String(s) => separator(s),
                _ => ", "@,
            },
        ),
        _ => Seq::empty(),
    }
}

fn join_values(v: &Json, sep: &Json) -> (r: String)
    ensures
        r@ == joined(v@, sep@),
{
    match v {
        Json::Array(items) => {
            proof {
                json::lemma_values_view(*items);
            }
            let parts = js::element_strings(items);
            let between = match sep {
                Json::String(s) => unescape_separator(s.as_str()),
                _ => ", ".to_owned(),
            };
            join_strings(&parts, between.as_str())
        },
        _ => {
            let none = String::new();
            assert(none@ =~= Seq::empty());
            none
        },
    }
}

/// A count with the word for it.
pub open spec fn counted(count: JsonView, one: JsonView, many: JsonView) -> Seq<char> {
    js::js_text(count) + " "@ + js::js_text(
        if js::identical(count, JsonView::Number(NumberView::PosInt(1))) {
            one
        } else {
            many
        },
    )
}

fn pluralize(count: &Json, one: &Json, many: &Json) -> (r: String)
    ensures
        r@ == counted(count@, one@, many@),
{
    let word = if js::strict_eq(count, &Json::Number(Number::PosInt(1))) {
        js::to_string(one)
    } else {
        js::to_string(many)
    };
    concat(concat(js::to_string(count).as_str(), " ").as_str(), word.as_str())
}

/// What a helper does with its arguments.
#[verifier::opaque]
pub open spec fn plan(helper: Helper, h: HelperCallView) -> Result<PlanView, Seq<char>> {
    let a = arg_of(h, 0);
    let b = arg_of(h, 1);
    match helper {
        Helper::Arg => Ok(given(arg_value(h.this, a))),
        Helper::List => match a {
            JsonView::Array(items) => if list_separator(h.hash) is None {
                Err("list: `join` must be a string"@)
            } else {
                Ok(PlanView::Items(items))
            },
            _ => Ok(told(Seq::empty())),
        },
        Helper::Join => Ok(told(joined(a, b))),
        Helper::Default => Ok(
            given(
                if js::is_truthy(a) {
                    a
                } else {
                    b
                },
            ),
        ),
        Helper::Pluralize => Ok(told(counted(a, b, arg_of(h, 2)))),
        Helper::When => Ok(
            PlanView::Once { inverse: relation(a, js::js_text(b), arg_of(h, 2)) != Some(true) },
        ),
        Helper::IfAny => Ok(PlanView::Once { inverse: !some_truthy(h.args) }),
        Helper::IfAll => Ok(PlanView::Once { inverse: !all_truthy(h.args) }),
        Helper::Table => match a {
            JsonView::Array(items) => if items.len() == 0 {
                Ok(told(Seq::empty()))
            } else if table_headers(h.hash) is None {
                Err("table: `headers` must be a string"@)
            } else {
                Ok(PlanView::Items(items))
            },
            _ => Ok(told(Seq::empty())),
        },
        Helper::Codeblock => Ok(PlanView::Once { inverse: false }),
        Helper::Xml => Ok(PlanView::Once { inverse: false }),
        Helper::EscapeXml => Ok(
            told(
                if a is Null {
                    Seq::empty()
                } else {
                    xml_escaped(js::js_text(a))
                },
            ),
        ),
        Helper::Len => Ok(given(length_of(a))),
        Helper::Add => Ok(given(js::sum_value(or_zero(a), or_zero(b)))),
        Helper::Sub => Ok(
            given(
                js::number_value(
                    js::subtracted(js::number_of(or_zero(a)), js::number_of(or_zero(b))),
                ),
            ),
        ),
        Helper::Has => Ok(PlanView::Once { inverse: !has_item(a, b) }),
        Helper::Includes => Ok(
            given(
                JsonView::Bool(
                    match a {
                        JsonView::Array(items) => holds(items, b),
                        _ => false,
                    },
                ),
            ),
        ),
        Helper::Not => Ok(given(JsonView::Bool(!js::is_truthy(a)))),
        Helper::JsonStringify => Ok(
            if a is Null {
                given(JsonView::Null)
            } else {
                told(js::json_text(a))
            },
        ),
        Helper::Custom(_) => Ok(PlanView::Steps),
    }
}

/// What a helper does with its arguments.
pub fn plan_helper(helper: &Helper, h: &HelperCall) -> (r: Result<Plan, TemplateError>)
    ensures
        template_parse::parsed_view(r) == plan(*helper, h@),
{
    proof {
        reveal(plan);
    }
    let a = h.arg(0);
    let b = h.arg(1);
    match helper {
        Helper::Arg => Ok(give(helper_arg(&h.this, &a))),
        Helper::List => match a {
            Json::Array(items) => {
                proof {
                    json::lemma_values_view(items);
                }
                if get_list_separator(&h.hash).is_none() {
                    Err(TemplateError("list: `join` must be a string".to_owned()))
                } else {
                    Ok(Plan::Items(items))
                }
            },
            _ => Ok(give(empty_text())),
        },
        Helper::Join => Ok(tell(join_values(&a, &b))),
        Helper::Default => Ok(
            give(
                if js::truthy(&a) {
                    a
                } else {
                    b
                },
            ),
        ),
        Helper::Pluralize => Ok(tell(pluralize(&a, &b, &h.arg(2)))),
        Helper::When => {
            let sign = js::to_string(&b);
            let inverse = match relate(&a, sign.as_str(), &h.arg(2)) {
                Some(yes) => !yes,
                None => true,
            };
            Ok(Plan::Once { inverse })
        },
        Helper::IfAny => Ok(Plan::Once { inverse: !any_truthy(&h.args) }),
        Helper::IfAll => Ok(Plan::Once { inverse: !each_truthy(&h.args) }),
        Helper::Table => match a {
            Json::Array(items) => {
                proof {
                    json::lemma_values_view(items);
                }
                if items.len() == 0 {
                    Ok(give(empty_text()))
                } else if get_table_headers(&h.hash).is_none() {
                    Err(TemplateError("table: `headers` must be a string".to_owned()))
                } else {
                    Ok(Plan::Items(items))
                }
            },
            _ => Ok(give(empty_text())),
        },
        Helper::Codeblock => Ok(Plan::Once { inverse: false }),
        Helper::Xml => Ok(Plan::Once { inverse: false }),
        Helper::EscapeXml => if a.is_null() {
            Ok(give(empty_text()))
        } else {
            Ok(tell(escape_xml(js::to_string(&a).as_str())))
        },
        Helper::Len => Ok(give(length(&a))),
        Helper::Add => Ok(give(js::add(&value_or_zero(a), &value_or_zero(b)))),
        Helper::Sub => {
            let x = js::to_number(&value_or_zero(a));
            let y = js::to_number(&value_or_zero(b));
            Ok(give(js::number(js::subtract(x, y))))
        },
        Helper::Has => Ok(Plan::Once { inverse: !contains_item(&a, &b) }),
        Helper::Includes => {
            let found = match &a {
                Json::Array(items) => {
                    proof {
                        json::lemma_values_view(*items);
                    }
                    includes(items, &b)
                },
                _ => false,
            };
            Ok(give(Json::Bool(found)))
        },
        Helper::Not => Ok(give(Json::Bool(!js::truthy(&a)))),
        Helper::JsonStringify => if a.is_null() {
            Ok(give(Json::Null))
        } else {
            Ok(tell(js::json_stringify(&a)))
        },
        Helper::Custom(_) => Ok(Plan::Steps),
    }
}

/// The rendered items, each between the same texts.
pub open spec fn surrounded(items: Seq<Seq<char>>, before: Seq<char>, after: Seq<char>) -> Seq<
    Seq<char>,
> {
    items.map_values(|s: Seq<char>| before + s + after)
}

/// The rows of a table.
pub open spec fn rows(items: Seq<Seq<char>>) -> Seq<Seq<char>> {
    items.map_values(|s: Seq<char>| "| "@ + text::trim(Space::Js, s) + " |"@)
}

/// The separators of so many columns.
pub open spec fn rules(n: nat) -> Seq<Seq<char>> {
    Seq::new(n, |i: int| "---"@)
}

/// The first two lines of a table.
pub open spec fn table_head(headers: Seq<Seq<char>>) -> Seq<char> {
    if headers.len() == 0 {
        Seq::empty()
    } else {
        "| "@ + text::join(headers, " | "@) + " |\n| "@ + text::join(
            rules(headers.len()),
            " | "@,
        ) + " |\n"@
    }
}

/// What a helper makes of its rendered block.
#[verifier::opaque]
pub open spec fn finished(helper: Helper, h: HelperCallView, rendered: Seq<Seq<char>>) -> Seq<char> {
    let once = if rendered.len() > 0 {
        rendered[0]
    } else {
        Seq::empty()
    };
    match helper {
        Helper::List => text::join(
            surrounded(
                rendered,
                string_or(json::lookup(h.hash, "prefix"@), ""@),
                string_or(json::lookup(h.hash, "suffix"@), ""@),
            ),
            match list_separator(h.hash) {
                Some(s) => s,
                None => ""@,
            },
        ),
        Helper::Table => table_head(
            match table_headers(h.hash) {
                Some(list) => list,
                None => Seq::empty(),
            },
        ) + text::join(rows(rendered), "\n"@),
        Helper::Codeblock => "```"@ + string_or(json::lookup(h.hash, "lang"@), ""@) + "\n"@
            + text::trim(Space::Js, once) + "\n```"@,
        Helper::Xml => {
            let content = text::trim(Space::Js, once);
            let tag = js::js_text(arg_of(h, 0));
            if content.len() == 0 {
                Seq::empty()
            } else {
                "<"@ + tag + ">\n"@ + content + "\n</"@ + tag + ">"@
            }
        },
        _ => once,
    }
}

fn surround(items: &Vec<String>, before: &str, after: &str) -> (r: Vec<String>)
    ensures
        text::views(r@) == surrounded(text::views(items@), before@, after@),
{
    let mut out: Vec<String> = Vec::new();
    let mut i: usize = 0;
    while i < items.len()
        invariant
            i <= items@.len(),
            out@.len() == i,
            forall|j: int|
                0 <= j < i ==> (#[trigger] out@[j])@ == before@ + items@[j]@ + after@,
        decreases items@.len() - i,
    {
        out.push(concat(concat(before, items[i].as_str()).as_str(), after));
        i += 1;
    }
    assert(text::views(out@) =~= surrounded(text::views(items@), before@, after@));
    out
}

fn make_rows(items: &Vec<String>) -> (r: Vec<String>)
    ensures
        text::views(r@) == rows(text::views(items@)),
{
    let mut out: Vec<String> = Vec::new();
    let mut i: usize = 0;
    while i < items.len()
        invariant
            i <= items@.len(),
            out@.len() == i,
            forall|j: int|
                0 <= j < i ==> (#[trigger] out@[j])@ == "| "@ + text::trim(Space::Js, items@[j]@)
                    + " |"@,
        decreases items@.len() - i,
    {
        let cell = trim_text(Space::Js, items[i].as_str());
        out.push(concat(concat("| ", cell.as_str()).as_str(), " |"));
        i += 1;
    }
    assert(text::views(out@) =~= rows(text::views(items@)));
    out
}

fn make_table_head(headers: &Vec<String>) -> (r: String)
    ensures
        r@ == table_head(text::views(headers@)),
{
    let n: usize = headers.len();
    let mut out = String::new();
    if n == 0 {
        assert(out@ =~= Seq::empty());
        return out;
    }
    let mut marks: Vec<String> = Vec::new();
    let mut i: usize = 0;
    while i < n
        invariant
            i <= n,
            marks@.len() == i,
            forall|j: int| 0 <= j < i ==> (#[trigger] marks@[j])@ == "---"@,
        decreases n - i,
    {
        marks.push("---".to_owned());
        i += 1;
    }
    assert(text::views(marks@) =~= rules(text::views(headers@).len()));
    out.append("| ");
    out.append(join_strings(headers, " | ").as_str());
    out.append(" |\n| ");
    out.append(join_strings(&marks, " | ").as_str());
    out.append(" |\n");
    assert(out@ =~= table_head(text::views(headers@)));
    out
}

/// What a helper makes of its rendered block.
pub fn finish_helper(helper: &Helper, h: &HelperCall, rendered: &Vec<String>) -> (r: String)
    ensures
        r@ == finished(*helper, h@, text::views(rendered@)),
{
    proof {
        reveal(finished);
    }
    let once = if rendered.len() > 0 {
        rendered[0].clone()
    } else {
        let none = String::new();
        assert(none@ =~= Seq::empty());
        none
    };
    match helper {
        Helper::List => {
            let before = text_or(h.hash.get("prefix"), "");
            let after = text_or(h.hash.get("suffix"), "");
            let between = match get_list_separator(&h.hash) {
                Some(s) => s,
                None => "".to_owned(),
            };
            let items = surround(rendered, before.as_str(), after.as_str());
            join_strings(&items, between.as_str())
        },
        Helper::Table => {
            let headers = match get_table_headers(&h.hash) {
                Some(list) => list,
                None => {
                    let none: Vec<String> = Vec::new();
                    assert(text::views(none@) =~= Seq::empty());
                    none
                },
            };
            let head = make_table_head(&headers);
            concat(head.as_str(), join_strings(&make_rows(rendered), "\n").as_str())
        },
        Helper::Codeblock => {
            let lang = text_or(h.hash.get("lang"), "");
            let content = trim_text(Space::Js, once.as_str());
            let mut out = String::new();
            out.append("```");
            out.append(lang.as_str());
            out.append("\n");
            out.append(content.as_str());
            out.append("\n```");
            assert(out@ =~= "```"@ + lang@ + "\n"@ + content@ + "\n```"@);
            out
        },
        Helper::Xml => {
            let content = trim_text(Space::Js, once.as_str());
            let tag = js::to_string(&h.arg(0));
            let mut out = String::new();
            if to_chars(content.as_str()).len() == 0 {
                assert(out@ =~= Seq::empty());
                return out;
            }
            out.append("<");
            out.append(tag.as_str());
            out.append(">\n");
            out.append(content.as_str());
            out.append("\n</");
            out.append(tag.as_str());
            out.append(">");
            assert(out@ =~= "<"@ + tag@ + ">\n"@ + content@ + "\n</"@ + tag@ + ">"@);
            out
        },
        _ => once,
    }
}

// ------------------------------------------------------------------ engines

/// Helpers and partials by their names.
pub struct Engine {
    pub helpers: Vec<(String, Helper)>,
    pub partials: Vec<(String, String)>,
    /// Nothing is escaped.
    pub no_escape: bool,
}

/// What an [`Engine`] stands for.
pub struct EngineView {
    pub helpers: Seq<(Seq<char>, Helper)>,
    pub partials: Seq<(Seq<char>, Seq<char>)>,
    pub no_escape: bool,
}

impl View for Engine {
    type V = EngineView;

    open spec fn view(&self) -> EngineView {
        EngineView {
            helpers: Seq::new(
                self.helpers@.len(),
                |i: int| (self.helpers@[i].0@, self.helpers@[i].1),
            ),
            partials: Seq::new(
                self.partials@.len(),
                |i: int| (self.partials@[i].0@, self.partials@[i].1@),
            ),
            no_escape: self.no_escape,
        }
    }
}

/// The place of a name, from an index on.
pub open spec fn name_at<T>(list: Seq<(Seq<char>, T)>, name: Seq<char>, i: int) -> Option<int>
    decreases list.len() - i,
{
    if i < 0 || i >= list.len() {
        None
    } else if list[i].0 == name {
        Some(i)
    } else {
        name_at(list, name, i + 1)
    }
}

/// What stands under a name.
pub open spec fn under<T>(list: Seq<(Seq<char>, T)>, name: Seq<char>) -> Option<T> {
    match name_at(list, name, 0) {
        Some(i) => Some(list[i].1),
        None => None,
    }
}

/// The list with something put under a name, in place of what stood there.
pub open spec fn put_under<T>(list: Seq<(Seq<char>, T)>, name: Seq<char>, x: T) -> Seq<
    (Seq<char>, T),
> {
    match name_at(list, name, 0) {
        Some(i) => list.update(i, (name, x)),
        None => list.push((name, x)),
    }
}

/// An engine without helpers and partials.
pub open spec fn bare_engine(no_escape: bool) -> EngineView {
    EngineView { helpers: Seq::empty(), partials: Seq::empty(), no_escape }
}

// ------------------------------------------------------------------ evaluation

/// How far the nesting may still go.
pub open spec fn room(depth: nat) -> nat {
    if depth <= 101 {
        (102 - depth) as nat
    } else {
        0
    }
}

/// The first `n` pieces of a template, rendered.
pub open spec fn rendered(
    eng: EngineView,
    nodes: Seq<NodeView>,
    n: nat,
    f: FrameView,
    depth: nat,
) -> Result<Seq<char>, Seq<char>>
    decreases room(depth), 1nat, nodes, 0nat, n,
{
    if n == 0 || n > nodes.len() {
        Ok(Seq::empty())
    } else {
        match rendered(eng, nodes, (n - 1) as nat, f, depth) {
            Err(e) => Err(e),
            Ok(head) => match piece(eng, nodes[n - 1], f, depth) {
                Err(e) => Err(e),
                Ok(t) => Ok(head + t),
            },
        }
    }
}

/// One piece of a template, rendered.
pub open spec fn piece(eng: EngineView, node: NodeView, f: FrameView, depth: nat) -> Result<
    Seq<char>,
    Seq<char>,
>
    decreases room(depth), 1nat, node, 2nat, 0nat,
{
    match node {
        NodeView::Text(t) => Ok(t),
        NodeView::Output { call, escaped } => match called(
            eng,
            call,
            false,
            Seq::empty(),
            Seq::empty(),
            f,
            depth,
        ) {
            Ok(o) => Ok(output_text(o, escaped && !eng.no_escape)),
            Err(e) => Err(e),
        },
        NodeView::Partial(call) => partial(eng, call, f, depth),
        NodeView::Block { .. } => block(eng, node, f, depth),
    }
}

/// The value of an argument.
pub open spec fn evaluated(eng: EngineView, e: ExprView, f: FrameView, depth: nat) -> Result<
    JsonView,
    Seq<char>,
>
    decreases room(depth), 0nat, e, 0nat, 0nat,
{
    match e {
        ExprView::Literal(v) => Ok(v),
        ExprView::Path(p) => Ok(resolved(p, f)),
        ExprView::Call(c) => match called(eng, c, false, Seq::empty(), Seq::empty(), f, depth) {
            Ok(OutputView::Value(v)) => Ok(v),
            Ok(OutputView::Safe(s)) => Ok(JsonView::String(s)),
            Err(e) => Err(e),
        },
    }
}

/// The values of the first `n` arguments.
pub open spec fn arguments(eng: EngineView, call: CallView, n: nat, f: FrameView, depth: nat) -> Result<
    Seq<JsonView>,
    Seq<char>,
>
    decreases room(depth), 0nat, call, 1nat, n,
{
    if n == 0 || n > call.args.len() {
        Ok(Seq::empty())
    } else {
        match arguments(eng, call, (n - 1) as nat, f, depth) {
            Err(e) => Err(e),
            Ok(head) => match evaluated(eng, call.args[n - 1], f, depth) {
                Err(e) => Err(e),
                Ok(v) => Ok(head.push(v)),
            },
        }
    }
}

/// The values of the first `n` named arguments.
pub open spec fn named_arguments(
    eng: EngineView,
    call: CallView,
    n: nat,
    f: FrameView,
    depth: nat,
) -> Result<Entries, Seq<char>>
    decreases room(depth), 0nat, call, 1nat, n,
{
    if n == 0 || n > call.hash.len() {
        Ok(Seq::empty())
    } else {
        match named_arguments(eng, call, (n - 1) as nat, f, depth) {
            Err(e) => Err(e),
            Ok(head) => match evaluated(eng, call.hash[n - 1].1, f, depth) {
                Err(e) => Err(e),
                Ok(v) => Ok(json::with_member(head, call.hash[n - 1].0, v)),
            },
        }
    }
}

/// What is told of a helper that is not there.
pub open spec fn missing_helper(name: Seq<char>) -> Seq<char> {
    "Missing helper: \""@ + name + "\""@
}

/// The output of a call: a helper before a property.
pub open spec fn called(
    eng: EngineView,
    call: CallView,
    force: bool,
    body: Seq<NodeView>,
    inverse: Seq<NodeView>,
    f: FrameView,
    depth: nat,
) -> Result<OutputView, Seq<char>>
    decreases room(depth), 0nat, call, 2nat, 0nat,
{
    match arguments(eng, call, call.args.len(), f, depth) {
        Err(e) => Err(e),
        Ok(args) => match named_arguments(eng, call, call.hash.len(), f, depth) {
            Err(e) => Err(e),
            Ok(hash) => match under(eng.helpers, call.name) {
                Some(helper) => helped(
                    eng,
                    helper,
                    HelperCallView { name: call.name, this: f.context, args, hash },
                    call,
                    body,
                    inverse,
                    f,
                    depth,
                ),
                None => if call.name == "lookup"@ && args.len() >= 2 {
                    Ok(OutputView::Value(property_of(args[0], js::js_text(args[1]))))
                } else if force || args.len() > 0 || hash.len() > 0 {
                    Err(missing_helper(call.name))
                } else {
                    Ok(OutputView::Value(resolved(call.name, f)))
                },
            },
        },
    }
}

/// The pieces rendered for the first `n` turns of a loop.
pub open spec fn turns(
    eng: EngineView,
    nodes: Seq<NodeView>,
    list: Seq<(JsonView, Entries)>,
    n: nat,
    f: FrameView,
    depth: nat,
) -> Result<Seq<Seq<char>>, Seq<char>>
    decreases room(depth), 1nat, nodes, 1nat, n,
{
    if n == 0 || n > list.len() {
        Ok(Seq::empty())
    } else {
        match turns(eng, nodes, list, (n - 1) as nat, f, depth) {
            Err(e) => Err(e),
            Ok(head) => match rendered(
                eng,
                nodes,
                nodes.len(),
                inside(f, list[n - 1].0, list[n - 1].1),
                depth,
            ) {
                Err(e) => Err(e),
                Ok(t) => Ok(head.push(t)),
            },
        }
    }
}

/// What is told of a helper that asks for more parts than can be counted.
pub const ENDLESS_ERROR: &'static str = "Too many parts of a block";

/// What a helper of the host does next. The other helpers take no steps.
pub open spec fn step_of(helper: Helper, h: HelperCallView, seen: Seq<Result<Seq<char>, Seq<char>>>) -> Result<
    HelperStepView,
    Seq<char>,
> {
    match helper {
        Helper::Custom(c) => c.next_step(h, seen),
        _ => Ok(HelperStepView::Done(OutputView::Value(JsonView::Null))),
    }
}

fn take_step(helper: &Helper, h: &HelperCall, seen: &Vec<Result<String, TemplateError>>) -> (r: Result<
    HelperStep,
    TemplateError,
>)
    ensures
        template_parse::parsed_view(r) == step_of(*helper, h@, outcomes(seen@)),
{
    match helper {
        Helper::Custom(c) => c.step(h, seen),
        _ => Ok(HelperStep::Done(Output::Value(Json::Null))),
    }
}

/// The output of a helper of the host, from what became of the parts so far on; `left` is how many
/// more parts can be counted.
pub open spec fn stepped(
    eng: EngineView,
    helper: Helper,
    h: HelperCallView,
    call: CallView,
    body: Seq<NodeView>,
    inverse: Seq<NodeView>,
    f: FrameView,
    depth: nat,
    seen: Seq<Result<Seq<char>, Seq<char>>>,
    left: nat,
) -> Result<OutputView, Seq<char>>
    decreases room(depth), 0nat, call, 0nat, left,
{
    match step_of(helper, h, seen) {
        Err(e) => Err(e),
        Ok(HelperStepView::Done(o)) => Ok(o),
        Ok(HelperStepView::Render(part)) => if left == 0 {
            Err(ENDLESS_ERROR@)
        } else {
            let nodes = if part.inverse {
                inverse
            } else {
                body
            };
            let outcome = if depth >= MAX_NESTING {
                Err(NESTING_ERROR@)
            } else {
                rendered(eng, nodes, nodes.len(), inside(f, part.context, f.data), depth + 1)
            };
            stepped(
                eng,
                helper,
                h,
                call,
                body,
                inverse,
                f,
                depth,
                seen.push(outcome),
                (left - 1) as nat,
            )
        },
    }
}

/// The turns of a loop over items that know nothing of their turn.
pub open spec fn plain_turns(items: Seq<JsonView>, data: Entries) -> Seq<(JsonView, Entries)> {
    items.map_values(|v: JsonView| (v, data))
}

/// The output of a helper.
pub open spec fn helped(
    eng: EngineView,
    helper: Helper,
    h: HelperCallView,
    call: CallView,
    body: Seq<NodeView>,
    inverse: Seq<NodeView>,
    f: FrameView,
    depth: nat,
) -> Result<OutputView, Seq<char>>
    decreases room(depth), 0nat, call, 1nat, 0nat,
{
    match plan(helper, h) {
        Err(e) => Err(e),
        Ok(PlanView::Ready(o)) => Ok(o),
        Ok(PlanView::Once { inverse: other }) => if depth >= MAX_NESTING {
            Err(NESTING_ERROR@)
        } else {
            let nodes = if other {
                inverse
            } else {
                body
            };
            match rendered(eng, nodes, nodes.len(), inside(f, f.context, f.data), depth + 1) {
                Err(e) => Err(e),
                Ok(t) => Ok(
                    OutputView::Value(
                        JsonView::String(
                            if other {
                                t
                            } else {
                                finished(helper, h, seq![t])
                            },
                        ),
                    ),
                ),
            }
        },
        Ok(PlanView::Items(items)) => if items.len() == 0 {
            Ok(OutputView::Value(JsonView::String(finished(helper, h, Seq::empty()))))
        } else if depth >= MAX_NESTING {
            Err(NESTING_ERROR@)
        } else {
            match turns(eng, body, plain_turns(items, f.data), items.len(), f, depth + 1) {
                Err(e) => Err(e),
                Ok(list) => Ok(OutputView::Value(JsonView::String(finished(helper, h, list)))),
            }
        },
        Ok(PlanView::Steps) => stepped(
            eng,
            helper,
            h,
            call,
            body,
            inverse,
            f,
            depth,
            Seq::empty(),
            usize::MAX as nat,
        ),
    }
}

/// The members that a loop goes over, each under its key.
pub open spec fn loop_members(v: JsonView) -> Seq<(JsonView, JsonView)> {
    match v {
        JsonView::Array(items) => Seq::new(
            items.len(),
            |i: int| (length_value(i), items[i]),
        ),
        JsonView::Object(o) => js::ordered(o).map_values(
            |m: (Seq<char>, JsonView)| (JsonView::String(m.0), m.1),
        ),
        _ => Seq::empty(),
    }
}

/// What a loop knows of its turn.
pub open spec fn turn_data(data: Entries, index: int, key: JsonView, last: bool) -> Entries {
    json::with_member(
        json::with_member(
            json::with_member(
                json::with_member(data, "index"@, length_value(index)),
                "key"@,
                key,
            ),
            "first"@,
            JsonView::Bool(index == 0),
        ),
        "last"@,
        JsonView::Bool(last),
    )
}

/// The turns of a loop.
pub open spec fn loop_turns(v: JsonView, data: Entries) -> Seq<(JsonView, Entries)> {
    let members = loop_members(v);
    Seq::new(
        members.len(),
        |i: int| (members[i].1, turn_data(data, i, members[i].0, i == members.len() - 1)),
    )
}

/// The texts one after the other.
pub open spec fn joined_all(list: Seq<Seq<char>>) -> Seq<char>
    decreases list.len(),
{
    if list.len() == 0 {
        Seq::empty()
    } else {
        joined_all(list.drop_last()) + list.last()
    }
}

/// What a built-in block renders.
pub enum Branch {
    Body,
    Inverse,
    /// The body with another context.
    With(JsonView),
    /// The body for each turn; the other part where there is none.
    Each(Seq<(JsonView, Entries)>),
    /// The body for each turn; the other part where nothing comes of it.
    Items(Seq<(JsonView, Entries)>),
}

/// What a built-in block renders, by its name, its value and its named arguments.
pub open spec fn branch(name: Seq<char>, value: JsonView, hash: Entries, f: FrameView) -> Branch {
    if name == "if"@ || name == "unless"@ {
        let yes = counts(value, json::lookup(hash, "includeZero"@) == Some(JsonView::Bool(true)));
        if yes == (name == "if"@) {
            Branch::Body
        } else {
            Branch::Inverse
        }
    } else if name == "each"@ {
        Branch::Each(loop_turns(value, f.data))
    } else if name == "with"@ {
        if counts(value, false) {
            Branch::With(value)
        } else {
            Branch::Inverse
        }
    } else {
        match resolved(name, f) {
            JsonView::Array(items) => Branch::Items(plain_turns(items, f.data)),
            JsonView::Bool(false) => Branch::Inverse,
            JsonView::Null => Branch::Inverse,
            other => Branch::With(other),
        }
    }
}

/// A block, rendered.
pub open spec fn block(eng: EngineView, node: NodeView, f: FrameView, depth: nat) -> Result<
    Seq<char>,
    Seq<char>,
>
    decreases room(depth), 1nat, node, 1nat, 0nat,
{
    match node {
        NodeView::Block { call, body, inverse } => if under(eng.helpers, call.name) is Some {
            match called(eng, call, true, body, inverse, f, depth) {
                Ok(o) => Ok(output_text(o, false)),
                Err(e) => Err(e),
            }
        } else if depth > MAX_NESTING {
            Err(NESTING_ERROR@)
        } else {
            match arguments(eng, call, call.args.len(), f, depth + 1) {
                Err(e) => Err(e),
                Ok(args) => match named_arguments(eng, call, call.hash.len(), f, depth + 1) {
                    Err(e) => Err(e),
                    Ok(hash) => {
                        let value = if args.len() > 0 {
                            args[0]
                        } else {
                            resolved(call.name, f)
                        };
                        if depth >= MAX_NESTING {
                            Err(NESTING_ERROR@)
                        } else {
                            match branch(call.name, value, hash, f) {
                                Branch::Body => rendered(eng, body, body.len(), f, depth + 1),
                                Branch::Inverse => rendered(
                                    eng,
                                    inverse,
                                    inverse.len(),
                                    f,
                                    depth + 1,
                                ),
                                Branch::With(v) => rendered(
                                    eng,
                                    body,
                                    body.len(),
                                    inside(f, v, f.data),
                                    depth + 1,
                                ),
                                Branch::Each(list) => if list.len() == 0 {
                                    rendered(eng, inverse, inverse.len(), f, depth + 1)
                                } else {
                                    match turns(eng, body, list, list.len(), f, depth + 1) {
                                        Ok(texts) => Ok(joined_all(texts)),
                                        Err(e) => Err(e),
                                    }
                                },
                                Branch::Items(list) => match turns(
                                    eng,
                                    body,
                                    list,
                                    list.len(),
                                    f,
                                    depth + 1,
                                ) {
                                    Ok(texts) => if joined_all(texts).len() == 0 {
                                        rendered(eng, inverse, inverse.len(), f, depth + 1)
                                    } else {
                                        Ok(joined_all(texts))
                                    },
                                    Err(e) => Err(e),
                                },
                            }
                        }
                    },
                },
            }
        },
        _ => Ok(Seq::empty()),
    }
}

/// An object with the members of another put over its own.
pub open spec fn extended(o: Entries, more: Entries) -> Entries
    decreases more.len(),
{
    if more.len() == 0 {
        o
    } else {
        json::with_member(extended(o, more.drop_last()), more.last().0, more.last().1)
    }
}

/// A list as an object of its places.
pub open spec fn spread(items: Seq<JsonView>) -> Entries {
    Seq::new(items.len(), |i: int| (text::decimal(i as nat), items[i]))
}

/// The context of a partial.
pub open spec fn merged(context: JsonView, hash: Entries) -> JsonView {
    match context {
        JsonView::Object(o) => JsonView::Object(extended(o, hash)),
        JsonView::Array(items) => JsonView::Object(extended(spread(items), hash)),
        JsonView::Null => JsonView::Object(Seq::empty()),
        _ => context,
    }
}

/// The frame that a template starts with.
pub open spec fn root_frame(context: JsonView) -> FrameView {
    FrameView { context, parent: None, root: context, data: Seq::empty() }
}

/// A partial, rendered: it sees the built-in blocks only.
pub open spec fn partial(eng: EngineView, call: CallView, f: FrameView, depth: nat) -> Result<
    Seq<char>,
    Seq<char>,
>
    decreases room(depth), 0nat, call, 3nat, 0nat,
{
    match under(eng.partials, call.name) {
        None => Err("The partial "@ + call.name + " could not be found"@),
        Some(source) => {
            let context = if call.args.len() > 0 {
                evaluated(eng, call.args[0], f, depth)
            } else {
                Ok(f.context)
            };
            match context {
                Err(e) => Err(e),
                Ok(v) => match named_arguments(eng, call, call.hash.len(), f, depth) {
                    Err(e) => Err(e),
                    Ok(hash) => match template_parse::template_of(source) {
                        Err(e) => Err(e),
                        Ok(nodes) => if depth >= MAX_NESTING {
                            Err(NESTING_ERROR@)
                        } else {
                            rendered(
                                bare_engine(eng.no_escape),
                                nodes,
                                nodes.len(),
                                root_frame(merged(v, hash)),
                                depth + 1,
                            )
                        },
                    },
                },
            }
        },
    }
}

/// What a template is rendered with.
pub open spec fn start_context(v: JsonView) -> JsonView {
    if v is Null {
        JsonView::Object(Seq::empty())
    } else {
        v
    }
}

/// A template rendered on a context.
pub open spec fn template_text(eng: EngineView, nodes: Seq<NodeView>, context: JsonView) -> Result<
    Seq<char>,
    Seq<char>,
> {
    rendered(eng, nodes, nodes.len(), root_frame(start_context(context)), 0)
}

/// A source rendered on a context.
pub open spec fn source_text(eng: EngineView, source: Seq<char>, context: JsonView) -> Result<
    Seq<char>,
    Seq<char>,
> {
    match template_parse::template_of(source) {
        Ok(nodes) => template_text(eng, nodes, context),
        Err(e) => Err(e),
    }
}

// ------------------------------------------------------------------ rendering

/// A template that was read.
#[derive(Debug)]
pub struct Template {
    pub nodes: Vec<Node>,
}

/// How a template is compiled.
#[derive(Clone, Copy, Debug, PartialEq, Eq, Structural)]
pub struct CompileOptions {
    pub no_escape: bool,
}

fn find_helper(list: &Vec<(String, Helper)>, name: &str) -> (r: Option<usize>)
    ensures
        ({
            let all = Seq::new(list@.len(), |i: int| (list@[i].0@, list@[i].1));
            match r {
                Some(i) => name_at(all, name@, 0) == Some(i as int) && i < list@.len(),
                None => name_at(all, name@, 0) is None,
            }
        }),
{
    let ghost all = Seq::new(list@.len(), |i: int| (list@[i].0@, list@[i].1));
    let mut i: usize = 0;
    while i < list.len()
        invariant
            i <= list@.len(),
            all == Seq::new(list@.len(), |i: int| (list@[i].0@, list@[i].1)),
            name_at(all, name@, 0) == name_at(all, name@, i as int),
        decreases list@.len() - i,
    {
        if same_text(list[i].0.as_str(), name) {
            return Some(i);
        }
        i += 1;
    }
    None
}

fn find_partial(list: &Vec<(String, String)>, name: &str) -> (r: Option<usize>)
    ensures
        ({
            let all = Seq::new(list@.len(), |i: int| (list@[i].0@, list@[i].1@));
            match r {
                Some(i) => name_at(all, name@, 0) == Some(i as int) && i < list@.len(),
                None => name_at(all, name@, 0) is None,
            }
        }),
{
    let ghost all = Seq::new(list@.len(), |i: int| (list@[i].0@, list@[i].1@));
    let mut i: usize = 0;
    while i < list.len()
        invariant
            i <= list@.len(),
            all == Seq::new(list@.len(), |i: int| (list@[i].0@, list@[i].1@)),
            name_at(all, name@, 0) == name_at(all, name@, i as int),
        decreases list@.len() - i,
    {
        if same_text(list[i].0.as_str(), name) {
            return Some(i);
        }
        i += 1;
    }
    None
}

/// A turn of a loop: its context, and what the loop knows of it.
struct Turn {
    context: Json,
    data: JsonObject,
}

impl View for Turn {
    type V = (JsonView, Entries);

    closed spec fn view(&self) -> (JsonView, Entries) {
        (self.context@, self.data@)
    }
}

fn make_plain_turns(items: &Vec<Json>, data: &JsonObject) -> (r: Vec<Turn>)
    ensures
        text::views(r@) == plain_turns(text::views(items@), data@),
{
    let mut out: Vec<Turn> = Vec::new();
    let mut i: usize = 0;
    while i < items.len()
        invariant
            i <= items@.len(),
            out@.len() == i,
            forall|j: int| 0 <= j < i ==> (#[trigger] out@[j])@ == (items@[j]@, data@),
        decreases items@.len() - i,
    {
        out.push(Turn { context: items[i].clone(), data: data.clone() });
        i += 1;
    }
    assert(text::views(out@) =~= plain_turns(text::views(items@), data@));
    out
}

fn make_turn_data(data: &JsonObject, index: usize, key: Json, last: bool) -> (r: JsonObject)
    ensures
        r@ == turn_data(data@, index as int, key@, last),
{
    let mut o = data.clone();
    o.insert("index".to_owned(), Json::Number(Number::PosInt(index as u64)));
    o.insert("key".to_owned(), key);
    o.insert("first".to_owned(), Json::Bool(index == 0));
    o.insert("last".to_owned(), Json::Bool(last));
    o
}

fn make_loop_turns(v: &Json, data: &JsonObject) -> (r: Vec<Turn>)
    ensures
        text::views(r@) == loop_turns(v@, data@),
{
    let ghost members = loop_members(v@);
    let mut out: Vec<Turn> = Vec::new();
    match v {
        Json::Array(items) => {
            proof {
                json::lemma_values_view(*items);
            }
            let n: usize = items.len();
            let mut i: usize = 0;
            while i < n
                invariant
                    i <= n,
                    n == items@.len(),
                    members.len() == n,
                    forall|j: int| 0 <= j < n ==> #[trigger] members[j] == (length_value(j), items@[j]@),
                    out@.len() == i,
                    forall|j: int|
                        0 <= j < i ==> (#[trigger] out@[j])@ == (
                            members[j].1,
                            turn_data(data@, j, members[j].0, j == members.len() - 1),
                        ),
                decreases n - i,
            {
                assert(members[i as int] == (length_value(i as int), items@[i as int]@));
                let key = Json::Number(Number::PosInt(i as u64));
                let known = make_turn_data(data, i, key, i + 1 == n);
                out.push(Turn { context: items[i].clone(), data: known });
                i += 1;
            }
        },
        Json::Object(o) => {
            let list = js::entries(o);
            let n: usize = list.len();
            let mut i: usize = 0;
            while i < n
                invariant
                    i <= n,
                    n == list@.len(),
                    members.len() == n,
                    members == loop_members(JsonView::Object(o@)),
                    js::ordered(o@).len() == n,
                    forall|j: int|
                        0 <= j < n ==> {
                            &&& (#[trigger] list@[j]).0@ == js::ordered(o@)[j].0
                            &&& list@[j].1@ == js::ordered(o@)[j].1
                        },
                    out@.len() == i,
                    forall|j: int|
                        0 <= j < i ==> (#[trigger] out@[j])@ == (
                            members[j].1,
                            turn_data(data@, j, members[j].0, j == members.len() - 1),
                        ),
                decreases n - i,
            {
                assert(list@[i as int].0@ == js::ordered(o@)[i as int].0);
                let key = Json::String(list[i].0.clone());
                assert(members[i as int] == (key@, list@[i as int].1@));
                let known = make_turn_data(data, i, key, i + 1 == n);
                out.push(Turn { context: list[i].1.clone(), data: known });
                i += 1;
            }
        },
        _ => {},
    }
    assert(text::views(out@) =~= loop_turns(v@, data@));
    out
}

fn join_all(list: &Vec<String>) -> (r: String)
    ensures
        r@ == joined_all(text::views(list@)),
{
    let ghost all = text::views(list@);
    let mut out = String::new();
    let mut i: usize = 0;
    assert(out@ =~= joined_all(all.take(0)));
    while i < list.len()
        invariant
            i <= list@.len(),
            all == text::views(list@),
            out@ == joined_all(all.take(i as int)),
        decreases list@.len() - i,
    {
        assert(all.take(i as int + 1).drop_last() =~= all.take(i as int));
        assert(all.take(i as int + 1).last() == list@[i as int]@);
        out.append(list[i].as_str());
        i += 1;
    }
    assert(all.take(i as int) =~= all);
    out
}

fn extend_object(o: JsonObject, more: &JsonObject) -> (r: JsonObject)
    ensures
        r@ == extended(o@, more@),
{
    let ghost all = more@;
    let mut out = o;
    let mut i: usize = 0;
    assert(all.take(0) =~= Seq::empty());
    while i < more.entries.len()
        invariant
            i <= more.entries@.len(),
            all == more@,
            out@ == extended(o@, all.take(i as int)),
        decreases more.entries@.len() - i,
    {
        assert(all.take(i as int + 1).drop_last() =~= all.take(i as int));
        assert(all.take(i as int + 1).last() == all[i as int]);
        out.insert(more.entries[i].0.clone(), more.entries[i].1.clone());
        i += 1;
    }
    assert(all.take(i as int) =~= all);
    out
}

fn spread_list(items: &Vec<Json>) -> (r: JsonObject)
    ensures
        r@ == spread(text::views(items@)),
{
    let mut out: Vec<(String, Json)> = Vec::new();
    let mut i: usize = 0;
    while i < items.len()
        invariant
            i <= items@.len(),
            out@.len() == i,
            forall|j: int|
                0 <= j < i ==> {
                    &&& (#[trigger] out@[j]).0@ == text::decimal(j as nat)
                    &&& out@[j].1@ == items@[j]@
                },
        decreases items@.len() - i,
    {
        out.push((text::decimal_text(i as u64), items[i].clone()));
        i += 1;
    }
    let r = JsonObject { entries: out };
    assert(r@ =~= spread(text::views(items@)));
    r
}

fn merge(context: Json, hash: &JsonObject) -> (r: Json)
    ensures
        r@ == merged(context@, hash@),
{
    match context {
        Json::Object(o) => Json::Object(extend_object(o, hash)),
        Json::Array(items) => {
            proof {
                json::lemma_values_view(items);
            }
            Json::Object(extend_object(spread_list(&items), hash))
        },
        Json::Null => empty_object(),
        other => other,
    }
}

fn empty_object() -> (r: Json)
    ensures
        r@ == JsonView::Object(Seq::empty()),
{
    let o = JsonObject::new();
    assert(o@ =~= Seq::empty());
    Json::Object(o)
}

fn start<'a>(context: Json, root: &'a Json) -> (r: Frame<'a>)
    requires
        context@ == root@,
    ensures
        r@ == root_frame(context@),
{
    let data = JsonObject::new();
    assert(data@ =~= Seq::empty());
    Frame { context, parent: None, root, data }
}

fn no_nodes() -> (r: Vec<Node>)
    ensures
        template_parse::nodes_view(r) == Seq::<NodeView>::empty(),
{
    let r: Vec<Node> = Vec::new();
    assert(template_parse::nodes_view(r) =~= Seq::<NodeView>::empty());
    r
}

fn too_deep() -> (r: TemplateError)
    ensures
        r.0@ == NESTING_ERROR@,
{
    TemplateError(NESTING_ERROR.to_owned())
}

/// What a built-in block renders, as [`Branch`] says.
enum Chosen {
    Body,
    Inverse,
    With(Json),
    Each(Vec<Turn>),
    Items(Vec<Turn>),
}

impl View for Chosen {
    type V = Branch;

    closed spec fn view(&self) -> Branch {
        match self {
            Chosen::Body => Branch::Body,
            Chosen::Inverse => Branch::Inverse,
            Chosen::With(v) => Branch::With(v@),
            Chosen::Each(list) => Branch::Each(text::views(list@)),
            Chosen::Items(list) => Branch::Items(text::views(list@)),
        }
    }
}

fn choose_branch<'a>(name: &str, value: Json, hash: &JsonObject, f: &'a Frame<'a>) -> (r: Chosen)
    ensures
        r@ == branch(name@, value@, hash@, f@),
{
    let is_if = same_text(name, "if");
    if is_if || same_text(name, "unless") {
        let zero = matches!(hash.get("includeZero"), Some(Json::Bool(true)));
        if conditional_truthy(&value, zero) == is_if {
            Chosen::Body
        } else {
            Chosen::Inverse
        }
    } else if same_text(name, "each") {
        Chosen::Each(make_loop_turns(&value, &f.data))
    } else if same_text(name, "with") {
        if conditional_truthy(&value, false) {
            Chosen::With(value)
        } else {
            Chosen::Inverse
        }
    } else {
        match resolve_path(name, f) {
            Json::Array(items) => {
                proof {
                    json::lemma_values_view(items);
                }
                Chosen::Items(make_plain_turns(&items, &f.data))
            },
            Json::Bool(false) => Chosen::Inverse,
            Json::Null => Chosen::Inverse,
            other => Chosen::With(other),
        }
    }
}

impl Engine {
    /// An engine without helpers and partials, which escapes.
    pub fn new() -> (r: Engine)
        ensures
            r@ == bare_engine(false),
    {
        Engine::with_options(CompileOptions { no_escape: false })
    }

    /// An engine without helpers and partials.
    pub fn with_options(options: CompileOptions) -> (r: Engine)
        ensures
            r@ == bare_engine(options.no_escape),
    {
        let r = Engine {
            helpers: Vec::new(),
            partials: Vec::new(),
            no_escape: options.no_escape,
        };
        assert(r@.helpers =~= Seq::empty());
        assert(r@.partials =~= Seq::empty());
        r
    }

    /// Puts a helper under a name.
    pub fn register_helper(&mut self, name: &str, helper: Helper)
        ensures
            final(self)@ == (EngineView {
                helpers: put_under(old(self)@.helpers, name@, helper),
                ..old(self)@
            }),
    {
        let ghost before = self@;
        match find_helper(&self.helpers, name) {
            Some(i) => {
                self.helpers.set(i, (name.to_owned(), helper));
                assert(self@.helpers =~= before.helpers.update(i as int, (name@, helper)));
            },
            None => {
                self.helpers.push((name.to_owned(), helper));
                assert(self@.helpers =~= before.helpers.push((name@, helper)));
            },
        }
    }

    /// Puts a partial under a name.
    pub fn register_partial(&mut self, name: &str, source: &str)
        ensures
            final(self)@ == (EngineView {
                partials: put_under(old(self)@.partials, name@, source@),
                ..old(self)@
            }),
    {
        let ghost before = self@;
        match find_partial(&self.partials, name) {
            Some(i) => {
                self.partials.set(i, (name.to_owned(), source.to_owned()));
                assert(self@.partials =~= before.partials.update(i as int, (name@, source@)));
            },
            None => {
                self.partials.push((name.to_owned(), source.to_owned()));
                assert(self@.partials =~= before.partials.push((name@, source@)));
            },
        }
    }

    /// Reads a template.
    pub fn compile(&self, source: &str) -> (r: Result<Template, TemplateError>)
        ensures
            match template_parse::template_of(source@) {
                Ok(nodes) => r matches Ok(t) && template_parse::nodes_view(t.nodes) == nodes,
                Err(e) => r matches Err(told) && told.0@ == e,
            },
    {
        let plain = strip_standalone(source);
        match parse_template(plain.as_str()) {
            Ok(nodes) => Ok(Template { nodes }),
            Err(e) => Err(e),
        }
    }

    /// Reads and renders a template.
    pub fn render(&self, source: &str, context: &Json) -> (r: Result<String, TemplateError>)
        ensures
            template_parse::parsed_view(r) == source_text(self@, source@, context@),
    {
        match self.compile(source) {
            Ok(t) => self.render_template(&t, context),
            Err(e) => Err(e),
        }
    }

    /// Renders a template.
    pub fn render_template(&self, template: &Template, context: &Json) -> (r: Result<
        String,
        TemplateError,
    >)
        ensures
            template_parse::parsed_view(r) == template_text(
                self@,
                template_parse::nodes_view(template.nodes),
                context@,
            ),
    {
        let root = if context.is_null() {
            empty_object()
        } else {
            context.clone()
        };
        let f = start(root.clone(), &root);
        self.render_nodes(&template.nodes, &f, 0)
    }

    fn render_nodes<'a>(&self, nodes: &Vec<Node>, f: &'a Frame<'a>, depth: usize) -> (r: Result<
        String,
        TemplateError,
    >)
        requires
            depth <= MAX_NESTING,
        ensures
            template_parse::parsed_view(r) == rendered(
                self@,
                template_parse::nodes_view(*nodes),
                nodes@.len(),
                f@,
                depth as nat,
            ),
        decreases 102 - depth, 1nat, nodes, 0nat,
    {
        let ghost all = template_parse::nodes_view(*nodes);
        let mut out = String::new();
        let mut i: usize = 0;
        assert(out@ =~= Seq::empty());
        while i < nodes.len()
            invariant
                i <= nodes@.len(),
                depth <= MAX_NESTING,
                all == template_parse::nodes_view(*nodes),
                rendered(self@, all, i as nat, f@, depth as nat) == Ok::<Seq<char>, Seq<char>>(out@),
            decreases nodes@.len() - i,
        {
            proof {
                assert(all[i as int] == nodes@[i as int]@);
                assert(decreases_to!(nodes@ => nodes@[i as int]));
            }
            match self.render_node(&nodes[i], f, depth) {
                Ok(t) => {
                    out.append(t.as_str());
                },
                Err(e) => {
                    proof {
                        lemma_rendered_fails(self@, all, i as nat, all.len(), f@, depth as nat);
                    }
                    return Err(e);
                },
            }
            i += 1;
        }
        Ok(out)
    }

    fn render_node<'a>(&self, node: &Node, f: &'a Frame<'a>, depth: usize) -> (r: Result<
        String,
        TemplateError,
    >)
        requires
            depth <= MAX_NESTING,
        ensures
            template_parse::parsed_view(r) == piece(self@, node@, f@, depth as nat),
        decreases 102 - depth, 1nat, node, 2nat,
    {
        match node {
            Node::Text(t) => Ok(t.clone()),
            Node::Output { call, escaped } => {
                let none = no_nodes();
                match self.eval_call(call, false, &none, &none, f, depth) {
                    Ok(o) => Ok(stringify(&o, *escaped && !self.no_escape)),
                    Err(e) => Err(e),
                }
            },
            Node::Partial(call) => self.render_partial(call, f, depth),
            Node::Block { .. } => self.eval_block(node, f, depth),
        }
    }

    fn eval_expr<'a>(&self, e: &Expr, f: &'a Frame<'a>, depth: usize) -> (r: Result<
        Json,
        TemplateError,
    >)
        requires
            depth <= MAX_NESTING + 1,
        ensures
            template_parse::parsed_view(r) == evaluated(self@, e@, f@, depth as nat),
        decreases 102 - depth, 0nat, e, 0nat,
    {
        match e {
            Expr::Literal(v) => Ok(v.clone()),
            Expr::Path(p) => Ok(resolve_path(p.as_str(), f)),
            Expr::Call(c) => {
                let none = no_nodes();
                match self.eval_call(c, false, &none, &none, f, depth) {
                    Ok(Output::Value(v)) => Ok(v),
                    Ok(Output::Safe(s)) => Ok(Json::String(s)),
                    Err(e) => Err(e),
                }
            },
        }
    }

    fn eval_args<'a>(&self, call: &Call, f: &'a Frame<'a>, depth: usize) -> (r: Result<
        Vec<Json>,
        TemplateError,
    >)
        requires
            depth <= MAX_NESTING + 1,
        ensures
            match arguments(self@, call@, call@.args.len(), f@, depth as nat) {
                Ok(list) => r matches Ok(out) && text::views(out@) == list,
                Err(e) => r matches Err(told) && told.0@ == e,
            },
        decreases 102 - depth, 0nat, call, 1nat,
    {
        let mut out: Vec<Json> = Vec::new();
        let mut i: usize = 0;
        assert(text::views(out@) =~= Seq::empty());
        while i < call.args.len()
            invariant
                i <= call.args@.len(),
                depth <= MAX_NESTING + 1,
                arguments(self@, call@, i as nat, f@, depth as nat) == Ok::<
                    Seq<JsonView>,
                    Seq<char>,
                >(text::views(out@)),
            decreases call.args@.len() - i,
        {
            proof {
                assert(call@.args[i as int] == call.args@[i as int]@);
                assert(decreases_to!(*call => call.args));
                assert(decreases_to!(call.args@ => call.args@[i as int]));
            }
            match self.eval_expr(&call.args[i], f, depth) {
                Ok(v) => {
                    proof {
                        text::lemma_views_push(out@, v);
                    }
                    out.push(v);
                },
                Err(e) => {
                    proof {
                        lemma_arguments_fail(
                            self@,
                            call@,
                            i as nat,
                            call@.args.len(),
                            f@,
                            depth as nat,
                        );
                    }
                    return Err(e);
                },
            }
            i += 1;
        }
        Ok(out)
    }

    fn eval_hash<'a>(&self, call: &Call, f: &'a Frame<'a>, depth: usize) -> (r: Result<
        JsonObject,
        TemplateError,
    >)
        requires
            depth <= MAX_NESTING + 1,
        ensures
            template_parse::parsed_view(r) == named_arguments(
                self@,
                call@,
                call@.hash.len(),
                f@,
                depth as nat,
            ),
        decreases 102 - depth, 0nat, call, 1nat,
    {
        let mut out = JsonObject::new();
        let mut i: usize = 0;
        assert(out@ =~= Seq::empty());
        while i < call.hash.len()
            invariant
                i <= call.hash@.len(),
                depth <= MAX_NESTING + 1,
                named_arguments(self@, call@, i as nat, f@, depth as nat) == Ok::<
                    Entries,
                    Seq<char>,
                >(out@),
            decreases call.hash@.len() - i,
        {
            proof {
                assert(call@.hash[i as int] == (call.hash@[i as int].0@, call.hash@[i as int].1@));
                assert(decreases_to!(*call => call.hash));
                assert(decreases_to!(call.hash@ => call.hash@[i as int]));
                assert(decreases_to!(call.hash@[i as int] => call.hash@[i as int].1));
            }
            match self.eval_expr(&call.hash[i].1, f, depth) {
                Ok(v) => {
                    out.insert(call.hash[i].0.clone(), v);
                },
                Err(e) => {
                    proof {
                        lemma_named_fail(
                            self@,
                            call@,
                            i as nat,
                            call@.hash.len(),
                            f@,
                            depth as nat,
                        );
                    }
                    return Err(e);
                },
            }
            i += 1;
        }
        Ok(out)
    }

    fn eval_call<'a>(
        &self,
        call: &Call,
        force: bool,
        body: &Vec<Node>,
        inverse: &Vec<Node>,
        f: &'a Frame<'a>,
        depth: usize,
    ) -> (r: Result<Output, TemplateError>)
        requires
            depth <= MAX_NESTING + 1,
        ensures
            template_parse::parsed_view(r) == called(
                self@,
                call@,
                force,
                template_parse::nodes_view(*body),
                template_parse::nodes_view(*inverse),
                f@,
                depth as nat,
            ),
        decreases 102 - depth, 0nat, call, 2nat,
    {
        let args = match self.eval_args(call, f, depth) {
            Ok(a) => a,
            Err(e) => {
                return Err(e);
            },
        };
        let hash = match self.eval_hash(call, f, depth) {
            Ok(h) => h,
            Err(e) => {
                return Err(e);
            },
        };
        match find_helper(&self.helpers, call.name.as_str()) {
            Some(i) => {
                let helper = &self.helpers[i].1;
                let h = HelperCall {
                    name: call.name.clone(),
                    this: f.context.clone(),
                    args,
                    hash,
                };
                self.run_helper(helper, &h, call, body, inverse, f, depth)
            },
            None => {
                if same_text(call.name.as_str(), "lookup") && args.len() >= 2 {
                    let key = js::to_string(&args[1]);
                    return Ok(Output::Value(property(&args[0], key.as_str())));
                }
                if force || args.len() > 0 || hash.entries.len() > 0 {
                    let said = concat("Missing helper: \"", call.name.as_str());
                    return Err(TemplateError(concat(said.as_str(), "\"")));
                }
                Ok(Output::Value(resolve_path(call.name.as_str(), f)))
            },
        }
    }

    fn run_helper<'a>(
        &self,
        helper: &Helper,
        h: &HelperCall,
        call: &Call,
        body: &Vec<Node>,
        inverse: &Vec<Node>,
        f: &'a Frame<'a>,
        depth: usize,
    ) -> (r: Result<Output, TemplateError>)
        requires
            depth <= MAX_NESTING + 1,
        ensures
            template_parse::parsed_view(r) == helped(
                self@,
                *helper,
                h@,
                call@,
                template_parse::nodes_view(*body),
                template_parse::nodes_view(*inverse),
                f@,
                depth as nat,
            ),
        decreases 102 - depth, 0nat, call, 1nat,
    {
        match plan_helper(helper, h) {
            Err(e) => Err(e),
            Ok(Plan::Ready(o)) => Ok(o),
            Ok(Plan::Once { inverse: other }) => {
                if depth >= MAX_NESTING {
                    return Err(too_deep());
                }
                let nodes = if other {
                    inverse
                } else {
                    body
                };
                let inner = enter(f, f.context.clone(), f.data.clone());
                match self.render_nodes(nodes, &inner, depth + 1) {
                    Err(e) => Err(e),
                    Ok(t) => {
                        if other {
                            return Ok(Output::Value(Json::String(t)));
                        }
                        let ghost seen = t@;
                        let mut one: Vec<String> = Vec::new();
                        one.push(t);
                        assert(text::views(one@) =~= seq![seen]);
                        Ok(Output::Value(Json::String(finish_helper(helper, h, &one))))
                    },
                }
            },
            Ok(Plan::Items(items)) => {
                if items.len() == 0 {
                    let none: Vec<String> = Vec::new();
                    assert(text::views(none@) =~= Seq::empty());
                    return Ok(Output::Value(Json::String(finish_helper(helper, h, &none))));
                }
                if depth >= MAX_NESTING {
                    return Err(too_deep());
                }
                let list = make_plain_turns(&items, &f.data);
                match self.render_turns(body, &list, f, depth + 1) {
                    Err(e) => Err(e),
                    Ok(texts) => Ok(
                        Output::Value(Json::String(finish_helper(helper, h, &texts))),
                    ),
                }
            },
            Ok(Plan::Steps) => self.work(helper, h, call, body, inverse, f, depth),
        }
    }

    /// The output of a helper of the host.
    fn work<'a>(
        &self,
        helper: &Helper,
        h: &HelperCall,
        call: &Call,
        body: &Vec<Node>,
        inverse: &Vec<Node>,
        f: &'a Frame<'a>,
        depth: usize,
    ) -> (r: Result<Output, TemplateError>)
        requires
            depth <= MAX_NESTING + 1,
        ensures
            template_parse::parsed_view(r) == stepped(
                self@,
                *helper,
                h@,
                call@,
                template_parse::nodes_view(*body),
                template_parse::nodes_view(*inverse),
                f@,
                depth as nat,
                Seq::empty(),
                usize::MAX as nat,
            ),
        decreases 102 - depth, 0nat, call, 0nat,
    {
        let ghost first = template_parse::nodes_view(*body);
        let ghost other = template_parse::nodes_view(*inverse);
        let mut seen: Vec<Result<String, TemplateError>> = Vec::new();
        let mut left: usize = usize::MAX;
        assert(outcomes(seen@) =~= Seq::empty());
        loop
            invariant
                depth <= MAX_NESTING + 1,
                first == template_parse::nodes_view(*body),
                other == template_parse::nodes_view(*inverse),
                stepped(
                    self@,
                    *helper,
                    h@,
                    call@,
                    first,
                    other,
                    f@,
                    depth as nat,
                    Seq::empty(),
                    usize::MAX as nat,
                ) == stepped(
                    self@,
                    *helper,
                    h@,
                    call@,
                    first,
                    other,
                    f@,
                    depth as nat,
                    outcomes(seen@),
                    left as nat,
                ),
            decreases left,
        {
            match take_step(helper, h, &seen) {
                Err(e) => {
                    return Err(e);
                },
                Ok(HelperStep::Done(o)) => {
                    return Ok(o);
                },
                Ok(HelperStep::Render(part)) => {
                    if left == 0 {
                        return Err(TemplateError(ENDLESS_ERROR.to_owned()));
                    }
                    let nodes = if part.inverse {
                        inverse
                    } else {
                        body
                    };
                    let outcome = if depth >= MAX_NESTING {
                        Err(too_deep())
                    } else {
                        let inner = enter(f, part.context, f.data.clone());
                        self.render_nodes(nodes, &inner, depth + 1)
                    };
                    let ghost told = template_parse::parsed_view(outcome);
                    let ghost before = outcomes(seen@);
                    seen.push(outcome);
                    assert(outcomes(seen@) =~= before.push(told));
                    left -= 1;
                },
            }
        }
    }

    fn render_turns<'a>(&self, nodes: &Vec<Node>, list: &Vec<Turn>, f: &'a Frame<'a>, depth: usize) -> (r:
        Result<Vec<String>, TemplateError>)
        requires
            depth <= MAX_NESTING,
        ensures
            match turns(
                self@,
                template_parse::nodes_view(*nodes),
                text::views(list@),
                list@.len(),
                f@,
                depth as nat,
            ) {
                Ok(texts) => r matches Ok(out) && text::views(out@) == texts,
                Err(e) => r matches Err(told) && told.0@ == e,
            },
        decreases 102 - depth, 1nat, nodes, 1nat,
    {
        let ghost all = text::views(list@);
        let ghost seen = template_parse::nodes_view(*nodes);
        let mut out: Vec<String> = Vec::new();
        let mut i: usize = 0;
        assert(text::views(out@) =~= Seq::empty());
        while i < list.len()
            invariant
                i <= list@.len(),
                depth <= MAX_NESTING,
                all == text::views(list@),
                seen == template_parse::nodes_view(*nodes),
                turns(self@, seen, all, i as nat, f@, depth as nat) == Ok::<
                    Seq<Seq<char>>,
                    Seq<char>,
                >(text::views(out@)),
            decreases list@.len() - i,
        {
            assert(all[i as int] == list@[i as int]@);
            let inner = enter(f, list[i].context.clone(), list[i].data.clone());
            match self.render_nodes(nodes, &inner, depth) {
                Ok(t) => {
                    proof {
                        text::lemma_views_push(out@, t);
                    }
                    out.push(t);
                },
                Err(e) => {
                    proof {
                        lemma_turns_fail(self@, seen, all, i as nat, all.len(), f@, depth as nat);
                    }
                    return Err(e);
                },
            }
            i += 1;
        }
        Ok(out)
    }

    fn eval_block<'a>(&self, node: &Node, f: &'a Frame<'a>, depth: usize) -> (r: Result<
        String,
        TemplateError,
    >)
        requires
            depth <= MAX_NESTING,
        ensures
            template_parse::parsed_view(r) == block(self@, node@, f@, depth as nat),
        decreases 102 - depth, 1nat, node, 1nat,
    {
        let (call, body, inverse) = match node {
            Node::Block { call, body, inverse } => (call, body, inverse),
            _ => {
                let none = String::new();
                assert(none@ =~= Seq::empty());
                return Ok(none);
            },
        };
        if find_helper(&self.helpers, call.name.as_str()).is_some() {
            return match self.eval_call(call, true, body, inverse, f, depth) {
                Ok(o) => Ok(stringify(&o, false)),
                Err(e) => Err(e),
            };
        }
        let args = match self.eval_args(call, f, depth + 1) {
            Ok(a) => a,
            Err(e) => {
                return Err(e);
            },
        };
        let hash = match self.eval_hash(call, f, depth + 1) {
            Ok(h) => h,
            Err(e) => {
                return Err(e);
            },
        };
        let value = if args.len() > 0 {
            args[0].clone()
        } else {
            resolve_path(call.name.as_str(), f)
        };
        if depth >= MAX_NESTING {
            return Err(too_deep());
        }
        match choose_branch(call.name.as_str(), value, &hash, f) {
            Chosen::Body => self.render_nodes(body, f, depth + 1),
            Chosen::Inverse => self.render_nodes(inverse, f, depth + 1),
            Chosen::With(v) => {
                let inner = enter(f, v, f.data.clone());
                self.render_nodes(body, &inner, depth + 1)
            },
            Chosen::Each(list) => {
                if list.len() == 0 {
                    return self.render_nodes(inverse, f, depth + 1);
                }
                match self.render_turns(body, &list, f, depth + 1) {
                    Ok(texts) => Ok(join_all(&texts)),
                    Err(e) => Err(e),
                }
            },
            Chosen::Items(list) => match self.render_turns(body, &list, f, depth + 1) {
                Ok(texts) => {
                    let whole = join_all(&texts);
                    if to_chars(whole.as_str()).len() == 0 {
                        self.render_nodes(inverse, f, depth + 1)
                    } else {
                        Ok(whole)
                    }
                },
                Err(e) => Err(e),
            },
        }
    }

    fn render_partial<'a>(&self, call: &Call, f: &'a Frame<'a>, depth: usize) -> (r: Result<
        String,
        TemplateError,
    >)
        requires
            depth <= MAX_NESTING,
        ensures
            template_parse::parsed_view(r) == partial(self@, call@, f@, depth as nat),
        decreases 102 - depth, 0nat, call, 3nat,
    {
        let at: usize = match find_partial(&self.partials, call.name.as_str()) {
            Some(i) => i,
            None => {
                let said = concat("The partial ", call.name.as_str());
                return Err(TemplateError(concat(said.as_str(), " could not be found")));
            },
        };
        let context = if call.args.len() > 0 {
            proof {
                assert(call@.args[0] == call.args@[0]@);
                assert(decreases_to!(*call => call.args));
                assert(decreases_to!(call.args@ => call.args@[0]));
            }
            match self.eval_expr(&call.args[0], f, depth) {
                Ok(v) => v,
                Err(e) => {
                    return Err(e);
                },
            }
        } else {
            f.context.clone()
        };
        let hash = match self.eval_hash(call, f, depth) {
            Ok(h) => h,
            Err(e) => {
                return Err(e);
            },
        };
        let inner = Engine::with_options(CompileOptions { no_escape: self.no_escape });
        let template = match inner.compile(self.partials[at].1.as_str()) {
            Ok(t) => t,
            Err(e) => {
                return Err(e);
            },
        };
        if depth >= MAX_NESTING {
            return Err(too_deep());
        }
        let root = merge(context, &hash);
        let frame = start(root.clone(), &root);
        inner.render_nodes(&template.nodes, &frame, depth + 1)
    }
}

proof fn lemma_rendered_fails(
    eng: EngineView,
    nodes: Seq<NodeView>,
    i: nat,
    n: nat,
    f: FrameView,
    depth: nat,
)
    requires
        i < n <= nodes.len(),
        rendered(eng, nodes, i, f, depth) is Ok,
        piece(eng, nodes[i as int], f, depth) is Err,
    ensures
        rendered(eng, nodes, n, f, depth) == Err::<Seq<char>, Seq<char>>(
            piece(eng, nodes[i as int], f, depth)->Err_0,
        ),
    decreases n,
{
    if n > i + 1 {
        lemma_rendered_fails(eng, nodes, i, (n - 1) as nat, f, depth);
    }
}

proof fn lemma_arguments_fail(
    eng: EngineView,
    call: CallView,
    i: nat,
    n: nat,
    f: FrameView,
    depth: nat,
)
    requires
        i < n <= call.args.len(),
        arguments(eng, call, i, f, depth) is Ok,
        evaluated(eng, call.args[i as int], f, depth) is Err,
    ensures
        arguments(eng, call, n, f, depth) == Err::<Seq<JsonView>, Seq<char>>(
            evaluated(eng, call.args[i as int], f, depth)->Err_0,
        ),
    decreases n,
{
    if n > i + 1 {
        lemma_arguments_fail(eng, call, i, (n - 1) as nat, f, depth);
    }
}

proof fn lemma_named_fail(
    eng: EngineView,
    call: CallView,
    i: nat,
    n: nat,
    f: FrameView,
    depth: nat,
)
    requires
        i < n <= call.hash.len(),
        named_arguments(eng, call, i, f, depth) is Ok,
        evaluated(eng, call.hash[i as int].1, f, depth) is Err,
    ensures
        named_arguments(eng, call, n, f, depth) == Err::<Entries, Seq<char>>(
            evaluated(eng, call.hash[i as int].1, f, depth)->Err_0,
        ),
    decreases n,
{
    if n > i + 1 {
        lemma_named_fail(eng, call, i, (n - 1) as nat, f, depth);
    }
}

proof fn lemma_turns_fail(
    eng: EngineView,
    nodes: Seq<NodeView>,
    list: Seq<(JsonView, Entries)>,
    i: nat,
    n: nat,
    f: FrameView,
    depth: nat,
)
    requires
        i < n <= list.len(),
        turns(eng, nodes, list, i, f, depth) is Ok,
        rendered(
            eng,
            nodes,
            nodes.len(),
            inside(f, list[i as int].0, list[i as int].1),
            depth,
        ) is Err,
    ensures
        turns(eng, nodes, list, n, f, depth) == Err::<Seq<Seq<char>>, Seq<char>>(
            rendered(
                eng,
                nodes,
                nodes.len(),
                inside(f, list[i as int].0, list[i as int].1),
                depth,
            )->Err_0,
        ),
    decreases n,
{
    if n > i + 1 {
        lemma_turns_fail(eng, nodes, list, i, (n - 1) as nat, f, depth);
    }
}

// ------------------------------------------------------------------ what holds of every template

/// A block that no helper takes renders nothing beyond the innermost level.
pub proof fn law_nesting_is_capped(eng: EngineView, node: NodeView, f: FrameView, depth: nat)
    requires
        node is Block,
        under(eng.helpers, node->Block_call.name) is None,
        depth >= MAX_NESTING,
    ensures
        block(eng, node, f, depth) is Err,
{
}

/// Text without tags renders as it stands.
pub proof fn law_plain_text_is_kept(eng: EngineView, source: Seq<char>, context: JsonView)
    requires
        text::find_text(template_parse::stripped(source), "{{"@, 0) is None,
    ensures
        source_text(eng, source, context) == Ok::<Seq<char>, Seq<char>>(
            template_parse::stripped(source),
        ),
{
    let s = template_parse::stripped(source);
    let st = template_parse::parse_start();
    let f = root_frame(start_context(context));
    reveal_with_fuel(template_parse::parse_from, 3);
    reveal_with_fuel(rendered, 3);
    if s.len() > 0 {
        let node = NodeView::Text(s.skip(0));
        assert(s.skip(0) =~= s);
        assert(template_parse::parse_step(s, 0, st) == Ok::<
            (int, template_parse::ParsingView),
            Seq<char>,
        >((s.len() as int, template_parse::with_node(st, node))));
        let nodes = st.root.push(node);
        assert(template_parse::template_of(source) == Ok::<Seq<NodeView>, Seq<char>>(nodes));
        assert(nodes.len() == 1);
        assert(nodes[0] == node);
        assert(rendered(eng, nodes, 0, f, 0) == Ok::<Seq<char>, Seq<char>>(Seq::empty()));
        assert(piece(eng, node, f, 0) == Ok::<Seq<char>, Seq<char>>(s));
        assert(Seq::<char>::empty() + s =~= s);
    } else {
        assert(template_parse::template_of(source) == Ok::<Seq<NodeView>, Seq<char>>(st.root));
        assert(s =~= Seq::empty());
    }
}

/// A helper goes before a property of the same name.
pub proof fn law_helpers_come_first(
    eng: EngineView,
    call: CallView,
    helper: Helper,
    f: FrameView,
    depth: nat,
)
    requires
        under(eng.helpers, call.name) == Some(helper),
        call.args.len() == 0,
        call.hash.len() == 0,
    ensures
        called(eng, call, false, Seq::empty(), Seq::empty(), f, depth) == helped(
            eng,
            helper,
            HelperCallView {
                name: call.name,
                this: f.context,
                args: Seq::empty(),
                hash: Seq::empty(),
            },
            call,
            Seq::empty(),
            Seq::empty(),
            f,
            depth,
        ),
{
}

/// What is put under a name is found there, and nothing else changes.
pub proof fn law_registered_is_found<T>(
    list: Seq<(Seq<char>, T)>,
    name: Seq<char>,
    x: T,
    other: Seq<char>,
)
    ensures
        under(put_under(list, name, x), name) == Some(x),
        other != name ==> under(put_under(list, name, x), other) == under(list, other),
{
    lemma_name_at(list, name, 0);
    lemma_name_at(list, other, 0);
    let after = put_under(list, name, x);
    lemma_name_at(after, name, 0);
    lemma_name_at(after, other, 0);
    let place = match name_at(list, name, 0) {
        Some(i) => i,
        None => list.len() as int,
    };
    assert(after[place] == (name, x));
    assert forall|j: int| 0 <= j < list.len() && j != place implies after[j] == list[j] by {}
    match name_at(after, name, 0) {
        Some(k) => {
            if k < place {
                assert(after[k] == list[k]);
            }
        },
        None => {},
    }
    if other != name {
        match name_at(list, other, 0) {
            Some(k) => {
                assert(after[k] == list[k]);
                let m = name_at(after, other, 0).unwrap();
                if m < k {
                    assert(after[m] == list[m]);
                }
            },
            None => {
                match name_at(after, other, 0) {
                    Some(m) => {
                        assert(m != place);
                        assert(after[m] == list[m]);
                    },
                    None => {},
                }
            },
        }
    }
}

proof fn lemma_name_at<T>(list: Seq<(Seq<char>, T)>, name: Seq<char>, i: int)
    requires
        0 <= i,
    ensures
        match name_at(list, name, i) {
            Some(k) => i <= k < list.len() && list[k].0 == name && forall|j: int|
                i <= j < k ==> (#[trigger] list[j]).0 != name,
            None => forall|j: int| i <= j < list.len() ==> (#[trigger] list[j]).0 != name,
        },
    decreases list.len() - i,
{
    if i < list.len() && list[i].0 != name {
        lemma_name_at(list, name, i + 1);
    }
}

/// A partial sees no helpers and no partials: with the same source under its name, it renders the
/// same whatever else the engine holds.
pub proof fn law_partials_stand_alone(
    one: EngineView,
    two: EngineView,
    call: CallView,
    f: FrameView,
    depth: nat,
)
    requires
        under(one.partials, call.name) == under(two.partials, call.name),
        one.no_escape == two.no_escape,
        call.args.len() == 0,
        call.hash.len() == 0,
    ensures
        partial(one, call, f, depth) == partial(two, call, f, depth),
{
}

} // verus!
