//! YAML documents as JSON values, by the core schema.
use crate::js;
use crate::js::{JsNumber, JsNumberView};
use crate::json;
use crate::json::{Entries, Json, JsonObject, JsonView, NumberView};
use crate::number;
use crate::number::between;
use crate::text;
use crate::text::{is_at, same_text, to_chars};
use vstd::prelude::*;
use yaml_rust2::parser::Event::{Alias, MappingEnd, MappingStart, Scalar, SequenceEnd, SequenceStart, StreamEnd};
use yaml_rust2::parser::Parser;
use yaml_rust2::scanner::TScalarStyle::Plain;

verus! {

// ------------------------------------------------------------------ events

/// The tag of a scalar.
#[derive(Debug, PartialEq)]
pub struct YamlTag {
    pub handle: String,
    pub suffix: String,
}

/// What a parser tells of a text.
#[derive(Debug, PartialEq)]
pub enum YamlEvent {
    /// A scalar, whether it is plain, its anchor (zero where it has none) and its tag.
    Scalar(String, bool, usize, Option<YamlTag>),
    Alias(usize),
    SequenceStart(usize),
    MappingStart(usize),
    SequenceEnd,
    MappingEnd,
    /// The start or the end of a document or of the stream.
    Other,
}

/// What a [`YamlTag`] stands for.
#[verifier::ext_equal]
pub struct YamlTagView {
    pub handle: Seq<char>,
    pub suffix: Seq<char>,
}

/// What a [`YamlEvent`] stands for.
#[verifier::ext_equal]
pub enum YamlEventView {
    Scalar(Seq<char>, bool, usize, Option<YamlTagView>),
    Alias(usize),
    SequenceStart(usize),
    MappingStart(usize),
    SequenceEnd,
    MappingEnd,
    Other,
}

impl View for YamlTag {
    type V = YamlTagView;

    open spec fn view(&self) -> YamlTagView {
        YamlTagView { handle: self.handle@, suffix: self.suffix@ }
    }
}

impl View for YamlEvent {
    type V = YamlEventView;

    open spec fn view(&self) -> YamlEventView {
        match self {
            YamlEvent::Scalar(s, plain, anchor, tag) => YamlEventView::Scalar(
                s@,
                *plain,
                *anchor,
                text::opt_view(*tag),
            ),
            YamlEvent::Alias(a) => YamlEventView::Alias(*a),
            YamlEvent::SequenceStart(a) => YamlEventView::SequenceStart(*a),
            YamlEvent::MappingStart(a) => YamlEventView::MappingStart(*a),
            YamlEvent::SequenceEnd => YamlEventView::SequenceEnd,
            YamlEvent::MappingEnd => YamlEventView::MappingEnd,
            YamlEvent::Other => YamlEventView::Other,
        }
    }
}

/// The parser of `yaml_rust2`.
#[verifier::external_type_specification]
#[verifier::external_body]
#[verifier::reject_recursive_types(T)]
pub struct ExYamlParser<T>(Parser<T>);

/// What the parser of `yaml_rust2` tells of a text up to the end of the stream, and the error
/// that it stops with.
pub uninterp spec fn yaml_stream(source: Seq<char>) -> (Seq<YamlEventView>, Option<Seq<char>>);

/// What a parser has still to tell up to the end of the stream, and the error that it stops with.
pub uninterp spec fn events_left(parser: Parser<std::str::Chars<'_>>) -> (
    Seq<YamlEventView>,
    Option<Seq<char>>,
);

/// `yaml_rust2::parser::Parser::new_from_str`: a parser that has told nothing of its text. What
/// it will tell depends on the text alone; it is named [`yaml_stream`].
#[verifier::external_body]
fn new_parser<'a>(source: &'a str) -> (r: Parser<std::str::Chars<'a>>)
    ensures
        events_left(r) == yaml_stream(source@),
{
    Parser::new_from_str(source)
}

/// `yaml_rust2::parser::Parser::next_token`: the next event, carried over variant by variant;
/// nothing where the stream ends, and the text of the error where the text is no YAML.
#[verifier::external_body]
fn next_event<'a>(parser: &mut Parser<std::str::Chars<'a>>) -> (r: Result<
    Option<YamlEvent>,
    String,
>)
    ensures
        match r {
            Ok(Some(e)) => events_left(*old(parser)).0.len() > 0 && e@ == events_left(
                *old(parser),
            ).0[0] && events_left(*final(parser)) == (
                events_left(*old(parser)).0.skip(1),
                events_left(*old(parser)).1,
            ),
            Ok(None) => events_left(*old(parser)).0.len() == 0 && events_left(
                *old(parser),
            ).1 is None,
            Err(e) => events_left(*old(parser)).0.len() == 0 && events_left(*old(parser)).1
                == Some(e@),
        },
{
    Ok(Some(match parser.next_token().map_err(|e| e.to_string())?.0 {
        StreamEnd => return Ok(None),
        Scalar(s, style, a, tag) => YamlEvent::Scalar(s, style == Plain, a, tag.map(|t| YamlTag { handle: t.handle, suffix: t.suffix })),
        Alias(a) => YamlEvent::Alias(a),
        SequenceStart(a, _) => YamlEvent::SequenceStart(a),
        MappingStart(a, _) => YamlEvent::MappingStart(a),
        SequenceEnd => YamlEvent::SequenceEnd,
        MappingEnd => YamlEvent::MappingEnd,
        _ => YamlEvent::Other,
    }))
}

fn yaml_events(source: &str) -> (r: (Vec<YamlEvent>, Option<String>))
    ensures
        (text::views(r.0@), text::opt_view(r.1)) == yaml_stream(source@),
{
    let mut parser = new_parser(source);
    let mut all: Vec<YamlEvent> = Vec::new();
    let ghost stream = yaml_stream(source@);
    assert(text::views(all@) + events_left(parser).0 =~= stream.0);
    loop
        invariant
            text::views(all@) + events_left(parser).0 == stream.0,
            events_left(parser).1 == stream.1,
            stream == yaml_stream(source@),
        decreases events_left(parser).0.len(),
    {
        let ghost left = events_left(parser).0;
        match next_event(&mut parser) {
            Ok(Some(e)) => {
                proof {
                    text::lemma_views_push(all@, e);
                    assert(text::views(all@).push(e@) + left.skip(1) =~= text::views(all@) + left);
                }
                all.push(e);
            },
            Ok(None) => {
                assert(text::views(all@) =~= stream.0);
                return (all, None);
            },
            Err(e) => {
                assert(text::views(all@) =~= stream.0);
                return (all, Some(e));
            },
        }
    }
}

// ------------------------------------------------------------------ scalars

/// The text of the largest finite float.
pub const LARGEST: &'static str = "1.7976931348623157e308";

/// The text of the smallest finite float.
pub const SMALLEST: &'static str = "-1.7976931348623157e308";

/// The value of what the parser of floats made of the text of a bound.
pub open spec fn bound_value(parsed: Option<Option<NumberView>>) -> JsonView {
    match parsed {
        Some(Some(n)) => JsonView::Number(number::compacted(n)),
        _ => JsonView::Null,
    }
}

/// The value of a number: JSON has no number that is not finite, so that the largest and the
/// smallest float stand for the infinities, and null for what is no number.
pub open spec fn finite_value(n: JsNumberView) -> JsonView {
    match n {
        JsNumberView::Finite(x) => JsonView::Number(number::compacted(x)),
        JsNumberView::Nan => JsonView::Null,
        JsNumberView::Infinity => bound_value(number::float_parsed(LARGEST@)),
        JsNumberView::NegInfinity => bound_value(number::float_parsed(SMALLEST@)),
    }
}

fn bound(s: &str) -> (r: Json)
    ensures
        r@ == bound_value(number::float_parsed(s@)),
{
    match number::parse_float(s) {
        Some(Some(n)) => Json::Number(number::compact_number(n)),
        _ => Json::Null,
    }
}

/// The value of a number.
pub fn finite(n: JsNumber) -> (r: Json)
    ensures
        r@ == finite_value(n@),
{
    match n {
        JsNumber::Finite(x) => Json::Number(number::compact_number(x)),
        JsNumber::Nan => Json::Null,
        JsNumber::Infinity => bound(LARGEST),
        JsNumber::NegInfinity => bound(SMALLEST),
    }
}

/// A word for nothing.
pub open spec fn is_null_word(v: Seq<char>) -> bool {
    v.len() == 0 || v == "~"@ || v == "null"@ || v == "Null"@ || v == "NULL"@
}

/// A word for true.
pub open spec fn is_true_word(v: Seq<char>) -> bool {
    v == "true"@ || v == "True"@ || v == "TRUE"@
}

/// A word for false.
pub open spec fn is_false_word(v: Seq<char>) -> bool {
    v == "false"@ || v == "False"@ || v == "FALSE"@
}

/// A word for the positive infinity.
pub open spec fn is_infinity_word(v: Seq<char>) -> bool {
    v == ".inf"@ || v == ".Inf"@ || v == ".INF"@ || v == "+.inf"@ || v == "+.Inf"@ || v == "+.INF"@
}

/// A word for the negative infinity.
pub open spec fn is_neg_infinity_word(v: Seq<char>) -> bool {
    v == "-.inf"@ || v == "-.Inf"@ || v == "-.INF"@
}

/// A word for what is no number.
pub open spec fn is_nan_word(v: Seq<char>) -> bool {
    v == ".nan"@ || v == ".NaN"@ || v == ".NAN"@
}

fn word(v: &str) -> (r: Option<Json>)
    ensures
        match r {
            Some(w) => {
                ||| is_null_word(v@) && w@ == JsonView::Null
                ||| !is_null_word(v@) && is_true_word(v@) && w@ == JsonView::Bool(true)
                ||| !is_null_word(v@) && !is_true_word(v@) && is_false_word(v@) && w@
                    == JsonView::Bool(false)
            },
            None => !is_null_word(v@) && !is_true_word(v@) && !is_false_word(v@),
        },
{
    if to_chars(v).len() == 0 || same_text(v, "~") || same_text(v, "null") || same_text(v, "Null")
        || same_text(v, "NULL") {
        Some(Json::Null)
    } else if same_text(v, "true") || same_text(v, "True") || same_text(v, "TRUE") {
        Some(Json::Bool(true))
    } else if same_text(v, "false") || same_text(v, "False") || same_text(v, "FALSE") {
        Some(Json::Bool(false))
    } else {
        None
    }
}

fn number_word(v: &str) -> (r: Option<JsNumber>)
    ensures
        match r {
            Some(w) => {
                ||| is_infinity_word(v@) && w@ == JsNumberView::Infinity
                ||| !is_infinity_word(v@) && is_neg_infinity_word(v@) && w@
                    == JsNumberView::NegInfinity
                ||| !is_infinity_word(v@) && !is_neg_infinity_word(v@) && is_nan_word(v@) && w@
                    == JsNumberView::Nan
            },
            None => !is_infinity_word(v@) && !is_neg_infinity_word(v@) && !is_nan_word(v@),
        },
{
    if same_text(v, ".inf") || same_text(v, ".Inf") || same_text(v, ".INF") || same_text(v, "+.inf")
        || same_text(v, "+.Inf") || same_text(v, "+.INF") {
        Some(JsNumber::Infinity)
    } else if same_text(v, "-.inf") || same_text(v, "-.Inf") || same_text(v, "-.INF") {
        Some(JsNumber::NegInfinity)
    } else if same_text(v, ".nan") || same_text(v, ".NaN") || same_text(v, ".NAN") {
        Some(JsNumber::Nan)
    } else {
        None
    }
}

/// What follows an optional sign.
pub open spec fn unsigned(s: Seq<char>) -> Seq<char> {
    if s.len() > 0 && (s[0] == '+' || s[0] == '-') {
        s.skip(1)
    } else {
        s
    }
}

/// The index of the first `e` or `E` from `i` on, or the length.
pub open spec fn exponent_mark(s: Seq<char>, i: int) -> int
    decreases s.len() - i,
{
    if i < 0 || i >= s.len() || s[i] == 'e' || s[i] == 'E' {
        i
    } else {
        exponent_mark(s, i + 1)
    }
}

/// Digits with at most one point: one digit at least, before the point where none starts it.
pub open spec fn is_mantissa(m: Seq<char>) -> bool {
    if m.len() > 0 && m[0] == '.' {
        text::is_digits(m.skip(1))
    } else {
        match text::find_char(m, '.', 0) {
            None => text::is_digits(m),
            Some(i) => text::is_digits(m.take(i)) && (i + 1 == m.len() || text::is_digits(
                m.skip(i + 1),
            )),
        }
    }
}

/// An optional sign and digits.
pub open spec fn is_core_int(s: Seq<char>) -> bool {
    text::is_digits(unsigned(s))
}

/// An optional sign, a mantissa and an optional exponent.
pub open spec fn is_core_float(s: Seq<char>) -> bool {
    let b = unsigned(s);
    let k = exponent_mark(b, 0);
    is_mantissa(b.take(k)) && (k == b.len() || text::is_digits(unsigned(b.skip(k + 1))))
}

fn digits(v: &Vec<char>) -> (r: bool)
    ensures
        r == text::is_digits(v@),
{
    let mut i: usize = 0;
    while i < v.len()
        invariant
            i <= v@.len(),
            forall|j: int| 0 <= j < i ==> text::is_digit(#[trigger] v@[j]),
        decreases v@.len() - i,
    {
        let c = v[i];
        if !('0' <= c && c <= '9') {
            assert(!text::is_digit(v@[i as int]));
            return false;
        }
        i += 1;
    }
    v.len() > 0
}

fn without_sign(v: &Vec<char>) -> (r: Vec<char>)
    ensures
        r@ == unsigned(v@),
{
    let n: usize = v.len();
    let from: usize = if n > 0 && (v[0] == '+' || v[0] == '-') { 1 } else { 0 };
    let r = between(v, from, n);
    assert(r@ =~= unsigned(v@));
    r
}

fn mantissa(m: &Vec<char>) -> (r: bool)
    ensures
        r == is_mantissa(m@),
{
    let n: usize = m.len();
    if n > 0 && m[0] == '.' {
        let rest = between(m, 1, n);
        assert(rest@ =~= m@.skip(1));
        return digits(&rest);
    }
    proof {
        text::lemma_find_char(m@, '.', 0);
    }
    match text::find_char_at(m, '.', 0) {
        None => digits(m),
        Some(i) => {
            let whole = between(m, 0, i);
            let fraction = between(m, i + 1, n);
            assert(whole@ =~= m@.take(i as int));
            assert(fraction@ =~= m@.skip(i as int + 1));
            digits(&whole) && (i + 1 == n || digits(&fraction))
        },
    }
}

fn core_float(v: &Vec<char>) -> (r: bool)
    ensures
        r == is_core_float(v@),
{
    let b = without_sign(v);
    let n: usize = b.len();
    let mut k: usize = 0;
    while k < n && b[k] != 'e' && b[k] != 'E'
        invariant
            k <= n,
            n == b@.len(),
            exponent_mark(b@, 0) == exponent_mark(b@, k as int),
        decreases n - k,
    {
        k += 1;
    }
    let head = between(&b, 0, k);
    assert(head@ =~= b@.take(k as int));
    if !mantissa(&head) {
        return false;
    }
    if k == n {
        return true;
    }
    let tail = between(&b, k + 1, n);
    assert(tail@ =~= b@.skip(k as int + 1));
    digits(&without_sign(&tail))
}

/// The integers below this bound are told apart by floats.
pub const EXACT_BOUND: i64 = 9_007_199_254_740_992;

/// The number of digits of a base.
pub open spec fn radix_number(digits: Seq<char>, radix: int) -> JsNumberView {
    match js::radix_value(digits, radix) {
        Some(n) => JsNumberView::Finite(n),
        None => JsNumberView::Infinity,
    }
}

/// Whether a prefix is followed by digits of a base.
pub open spec fn is_radix(v: Seq<char>, prefix: Seq<char>, radix: int) -> bool {
    text::stands_at(v, 0, prefix) && v.len() > 2 && js::all_radix(v.skip(2), radix)
}

/// The value of a decimal number, where it is not an integer that floats tell apart.
pub open spec fn decimal_value(v: Seq<char>) -> JsonView {
    finite_value(js::decimal_number(number::float_parsed(v), v))
}

/// The value of a plain scalar in the core schema.
pub open spec fn plain_value(v: Seq<char>) -> JsonView {
    if is_null_word(v) {
        JsonView::Null
    } else if is_true_word(v) {
        JsonView::Bool(true)
    } else if is_false_word(v) {
        JsonView::Bool(false)
    } else if is_infinity_word(v) {
        finite_value(JsNumberView::Infinity)
    } else if is_neg_infinity_word(v) {
        finite_value(JsNumberView::NegInfinity)
    } else if is_nan_word(v) {
        JsonView::Null
    } else if is_radix(v, "0x"@, 16) {
        finite_value(radix_number(v.skip(2), 16))
    } else if is_radix(v, "0o"@, 8) {
        finite_value(radix_number(v.skip(2), 8))
    } else if is_core_int(v) {
        match text::signed_value(v) {
            Some(n) => if -(EXACT_BOUND as int) < n < EXACT_BOUND {
                JsonView::Number(number::int_number(n))
            } else {
                decimal_value(v)
            },
            None => decimal_value(v),
        }
    } else if is_core_float(v) {
        decimal_value(v)
    } else {
        JsonView::String(v)
    }
}

fn radix(v: &Vec<char>, prefix: &str, base: u64) -> (r: Option<JsNumber>)
    requires
        base == 8 || base == 16,
        prefix@.len() == 2,
    ensures
        match r {
            Some(n) => is_radix(v@, prefix@, base as int) && n@ == radix_number(
                v@.skip(2),
                base as int,
            ),
            None => !is_radix(v@, prefix@, base as int),
        },
{
    if !is_at(v, 0, prefix) || v.len() <= 2 {
        return None;
    }
    match js::read_radix(v, base) {
        JsNumber::Nan => None,
        JsNumber::Finite(n) => Some(JsNumber::Finite(n)),
        JsNumber::Infinity => Some(JsNumber::Infinity),
        JsNumber::NegInfinity => None,
    }
}

fn decimal(v: &str) -> (r: Json)
    ensures
        r@ == decimal_value(v@),
{
    let parsed = number::parse_float(v);
    finite(js::decimal_result(parsed, v))
}

/// The value of a plain scalar in the core schema.
pub fn resolve_plain(v: &str) -> (r: Json)
    ensures
        r@ == plain_value(v@),
{
    proof {
        reveal_strlit("0x");
        reveal_strlit("0o");
        assert("0x"@.len() == 2 && "0o"@.len() == 2);
    }
    match word(v) {
        Some(w) => return w,
        None => {},
    }
    match number_word(v) {
        Some(n) => return finite(n),
        None => {},
    }
    let chars = to_chars(v);
    match radix(&chars, "0x", 16) {
        Some(n) => return finite(n),
        None => {},
    }
    match radix(&chars, "0o", 8) {
        Some(n) => return finite(n),
        None => {},
    }
    if digits(&without_sign(&chars)) {
        return match text::parse_signed(v) {
            Some(i) => if -EXACT_BOUND < i && i < EXACT_BOUND {
                Json::Number(number::integer(i))
            } else {
                decimal(v)
            },
            None => decimal(v),
        };
    }
    if core_float(&chars) {
        return decimal(v);
    }
    Json::String(v.to_string())
}

/// The value of a scalar: a tag of the schema keeps what is not plain, and what is tagged as
/// text, a text; any other tag makes it one.
pub open spec fn scalar_value(v: Seq<char>, plain: bool, tag: Option<YamlTagView>) -> JsonView {
    match tag {
        Some(t) => if (t.handle == "tag:yaml.org,2002:"@ || t.handle == "!!"@) && t.suffix
            != "str"@ && plain {
            plain_value(v)
        } else {
            JsonView::String(v)
        },
        None => if plain {
            plain_value(v)
        } else {
            JsonView::String(v)
        },
    }
}

fn resolve_scalar(v: &str, plain: bool, tag: &Option<YamlTag>) -> (r: Json)
    ensures
        r@ == scalar_value(v@, plain, text::opt_view(*tag)),
{
    match tag {
        Some(t) => if (same_text(&t.handle, "tag:yaml.org,2002:") || same_text(&t.handle, "!!"))
            && !same_text(&t.suffix, "str") && plain {
            resolve_plain(v)
        } else {
            Json::String(v.to_string())
        },
        None => if plain {
            resolve_plain(v)
        } else {
            Json::String(v.to_string())
        },
    }
}

// ------------------------------------------------------------------ building

/// The name that a key stands for.
pub open spec fn key_text(key: JsonView) -> Seq<char> {
    match key {
        JsonView::Null => "null"@,
        _ => js::js_text(key),
    }
}

fn key_string(key: &Json) -> (r: String)
    ensures
        r@ == key_text(key@),
{
    match key {
        Json::Null => "null".to_string(),
        _ => js::to_string(key),
    }
}

/// The members with those of `more` whose names are not there yet.
pub open spec fn filled(o: Entries, more: Entries) -> Entries
    decreases more.len(),
{
    if more.len() == 0 {
        o
    } else {
        let have = filled(o, more.drop_last());
        if json::find_key(have, more.last().0, 0) is None {
            have.push(more.last())
        } else {
            have
        }
    }
}

/// The members with those of each mapping of a list.
pub open spec fn filled_by_all(o: Entries, items: Seq<JsonView>) -> Entries
    decreases items.len(),
{
    if items.len() == 0 {
        o
    } else {
        let have = filled_by_all(o, items.drop_last());
        match items.last() {
            JsonView::Object(m) => filled(have, m),
            _ => have,
        }
    }
}

/// A mapping, or a list of nothing else.
pub open spec fn is_mergeable(v: JsonView) -> bool {
    match v {
        JsonView::Object(_) => true,
        JsonView::Array(items) => forall|i: int|
            0 <= i < items.len() ==> (#[trigger] items[i]) is Object,
        _ => false,
    }
}

/// The members with those that a merge key brings.
pub open spec fn merged(o: Entries, v: JsonView) -> Entries {
    match v {
        JsonView::Object(m) => filled(o, m),
        JsonView::Array(items) => filled_by_all(o, items),
        _ => o,
    }
}

fn fill(o: &mut JsonObject, more: &JsonObject)
    ensures
        final(o)@ == filled(old(o)@, more@),
{
    let ghost before = o@;
    let ghost all = more@;
    let mut i: usize = 0;
    assert(all.take(0) =~= Entries::empty());
    while i < more.entries.len()
        invariant
            i <= more.entries@.len(),
            all == more@,
            o@ == filled(before, all.take(i as int)),
        decreases more.entries@.len() - i,
    {
        let ghost have = o@;
        proof {
            assert(all.take(i as int + 1).drop_last() =~= all.take(i as int));
            assert(all.take(i as int + 1).last() == all[i as int]);
        }
        if !o.contains_key(&more.entries[i].0) {
            o.entries.push((more.entries[i].0.clone(), more.entries[i].1.clone()));
            assert(o@ =~= have.push(all[i as int]));
        }
        i += 1;
    }
    assert(all.take(i as int) =~= all);
}

fn mergeable(v: &Json) -> (r: bool)
    ensures
        r == is_mergeable(v@),
{
    match v {
        Json::Object(_) => true,
        Json::Array(items) => {
            let ghost all = json::values_view(*items);
            let mut i: usize = 0;
            while i < items.len()
                invariant
                    i <= items@.len(),
                    all == json::values_view(*items),
                    v@ == JsonView::Array(all),
                    forall|j: int| 0 <= j < i ==> (#[trigger] all[j]) is Object,
                decreases items@.len() - i,
            {
                if !items[i].is_object() {
                    assert(!(all[i as int] is Object));
                    return false;
                }
                i += 1;
            }
            true
        },
        _ => false,
    }
}

fn merge_into(o: &mut JsonObject, v: &Json)
    ensures
        final(o)@ == merged(old(o)@, v@),
{
    let ghost before = o@;
    match v {
        Json::Object(m) => fill(o, m),
        Json::Array(items) => {
            let ghost all = json::values_view(*items);
            let mut i: usize = 0;
            assert(all.take(0) =~= Seq::<JsonView>::empty());
            while i < items.len()
                invariant
                    i <= items@.len(),
                    all == json::values_view(*items),
                    o@ == filled_by_all(before, all.take(i as int)),
                decreases items@.len() - i,
            {
                proof {
                    assert(all.take(i as int + 1).drop_last() =~= all.take(i as int));
                    assert(all.take(i as int + 1).last() == items@[i as int]@);
                }
                match &items[i] {
                    Json::Object(m) => fill(o, m),
                    _ => {},
                }
                i += 1;
            }
            assert(all.take(i as int) =~= all);
        },
        _ => {},
    }
}

/// A sequence or a mapping that is not closed yet, with its anchor; a mapping holds the key
/// that waits for its value.
#[derive(Debug)]
pub enum YamlNode {
    Items(Vec<Json>, usize),
    Members(JsonObject, Option<Json>, usize),
}

/// What a [`YamlNode`] stands for.
#[verifier::ext_equal]
pub enum YamlNodeView {
    Items(Seq<JsonView>, usize),
    Members(Entries, Option<JsonView>, usize),
}

impl View for YamlNode {
    type V = YamlNodeView;

    open spec fn view(&self) -> YamlNodeView {
        match self {
            YamlNode::Items(items, a) => YamlNodeView::Items(text::views(items@), *a),
            YamlNode::Members(o, key, a) => YamlNodeView::Members(o@, text::opt_view(*key), *a),
        }
    }
}

/// An anchor and its value.
#[derive(Debug)]
pub struct YamlAnchor {
    pub id: usize,
    pub value: Json,
}

impl View for YamlAnchor {
    type V = (usize, JsonView);

    open spec fn view(&self) -> (usize, JsonView) {
        (self.id, self.value@)
    }
}

/// Builds values from events.
#[derive(Debug)]
pub struct YamlBuilder {
    pub stack: Vec<YamlNode>,
    pub anchors: Vec<YamlAnchor>,
    pub docs: Vec<Json>,
}

/// What a [`YamlBuilder`] stands for.
#[verifier::ext_equal]
pub struct YamlBuilderView {
    pub stack: Seq<YamlNodeView>,
    pub anchors: Seq<(usize, JsonView)>,
    pub docs: Seq<JsonView>,
}

impl View for YamlBuilder {
    type V = YamlBuilderView;

    open spec fn view(&self) -> YamlBuilderView {
        YamlBuilderView {
            stack: text::views(self.stack@),
            anchors: text::views(self.anchors@),
            docs: text::views(self.docs@),
        }
    }
}

/// A node that got a value.
pub open spec fn taken(node: YamlNodeView, value: JsonView) -> YamlNodeView {
    match node {
        YamlNodeView::Items(items, a) => YamlNodeView::Items(items.push(value), a),
        YamlNodeView::Members(o, None, a) => YamlNodeView::Members(o, Some(value), a),
        YamlNodeView::Members(o, Some(key), a) => if key == JsonView::String("<<"@)
            && is_mergeable(value) {
            YamlNodeView::Members(merged(o, value), None, a)
        } else {
            YamlNodeView::Members(json::with_member(o, key_text(key), value), None, a)
        },
    }
}

/// A builder that got a value with its anchor.
pub open spec fn pushed(b: YamlBuilderView, value: JsonView, anchor: usize) -> YamlBuilderView {
    let anchors = if anchor > 0 { b.anchors.push((anchor, value)) } else { b.anchors };
    if b.stack.len() == 0 {
        YamlBuilderView { anchors, docs: b.docs.push(value), ..b }
    } else {
        YamlBuilderView {
            anchors,
            stack: b.stack.drop_last().push(taken(b.stack.last(), value)),
            ..b
        }
    }
}

/// The value that an anchor had last.
pub open spec fn anchored(anchors: Seq<(usize, JsonView)>, id: usize) -> JsonView
    decreases anchors.len(),
{
    if anchors.len() == 0 {
        JsonView::Null
    } else if anchors.last().0 == id {
        anchors.last().1
    } else {
        anchored(anchors.drop_last(), id)
    }
}

/// A builder whose last open node is closed.
pub open spec fn closed(b: YamlBuilderView) -> YamlBuilderView {
    if b.stack.len() == 0 {
        b
    } else {
        let rest = YamlBuilderView { stack: b.stack.drop_last(), ..b };
        match b.stack.last() {
            YamlNodeView::Items(items, a) => pushed(rest, JsonView::Array(items), a),
            YamlNodeView::Members(o, _, a) => pushed(rest, JsonView::Object(js::ordered(o)), a),
        }
    }
}

/// A builder after an event.
pub open spec fn stepped(b: YamlBuilderView, event: YamlEventView) -> YamlBuilderView {
    match event {
        YamlEventView::Scalar(s, plain, a, tag) => pushed(b, scalar_value(s, plain, tag), a),
        YamlEventView::Alias(id) => pushed(b, anchored(b.anchors, id), 0),
        YamlEventView::SequenceStart(a) => YamlBuilderView {
            stack: b.stack.push(YamlNodeView::Items(Seq::empty(), a)),
            ..b
        },
        YamlEventView::MappingStart(a) => YamlBuilderView {
            stack: b.stack.push(YamlNodeView::Members(Seq::empty(), None, a)),
            ..b
        },
        YamlEventView::SequenceEnd => closed(b),
        YamlEventView::MappingEnd => closed(b),
        YamlEventView::Other => b,
    }
}

impl YamlNode {
    fn take(self, value: Json) -> (r: YamlNode)
        ensures
            r@ == taken(self@, value@),
    {
        match self {
            YamlNode::Items(items, a) => {
                let mut items = items;
                proof {
                    text::lemma_views_push(items@, value);
                }
                items.push(value);
                YamlNode::Items(items, a)
            },
            YamlNode::Members(o, None, a) => YamlNode::Members(o, Some(value), a),
            YamlNode::Members(o, Some(key), a) => {
                let mut o = o;
                let is_merge = match &key {
                    Json::String(k) => same_text(k, "<<"),
                    _ => false,
                };
                if is_merge && mergeable(&value) {
                    merge_into(&mut o, &value);
                } else {
                    let name = key_string(&key);
                    o.insert(name, value);
                }
                YamlNode::Members(o, None, a)
            },
        }
    }
}

impl YamlBuilder {
    /// A builder that has got nothing.
    pub fn new() -> (r: YamlBuilder)
        ensures
            r@ == (YamlBuilderView {
                stack: Seq::empty(),
                anchors: Seq::empty(),
                docs: Seq::empty(),
            }),
    {
        let r = YamlBuilder { stack: Vec::new(), anchors: Vec::new(), docs: Vec::new() };
        assert(r@.stack =~= Seq::empty());
        assert(r@.anchors =~= Seq::empty());
        assert(r@.docs =~= Seq::empty());
        r
    }

    fn push_value(&mut self, value: Json, anchor: usize)
        ensures
            final(self)@ == pushed(old(self)@, value@, anchor),
    {
        let ghost before = self@;
        if anchor > 0 {
            let held = YamlAnchor { id: anchor, value: value.clone() };
            proof {
                text::lemma_views_push(self.anchors@, held);
            }
            self.anchors.push(held);
        }
        let ghost nodes = self.stack@;
        match self.stack.pop() {
            None => {
                assert(before.stack.len() == 0);
                proof {
                    text::lemma_views_push(self.docs@, value);
                }
                self.docs.push(value);
                assert(self@.stack =~= before.stack);
            },
            Some(node) => {
                assert(text::views(self.stack@) =~= before.stack.drop_last());
                assert(before.stack.last() == node@);
                let next = node.take(value);
                proof {
                    text::lemma_views_push(self.stack@, next);
                }
                self.stack.push(next);
            },
        }
    }

    fn anchored(&self, id: usize) -> (r: Json)
        ensures
            r@ == anchored(self@.anchors, id),
    {
        let ghost all = self@.anchors;
        let mut n: usize = self.anchors.len();
        assert(all.take(n as int) =~= all);
        while n > 0
            invariant
                n <= self.anchors@.len(),
                all == self@.anchors,
                anchored(all, id) == anchored(all.take(n as int), id),
            decreases n,
        {
            assert(all.take(n as int).drop_last() =~= all.take(n as int - 1));
            assert(all.take(n as int).last() == self.anchors@[n as int - 1]@);
            if self.anchors[n - 1].id == id {
                return self.anchors[n - 1].value.clone();
            }
            n -= 1;
        }
        Json::Null
    }

    fn close(&mut self)
        ensures
            final(self)@ == closed(old(self)@),
    {
        let ghost before = self@;
        match self.stack.pop() {
            None => {
                assert(self@.stack =~= before.stack);
            },
            Some(node) => {
                assert(text::views(self.stack@) =~= before.stack.drop_last());
                assert(before.stack.last() == node@);
                match node {
                    YamlNode::Items(items, a) => {
                        proof {
                            json::lemma_values_view(items);
                        }
                        self.push_value(Json::Array(items), a);
                    },
                    YamlNode::Members(o, _, a) => {
                        let ordered = JsonObject { entries: js::entries(&o) };
                        assert(ordered@ =~= js::ordered(o@));
                        self.push_value(Json::Object(ordered), a);
                    },
                }
            },
        }
    }

    /// Takes an event.
    pub fn on_event(&mut self, event: &YamlEvent)
        ensures
            final(self)@ == stepped(old(self)@, event@),
    {
        let ghost before = self@;
        match event {
            YamlEvent::Scalar(s, plain, a, tag) => {
                let value = resolve_scalar(s, *plain, tag);
                self.push_value(value, *a);
            },
            YamlEvent::Alias(id) => {
                let value = self.anchored(*id);
                self.push_value(value, 0);
            },
            YamlEvent::SequenceStart(a) => {
                let node = YamlNode::Items(Vec::new(), *a);
                proof {
                    text::lemma_views_push(self.stack@, node);
                    assert(node@->Items_0 =~= Seq::empty());
                }
                self.stack.push(node);
            },
            YamlEvent::MappingStart(a) => {
                let node = YamlNode::Members(JsonObject::new(), None, *a);
                proof {
                    text::lemma_views_push(self.stack@, node);
                }
                self.stack.push(node);
            },
            YamlEvent::SequenceEnd | YamlEvent::MappingEnd => self.close(),
            YamlEvent::Other => {},
        }
    }
}

// ------------------------------------------------------------------ documents

/// How deep a document may nest.
pub const MAX_YAML_DEPTH: usize = 256;

/// What is wrong with a document that nests deeper.
pub const NESTING_MESSAGE: &'static str = "YAML nesting exceeds 256 levels";

/// How deep an event leaves the nesting.
pub open spec fn level_after(depth: int, event: YamlEventView) -> int {
    match event {
        YamlEventView::SequenceStart(_) => depth + 1,
        YamlEventView::MappingStart(_) => depth + 1,
        YamlEventView::SequenceEnd => if depth > 0 { depth - 1 } else { 0 },
        YamlEventView::MappingEnd => if depth > 0 { depth - 1 } else { 0 },
        _ => depth,
    }
}

/// A builder after the events from `i` on, where they do not nest too deep.
pub open spec fn built(events: Seq<YamlEventView>, i: int, depth: int, b: YamlBuilderView) -> Result<
    YamlBuilderView,
    Seq<char>,
>
    decreases events.len() - i,
{
    if i < 0 || i >= events.len() {
        Ok(b)
    } else if level_after(depth, events[i]) > MAX_YAML_DEPTH {
        Err(NESTING_MESSAGE@)
    } else {
        built(events, i + 1, level_after(depth, events[i]), stepped(b, events[i]))
    }
}

/// A builder that has got nothing.
pub open spec fn nothing_built() -> YamlBuilderView {
    YamlBuilderView { stack: Seq::empty(), anchors: Seq::empty(), docs: Seq::empty() }
}

/// The value of a stream of documents: that of the only one, null for none, a list for several.
pub open spec fn stream_value(docs: Seq<JsonView>) -> JsonView {
    if docs.len() == 0 {
        JsonView::Null
    } else if docs.len() == 1 {
        docs[0]
    } else {
        JsonView::Array(docs)
    }
}

/// The value of what a parser told of a text: a text that nests too deep, or that is no YAML, has
/// none; what is found first counts.
pub open spec fn yaml_value(stream: (Seq<YamlEventView>, Option<Seq<char>>)) -> Result<
    JsonView,
    Seq<char>,
> {
    match built(stream.0, 0, 0, nothing_built()) {
        Err(e) => Err(e),
        Ok(b) => match stream.1 {
            Some(e) => Err(e),
            None => Ok(stream_value(b.docs)),
        },
    }
}

/// The value of what a parser told of a text.
pub fn build_yaml(events: &Vec<YamlEvent>, error: &Option<String>) -> (r: Result<Json, String>)
    ensures
        match r {
            Ok(v) => yaml_value((text::views(events@), text::opt_view(*error))) == Ok::<
                JsonView,
                Seq<char>,
            >(v@),
            Err(e) => yaml_value((text::views(events@), text::opt_view(*error))) == Err::<
                JsonView,
                Seq<char>,
            >(e@),
        },
{
    let ghost all = text::views(events@);
    let mut builder = YamlBuilder::new();
    let mut depth: usize = 0;
    let mut i: usize = 0;
    while i < events.len()
        invariant
            i <= events@.len(),
            all == text::views(events@),
            depth <= MAX_YAML_DEPTH,
            built(all, 0, 0, nothing_built()) == built(all, i as int, depth as int, builder@),
        decreases events@.len() - i,
    {
        let ghost event = events@[i as int]@;
        assert(all[i as int] == event);
        match &events[i] {
            YamlEvent::SequenceStart(_) | YamlEvent::MappingStart(_) => {
                depth += 1;
                if depth > MAX_YAML_DEPTH {
                    return Err(NESTING_MESSAGE.to_string());
                }
            },
            YamlEvent::SequenceEnd | YamlEvent::MappingEnd => {
                if depth > 0 {
                    depth -= 1;
                }
            },
            _ => {},
        }
        builder.on_event(&events[i]);
        i += 1;
    }
    match error {
        Some(e) => Err(e.clone()),
        None => {
            let mut docs = builder.docs;
            proof {
                json::lemma_values_view(docs);
            }
            if docs.len() == 0 {
                Ok(Json::Null)
            } else if docs.len() == 1 {
                Ok(docs[0].clone())
            } else {
                Ok(Json::Array(docs))
            }
        },
    }
}

/// The value of a YAML text.
pub fn parse_yaml(source: &str) -> (r: Result<Json, String>)
    ensures
        match r {
            Ok(v) => yaml_value(yaml_stream(source@)) == Ok::<JsonView, Seq<char>>(v@),
            Err(e) => yaml_value(yaml_stream(source@)) == Err::<JsonView, Seq<char>>(e@),
        },
{
    let (events, error) = yaml_events(source);
    build_yaml(&events, &error)
}

// ------------------------------------------------------------------ laws

/// How deep the first `n` events nest.
pub open spec fn level_at(events: Seq<YamlEventView>, n: int) -> int
    decreases n,
{
    if n <= 0 {
        0
    } else {
        level_after(level_at(events, n - 1), events[n - 1])
    }
}

proof fn lemma_too_deep(events: Seq<YamlEventView>, i: int, n: int, b: YamlBuilderView)
    requires
        0 <= i < n <= events.len(),
        level_at(events, n) > MAX_YAML_DEPTH,
    ensures
        built(events, i, level_at(events, i), b) == Err::<YamlBuilderView, Seq<char>>(
            NESTING_MESSAGE@,
        ),
    decreases n - i,
{
    assert(level_at(events, i + 1) == level_after(level_at(events, i), events[i]));
    if level_at(events, i + 1) <= MAX_YAML_DEPTH {
        lemma_too_deep(events, i + 1, n, stepped(b, events[i]));
    }
}

/// A text that nests too deep anywhere has no value, whatever else is wrong with it.
pub proof fn law_deep_nesting_is_an_error(
    stream: (Seq<YamlEventView>, Option<Seq<char>>),
    n: int,
)
    requires
        0 <= n <= stream.0.len(),
        level_at(stream.0, n) > MAX_YAML_DEPTH,
    ensures
        yaml_value(stream) == Err::<JsonView, Seq<char>>(NESTING_MESSAGE@),
{
    lemma_too_deep(stream.0, 0, n, nothing_built());
}

proof fn lemma_filled_keeps(o: Entries, more: Entries)
    ensures
        o.len() <= filled(o, more).len(),
        filled(o, more).take(o.len() as int) == o,
    decreases more.len(),
{
    if more.len() > 0 {
        lemma_filled_keeps(o, more.drop_last());
        let have = filled(o, more.drop_last());
        assert(have.push(more.last()).take(o.len() as int) =~= have.take(o.len() as int));
    } else {
        assert(o.take(o.len() as int) =~= o);
    }
}

proof fn lemma_prefix_lookup(a: Entries, b: Entries, key: Seq<char>, i: int)
    requires
        0 <= i <= a.len() <= b.len(),
        b.take(a.len() as int) == a,
        json::find_key(a, key, i) is Some,
    ensures
        json::find_key(b, key, i) == json::find_key(a, key, i),
    decreases a.len() - i,
{
    json::lemma_find_key(a, key, i);
    assert(b[i] == b.take(a.len() as int)[i]);
    if a[i].0 != key {
        lemma_prefix_lookup(a, b, key, i + 1);
    }
}

proof fn lemma_filled_by_all_keeps(o: Entries, items: Seq<JsonView>)
    ensures
        o.len() <= filled_by_all(o, items).len(),
        filled_by_all(o, items).take(o.len() as int) == o,
    decreases items.len(),
{
    if items.len() > 0 {
        lemma_filled_by_all_keeps(o, items.drop_last());
        let have = filled_by_all(o, items.drop_last());
        match items.last() {
            JsonView::Object(m) => {
                lemma_filled_keeps(have, m);
                let next = filled(have, m);
                assert(next.take(o.len() as int) =~= next.take(have.len() as int).take(
                    o.len() as int,
                ));
            },
            _ => {},
        }
    } else {
        assert(o.take(o.len() as int) =~= o);
    }
}

/// What a merge key brings never replaces a member that is there.
pub proof fn law_explicit_members_win(o: Entries, v: JsonView, key: Seq<char>)
    requires
        json::lookup(o, key) is Some,
    ensures
        json::lookup(merged(o, v), key) == json::lookup(o, key),
{
    let after = merged(o, v);
    match v {
        JsonView::Object(m) => lemma_filled_keeps(o, m),
        JsonView::Array(items) => lemma_filled_by_all_keeps(o, items),
        _ => assert(o.take(o.len() as int) =~= o),
    }
    lemma_prefix_lookup(o, after, key, 0);
    json::lemma_find_key(o, key, 0);
    let i = json::find_key(o, key, 0).unwrap();
    assert(after[i] == after.take(o.len() as int)[i]);
}

} // verus!
