//! The value semantics of JavaScript that templates rely on, over JSON values.
//!
//! `null` stands for what is undefined: a missing member and an absent value both arrive as it. So
//! its text is `undefined` and its number is not a number; inside a JSON text it still is `null`.
use crate::json;
use crate::json::{to_text, Entries, Json, JsonObject, JsonView, Number, NumberView};
use crate::number;
use crate::number::{
    compact_number, difference, is_equal, is_less, number_to_string, parse_float, product, sum,
};
use crate::text;
use crate::text::{
    concat, digits_between, is_at, join_strings, same_text, slice_string, to_chars, trim_start_text,
    trim_text, Space,
};
use std::cmp::Ordering;
use vstd::prelude::*;

verus! {

// ------------------------------------------------------------------ white space

/// Whether a character is white space.
pub fn is_space(c: char) -> (r: bool)
    ensures
        r == text::is_space(Space::Js, c),
{
    text::is_space_char(Space::Js, c)
}

/// The text without the white space at its end.
pub fn trim_end(s: &str) -> (r: String)
    ensures
        r@ == text::trim_end(Space::Js, s@),
{
    text::trim_end_text(Space::Js, s)
}

/// The text without the white space at its start.
pub fn trim_start(s: &str) -> (r: String)
    ensures
        r@ == text::trim_start(Space::Js, s@),
{
    trim_start_text(Space::Js, s)
}

/// The text without the white space around it.
pub fn trim(s: &str) -> (r: String)
    ensures
        r@ == text::trim(Space::Js, s@),
{
    trim_text(Space::Js, s)
}

// ------------------------------------------------------------------ truth and text

/// The number zero.
pub open spec fn zero() -> NumberView {
    NumberView::PosInt(0)
}

/// Whether a value counts as true.
pub open spec fn is_truthy(v: JsonView) -> bool {
    match v {
        JsonView::Null => false,
        JsonView::Bool(b) => b,
        JsonView::Number(n) => !number::float_equal(n, zero()),
        JsonView::String(s) => s.len() > 0,
        JsonView::Array(_) => true,
        JsonView::Object(_) => true,
    }
}

/// Whether a value counts as true.
pub fn truthy(v: &Json) -> (r: bool)
    ensures
        r == is_truthy(v@),
{
    match v {
        Json::Null => false,
        Json::Bool(b) => *b,
        Json::Number(n) => !is_equal(n, &Number::PosInt(0)),
        Json::String(s) => to_chars(s.as_str()).len() > 0,
        Json::Array(_) => true,
        Json::Object(_) => true,
    }
}

/// The text of a value; of an array, the texts of its elements with commas between them.
pub open spec fn js_text(v: JsonView) -> Seq<char>
    decreases v, 1nat,
{
    match v {
        JsonView::Null => "undefined"@,
        JsonView::Bool(b) => if b {
            "true"@
        } else {
            "false"@
        },
        JsonView::Number(n) => number::js_number(n),
        JsonView::String(s) => s,
        JsonView::Array(items) => text::join(element_texts(items), ","@),
        JsonView::Object(_) => "[object Object]"@,
    }
}

/// The texts of the elements of an array, `null` being empty.
pub open spec fn element_texts(items: Seq<JsonView>) -> Seq<Seq<char>>
    decreases items, 0nat,
{
    Seq::new(
        items.len(),
        |i: int|
            if 0 <= i < items.len() && !(items[i] is Null) {
                js_text(items[i])
            } else {
                Seq::empty()
            },
    )
}

/// The text of a value.
pub fn to_string(v: &Json) -> (r: String)
    ensures
        r@ == js_text(v@),
    decreases v, 1nat,
{
    match v {
        Json::Null => "undefined".to_owned(),
        Json::Bool(b) => if *b {
            "true".to_owned()
        } else {
            "false".to_owned()
        },
        Json::Number(n) => number_to_string(n),
        Json::String(s) => s.clone(),
        Json::Array(items) => {
            proof {
                assert(decreases_to!(*v => v->Array_0));
                json::lemma_values_view(*items);
            }
            join_strings(&element_strings(items), ",")
        },
        Json::Object(_) => "[object Object]".to_owned(),
    }
}

/// The texts of the elements of an array.
pub fn element_strings(items: &Vec<Json>) -> (r: Vec<String>)
    ensures
        text::views(r@) == element_texts(text::views(items@)),
    decreases items, 0nat,
{
    let mut out: Vec<String> = Vec::new();
    let mut i: usize = 0;
    while i < items.len()
        invariant
            i <= items@.len(),
            out@.len() == i,
            forall|j: int|
                0 <= j < i ==> (#[trigger] out@[j])@ == (if items@[j]@ is Null {
                    Seq::empty()
                } else {
                    js_text(items@[j]@)
                }),
        decreases items@.len() - i,
    {
        if items[i].is_null() {
            let none = String::new();
            assert(none@ =~= Seq::empty());
            out.push(none);
        } else {
            proof {
                assert(decreases_to!(items@ => items@[i as int]));
            }
            out.push(to_string(&items[i]));
        }
        i += 1;
    }
    assert(text::views(out@) =~= element_texts(text::views(items@)));
    out
}

// ------------------------------------------------------------------ members in order

/// The index that a key names, as an array would have it.
pub open spec fn index_key(key: Seq<char>) -> Option<int> {
    if text::is_digits(key) && (key.len() == 1 || key[0] != '0') && text::digits_value(key)
        < 0xffff_ffff {
        Some(text::digits_value(key))
    } else {
        None
    }
}

/// Puts a member where its index belongs.
pub open spec fn inserted(o: Entries, m: (Seq<char>, JsonView)) -> Entries
    decreases o.len(),
{
    if o.len() == 0 || index_key(o.last().0).unwrap() <= index_key(m.0).unwrap() {
        o.push(m)
    } else {
        inserted(o.drop_last(), m).push(o.last())
    }
}

/// The members whose keys are indices, in the order of the indices.
pub open spec fn indexed(o: Entries) -> Entries
    decreases o.len(),
{
    if o.len() == 0 {
        Seq::empty()
    } else if index_key(o.last().0) is Some {
        inserted(indexed(o.drop_last()), o.last())
    } else {
        indexed(o.drop_last())
    }
}

/// The members whose keys are no indices.
pub open spec fn named(o: Entries) -> Entries
    decreases o.len(),
{
    if o.len() == 0 {
        Seq::empty()
    } else if index_key(o.last().0) is None {
        named(o.drop_last()).push(o.last())
    } else {
        named(o.drop_last())
    }
}

/// The members in the order in which an object shows them: indices first, in their order, then the
/// others as they were put in.
pub open spec fn ordered(o: Entries) -> Entries {
    indexed(o) + named(o)
}

fn read_index(key: &str) -> (r: Option<u64>)
    ensures
        match r {
            Some(n) => index_key(key@) == Some(n as int),
            None => index_key(key@) is None,
        },
{
    let v = to_chars(key);
    let n: usize = v.len();
    assert(v@.subrange(0, n as int) =~= v@);
    match digits_between(&v, 0, n) {
        Some(value) => if (n == 1 || v[0] != '0') && value < 0xffff_ffff {
            Some(value)
        } else {
            None
        },
        None => None,
    }
}

fn pair(m: &(String, Json)) -> (r: (String, Json))
    ensures
        r.0@ == m.0@,
        r.1@ == m.1@,
{
    (m.0.clone(), m.1.clone())
}

/// All keys of the members are indices.
pub open spec fn all_indices(o: Entries) -> bool {
    forall|i: int| 0 <= i < o.len() ==> index_key((#[trigger] o[i]).0) is Some
}

proof fn lemma_inserted(o: Entries, m: (Seq<char>, JsonView))
    requires
        all_indices(o),
        index_key(m.0) is Some,
    ensures
        all_indices(inserted(o, m)),
        inserted(o, m).len() == o.len() + 1,
    decreases o.len(),
{
    if o.len() > 0 && !(index_key(o.last().0).unwrap() <= index_key(m.0).unwrap()) {
        lemma_inserted(o.drop_last(), m);
    }
}

proof fn lemma_indexed(o: Entries)
    ensures
        all_indices(indexed(o)),
        indexed(o).len() <= o.len(),
    decreases o.len(),
{
    if o.len() > 0 {
        lemma_indexed(o.drop_last());
        if index_key(o.last().0) is Some {
            lemma_inserted(indexed(o.drop_last()), o.last());
        }
    }
}

proof fn lemma_inserted_at(o: Entries, m: (Seq<char>, JsonView), k: int)
    requires
        0 <= k <= o.len(),
        all_indices(o),
        index_key(m.0) is Some,
        k > 0 ==> index_key(o[k - 1].0).unwrap() <= index_key(m.0).unwrap(),
        forall|i: int|
            k <= i < o.len() ==> index_key((#[trigger] o[i]).0).unwrap() > index_key(m.0).unwrap(),
    ensures
        inserted(o, m) == o.insert(k, m),
    decreases o.len(),
{
    if k == o.len() {
        assert(o.insert(k, m) =~= o.push(m));
    } else {
        let t = o.drop_last();
        assert(o.last() == o[o.len() - 1]);
        lemma_inserted_at(t, m, k);
        assert(t.insert(k, m).push(o.last()) =~= o.insert(k, m));
    }
}

fn insert_member(list: &mut JsonObject, m: (String, Json))
    requires
        all_indices(old(list)@),
        index_key(m.0@) is Some,
    ensures
        final(list)@ == inserted(old(list)@, (m.0@, m.1@)),
{
    let ghost before = list@;
    let ghost mv = (m.0@, m.1@);
    let n: usize = list.entries.len();
    let key: u64 = match read_index(m.0.as_str()) {
        Some(k) => k,
        None => 0,
    };
    let mut k: usize = n;
    while k > 0
        invariant_except_break
            k <= n,
            n == list.entries@.len(),
            before == list@,
            all_indices(before),
            index_key(mv.0) == Some(key as int),
            forall|i: int| k <= i < n ==> index_key((#[trigger] before[i]).0).unwrap() > key,
        ensures
            k <= n,
            n == list.entries@.len(),
            before == list@,
            k > 0 ==> index_key(before[k - 1].0).unwrap() <= key,
            forall|i: int| k <= i < n ==> index_key((#[trigger] before[i]).0).unwrap() > key,
        decreases k,
    {
        assert(index_key(before[k - 1].0) is Some);
        let here: u64 = match read_index(list.entries[k - 1].0.as_str()) {
            Some(i) => i,
            None => 0,
        };
        if here <= key {
            break;
        }
        k -= 1;
    }
    proof {
        lemma_inserted_at(before, mv, k as int);
    }
    list.entries.insert(k, m);
    assert(list@ =~= before.insert(k as int, mv));
}

/// The members in the order in which an object shows them.
pub fn entries(map: &JsonObject) -> (r: Vec<(String, Json)>)
    ensures
        r@.len() == ordered(map@).len(),
        forall|i: int|
            0 <= i < r@.len() ==> {
                &&& (#[trigger] r@[i]).0@ == ordered(map@)[i].0
                &&& r@[i].1@ == ordered(map@)[i].1
            },
{
    let ghost all = map@;
    let mut first = JsonObject::new();
    let mut rest = JsonObject::new();
    let mut i: usize = 0;
    assert(first@ =~= indexed(all.take(0)));
    assert(rest@ =~= named(all.take(0)));
    while i < map.entries.len()
        invariant
            i <= map.entries@.len(),
            all == map@,
            first@ == indexed(all.take(i as int)),
            rest@ == named(all.take(i as int)),
        decreases map.entries@.len() - i,
    {
        let m = pair(&map.entries[i]);
        assert(all.take(i as int + 1).drop_last() =~= all.take(i as int));
        assert(all[i as int] == (m.0@, m.1@));
        proof {
            lemma_indexed(all.take(i as int));
        }
        if read_index(m.0.as_str()).is_some() {
            insert_member(&mut first, m);
        } else {
            let ghost before = rest@;
            let ghost mv = (m.0@, m.1@);
            rest.entries.push(m);
            assert(rest@ =~= before.push(mv));
        }
        i += 1;
    }
    assert(all.take(i as int) =~= all);
    let ghost a = first@;
    let ghost b = rest@;
    first.entries.append(&mut rest.entries);
    assert(first@ =~= a + b);
    assert forall|j: int| 0 <= j < first.entries@.len() implies {
        &&& (#[trigger] first.entries@[j]).0@ == ordered(map@)[j].0
        &&& first.entries@[j].1@ == ordered(map@)[j].1
    } by {
        assert(first@[j] == ordered(map@)[j]);
    }
    first.entries
}

proof fn lemma_ordered_member(o: Entries, i: int)
    requires
        0 <= i < ordered(o).len(),
    ensures
        exists|j: int| 0 <= j < o.len() && ordered(o)[i] == #[trigger] o[j],
{
    if i < indexed(o).len() {
        lemma_indexed_member(o, i);
    } else {
        lemma_named_member(o, i - indexed(o).len());
    }
}

proof fn lemma_named_member(o: Entries, i: int)
    requires
        0 <= i < named(o).len(),
    ensures
        exists|j: int| 0 <= j < o.len() && named(o)[i] == #[trigger] o[j],
    decreases o.len(),
{
    let t = o.drop_last();
    if index_key(o.last().0) is None && i == named(t).len() {
        assert(named(o)[i] == o[o.len() - 1]);
    } else {
        lemma_named_member(t, i);
        let j = choose|j: int| 0 <= j < t.len() && named(t)[i] == #[trigger] t[j];
        assert(named(o)[i] == o[j]);
    }
}

proof fn lemma_inserted_member(o: Entries, m: (Seq<char>, JsonView), i: int)
    requires
        0 <= i < inserted(o, m).len(),
    ensures
        inserted(o, m)[i] == m || exists|j: int|
            0 <= j < o.len() && inserted(o, m)[i] == #[trigger] o[j],
    decreases o.len(),
{
    if o.len() == 0 || index_key(o.last().0).unwrap() <= index_key(m.0).unwrap() {
        if i < o.len() {
            assert(inserted(o, m)[i] == o[i]);
        }
    } else {
        let t = o.drop_last();
        if i == inserted(t, m).len() {
            assert(inserted(o, m)[i] == o[o.len() - 1]);
        } else {
            lemma_inserted_member(t, m, i);
            if inserted(t, m)[i] != m {
                let j = choose|j: int| 0 <= j < t.len() && inserted(t, m)[i] == #[trigger] t[j];
                assert(inserted(o, m)[i] == o[j]);
            }
        }
    }
}

proof fn lemma_indexed_member(o: Entries, i: int)
    requires
        0 <= i < indexed(o).len(),
    ensures
        exists|j: int| 0 <= j < o.len() && indexed(o)[i] == #[trigger] o[j],
    decreases o.len(),
{
    let t = o.drop_last();
    if index_key(o.last().0) is Some {
        lemma_inserted_member(indexed(t), o.last(), i);
        if indexed(o)[i] == o.last() {
            assert(indexed(o)[i] == o[o.len() - 1]);
        } else {
            let k = choose|k: int|
                0 <= k < indexed(t).len() && indexed(o)[i] == #[trigger] indexed(t)[k];
            lemma_indexed_member(t, k);
            let j = choose|j: int| 0 <= j < t.len() && indexed(t)[k] == #[trigger] t[j];
            assert(indexed(o)[i] == o[j]);
        }
    } else {
        lemma_indexed_member(t, i);
        let j = choose|j: int| 0 <= j < t.len() && indexed(t)[i] == #[trigger] t[j];
        assert(indexed(o)[i] == o[j]);
    }
}

/// Showing the members in order neither adds nor changes one.
pub proof fn law_ordered_members_are_members(o: Entries, i: int)
    requires
        0 <= i < ordered(o).len(),
    ensures
        exists|j: int| 0 <= j < o.len() && ordered(o)[i] == #[trigger] o[j],
{
    lemma_ordered_member(o, i);
}

// ------------------------------------------------------------------ JSON text

/// The JSON text of a value; whole numbers have no fraction.
pub open spec fn json_text(v: JsonView) -> Seq<char>
    decreases v, 1nat,
{
    match v {
        JsonView::Number(n) => number::js_number(n),
        JsonView::Array(items) => "["@ + text::join(json_texts(items), ","@) + "]"@,
        JsonView::Object(o) => "{"@ + text::join(
            member_texts(ordered(told_members(o))),
            ","@,
        ) + "}"@,
        _ => json::compact(v),
    }
}

/// The JSON texts of the elements of an array.
pub open spec fn json_texts(items: Seq<JsonView>) -> Seq<Seq<char>>
    decreases items, 0nat,
{
    Seq::new(
        items.len(),
        |i: int|
            if 0 <= i < items.len() {
                json_text(items[i])
            } else {
                Seq::empty()
            },
    )
}

/// The members of an object, each with the JSON text of its value.
pub open spec fn told_members(o: Entries) -> Entries
    decreases o, 0nat,
{
    Seq::new(
        o.len(),
        |i: int|
            if 0 <= i < o.len() {
                (o[i].0, JsonView::String(json_text(o[i].1)))
            } else {
                (Seq::empty(), JsonView::Null)
            },
    )
}

/// The JSON text of a told member.
pub open spec fn member_text(m: (Seq<char>, JsonView)) -> Seq<char> {
    json::compact(JsonView::String(m.0)) + ":"@ + js_text(m.1)
}

/// The JSON texts of told members.
pub open spec fn member_texts(o: Entries) -> Seq<Seq<char>> {
    o.map_values(|m: (Seq<char>, JsonView)| member_text(m))
}

/// The JSON text of a value.
pub fn json_stringify(v: &Json) -> (r: String)
    ensures
        r@ == json_text(v@),
    decreases v, 1nat,
{
    match v {
        Json::Number(n) => number_to_string(n),
        Json::Array(items) => {
            proof {
                assert(decreases_to!(*v => v->Array_0));
                json::lemma_values_view(*items);
            }
            let inner = join_strings(&json_strings(items), ",");
            concat(concat("[", inner.as_str()).as_str(), "]")
        },
        Json::Object(o) => {
            proof {
                assert(decreases_to!(*v => v->Object_0));
            }
            let told = tell_members(o);
            let shown = entries(&told);
            let ghost want = ordered(told@);
            let mut out: Vec<String> = Vec::new();
            let mut i: usize = 0;
            while i < shown.len()
                invariant
                    i <= shown@.len(),
                    shown@.len() == want.len(),
                    forall|j: int|
                        0 <= j < shown@.len() ==> {
                            &&& (#[trigger] shown@[j]).0@ == want[j].0
                            &&& shown@[j].1@ == want[j].1
                        },
                    out@.len() == i,
                    forall|j: int| 0 <= j < i ==> (#[trigger] out@[j])@ == member_text(want[j]),
                decreases shown@.len() - i,
            {
                let key = to_text(&Json::String(shown[i].0.clone()));
                let line = concat(concat(key.as_str(), ":").as_str(), to_string(&shown[i].1).as_str());
                assert(line@ == member_text(want[i as int]));
                out.push(line);
                i += 1;
            }
            assert(text::views(out@) =~= member_texts(want));
            let inner = join_strings(&out, ",");
            concat(concat("{", inner.as_str()).as_str(), "}")
        },
        _ => to_text(v),
    }
}

fn json_strings(items: &Vec<Json>) -> (r: Vec<String>)
    ensures
        text::views(r@) == json_texts(text::views(items@)),
    decreases items, 0nat,
{
    let mut out: Vec<String> = Vec::new();
    let mut i: usize = 0;
    while i < items.len()
        invariant
            i <= items@.len(),
            out@.len() == i,
            forall|j: int| 0 <= j < i ==> (#[trigger] out@[j])@ == json_text(items@[j]@),
        decreases items@.len() - i,
    {
        proof {
            assert(decreases_to!(items@ => items@[i as int]));
        }
        out.push(json_stringify(&items[i]));
        i += 1;
    }
    assert(text::views(out@) =~= json_texts(text::views(items@)));
    out
}

fn tell_members(o: &JsonObject) -> (r: JsonObject)
    ensures
        r@ == told_members(o@),
    decreases o, 0nat,
{
    let mut out: Vec<(String, Json)> = Vec::new();
    let mut i: usize = 0;
    while i < o.entries.len()
        invariant
            i <= o.entries@.len(),
            out@.len() == i,
            forall|j: int|
                0 <= j < i ==> {
                    &&& (#[trigger] out@[j]).0@ == o.entries@[j].0@
                    &&& out@[j].1@ == JsonView::String(json_text(o.entries@[j].1@))
                },
        decreases o.entries@.len() - i,
    {
        proof {
            assert(decreases_to!(*o => o.entries));
            assert(decreases_to!(o.entries@ => o.entries@[i as int]));
            assert(decreases_to!(o.entries@[i as int] => o.entries@[i as int].1));
        }
        let told = Json::String(json_stringify(&o.entries[i].1));
        out.push((o.entries[i].0.clone(), told));
        i += 1;
    }
    let r = JsonObject { entries: out };
    assert(r@ =~= told_members(o@));
    r
}

// ------------------------------------------------------------------ equality and numbers

/// Whether two values are identical: simple values by what they are; no two arrays or objects are.
pub open spec fn identical(a: JsonView, b: JsonView) -> bool {
    match (a, b) {
        (JsonView::Null, JsonView::Null) => true,
        (JsonView::Bool(x), JsonView::Bool(y)) => x == y,
        (JsonView::Number(x), JsonView::Number(y)) => number::float_equal(x, y),
        (JsonView::String(x), JsonView::String(y)) => x == y,
        _ => false,
    }
}

/// Whether two values are identical.
pub fn strict_eq(a: &Json, b: &Json) -> (r: bool)
    ensures
        r == identical(a@, b@),
{
    match (a, b) {
        (Json::Null, Json::Null) => true,
        (Json::Bool(x), Json::Bool(y)) => *x == *y,
        (Json::Number(x), Json::Number(y)) => is_equal(x, y),
        (Json::String(x), Json::String(y)) => same_text(x.as_str(), y.as_str()),
        _ => false,
    }
}

/// A number, or what stands in its place.
#[derive(Debug, PartialEq)]
pub enum JsNumber {
    Nan,
    Infinity,
    NegInfinity,
    Finite(Number),
}

/// What a [`JsNumber`] stands for.
pub enum JsNumberView {
    Nan,
    Infinity,
    NegInfinity,
    Finite(NumberView),
}

impl View for JsNumber {
    type V = JsNumberView;

    open spec fn view(&self) -> JsNumberView {
        match self {
            JsNumber::Nan => JsNumberView::Nan,
            JsNumber::Infinity => JsNumberView::Infinity,
            JsNumber::NegInfinity => JsNumberView::NegInfinity,
            JsNumber::Finite(n) => JsNumberView::Finite(n@),
        }
    }
}

/// A number that is too large, with its sign.
pub open spec fn infinite(negative: bool) -> JsNumberView {
    if negative {
        JsNumberView::NegInfinity
    } else {
        JsNumberView::Infinity
    }
}

fn make_infinite(negative: bool) -> (r: JsNumber)
    ensures
        r@ == infinite(negative),
{
    if negative {
        JsNumber::NegInfinity
    } else {
        JsNumber::Infinity
    }
}

/// The value of a digit in a base up to sixteen.
pub open spec fn radix_digit(c: char, radix: int) -> Option<int> {
    let d = if '0' <= c && c <= '9' {
        c as int - '0' as int
    } else if 'a' <= c && c <= 'f' {
        c as int - 'a' as int + 10
    } else if 'A' <= c && c <= 'F' {
        c as int - 'A' as int + 10
    } else {
        16
    };
    if d < radix {
        Some(d)
    } else {
        None
    }
}

/// The number that digits of a base stand for, rounded after each digit as floats are; nothing
/// where it is not finite.
pub open spec fn radix_value(s: Seq<char>, radix: int) -> Option<NumberView>
    decreases s.len(),
{
    if s.len() == 0 {
        Some(zero())
    } else {
        match radix_value(s.drop_last(), radix) {
            Some(n) => match number::float_product(n, NumberView::PosInt(radix as u64)) {
                Some(m) => number::float_sum(
                    m,
                    NumberView::PosInt(
                        match radix_digit(s.last(), radix) {
                            Some(d) => d as u64,
                            None => 0,
                        },
                    ),
                ),
                None => None,
            },
            None => None,
        }
    }
}

/// The base that the first two characters name.
pub open spec fn radix_of(t: Seq<char>) -> Option<int> {
    if text::stands_at(t, 0, "0x"@) || text::stands_at(t, 0, "0X"@) {
        Some(16)
    } else if text::stands_at(t, 0, "0o"@) || text::stands_at(t, 0, "0O"@) {
        Some(8)
    } else if text::stands_at(t, 0, "0b"@) || text::stands_at(t, 0, "0B"@) {
        Some(2)
    } else {
        None
    }
}

/// A character of a decimal number.
pub open spec fn is_decimal_char(c: char) -> bool {
    ('0' <= c && c <= '9') || c == '.' || c == 'e' || c == 'E' || c == '+' || c == '-'
}

/// What Rust's parser of floats makes of the text of a decimal number.
pub open spec fn decimal_number(parsed: Option<Option<NumberView>>, t: Seq<char>) -> JsNumberView {
    match parsed {
        Some(Some(n)) => JsNumberView::Finite(n),
        Some(None) => infinite(t.len() > 0 && t[0] == '-'),
        None => JsNumberView::Nan,
    }
}

/// All digits belong to the base.
pub open spec fn all_radix(digits: Seq<char>, radix: int) -> bool {
    forall|i: int| 0 <= i < digits.len() ==> radix_digit(#[trigger] digits[i], radix) is Some
}

/// The characters are those of a decimal number.
pub open spec fn all_decimal(t: Seq<char>) -> bool {
    forall|i: int| 0 <= i < t.len() ==> is_decimal_char(#[trigger] t[i])
}

/// The number of a text: nothing counts as zero, decimal numbers, `Infinity` and unsigned numbers of
/// the bases sixteen, eight and two are read; anything else is not a number.
pub open spec fn text_number(s: Seq<char>) -> JsNumberView {
    let t = text::trim(Space::Js, s);
    if t.len() == 0 {
        JsNumberView::Finite(zero())
    } else if t == "Infinity"@ || t == "+Infinity"@ {
        JsNumberView::Infinity
    } else if t == "-Infinity"@ {
        JsNumberView::NegInfinity
    } else {
        match radix_of(t) {
            Some(radix) => {
                let digits = t.skip(2);
                if digits.len() == 0 || !all_radix(digits, radix) {
                    JsNumberView::Nan
                } else {
                    match radix_value(digits, radix) {
                        Some(n) => JsNumberView::Finite(n),
                        None => JsNumberView::Infinity,
                    }
                }
            },
            None => if all_decimal(t) {
                decimal_number(number::float_parsed(t), t)
            } else {
                JsNumberView::Nan
            },
        }
    }
}

fn digit_in(c: char, radix: u64) -> (r: Option<u64>)
    requires
        radix == 2 || radix == 8 || radix == 16,
    ensures
        match r {
            Some(d) => radix_digit(c, radix as int) == Some(d as int),
            None => radix_digit(c, radix as int) is None,
        },
{
    let d: u64 = if '0' <= c && c <= '9' {
        (c as u32 - '0' as u32) as u64
    } else if 'a' <= c && c <= 'f' {
        (c as u32 - 'a' as u32) as u64 + 10
    } else if 'A' <= c && c <= 'F' {
        (c as u32 - 'A' as u32) as u64 + 10
    } else {
        16
    };
    if d < radix {
        Some(d)
    } else {
        None
    }
}

pub(crate) fn read_radix(v: &Vec<char>, radix: u64) -> (r: JsNumber)
    requires
        v@.len() >= 2,
        radix == 2 || radix == 8 || radix == 16,
    ensures
        r@ == ({
            let digits = v@.skip(2);
            if digits.len() == 0 || !all_radix(digits, radix as int) {
                JsNumberView::Nan
            } else {
                match radix_value(digits, radix as int) {
                    Some(n) => JsNumberView::Finite(n),
                    None => JsNumberView::Infinity,
                }
            }
        }),
{
    let ghost digits = v@.skip(2);
    let n: usize = v.len();
    if n == 2 {
        return JsNumber::Nan;
    }
    let base = Number::PosInt(radix);
    let mut value = Some(Number::PosInt(0));
    let mut i: usize = 2;
    assert(digits.take(0) =~= Seq::empty());
    while i < n
        invariant
            2 <= i <= n,
            n == v@.len(),
            digits == v@.skip(2),
            radix == 2 || radix == 8 || radix == 16,
            base@ == NumberView::PosInt(radix),
            forall|j: int|
                0 <= j < i - 2 ==> radix_digit(#[trigger] digits[j], radix as int) is Some,
            text::opt_view(value) == radix_value(digits.take(i - 2), radix as int),
        decreases n - i,
    {
        assert(digits[i - 2] == v@[i as int]);
        assert(digits.take(i - 1).drop_last() =~= digits.take(i - 2));
        match digit_in(v[i], radix) {
            None => {
                assert(radix_digit(digits[i - 2], radix as int) is None);
                return JsNumber::Nan;
            },
            Some(d) => {
                value = match value {
                    Some(have) => match product(&have, &base) {
                        Some(more) => sum(&more, &Number::PosInt(d)),
                        None => None,
                    },
                    None => None,
                };
            },
        }
        i += 1;
    }
    assert(digits.take(n - 2) =~= digits);
    match value {
        Some(n) => JsNumber::Finite(n),
        None => JsNumber::Infinity,
    }
}

/// What the parser of floats made of the text of a decimal number.
pub fn decimal_result(parsed: Option<Option<Number>>, t: &str) -> (r: JsNumber)
    ensures
        r@ == decimal_number(
            match parsed {
                Some(n) => Some(text::opt_view(n)),
                None => None,
            },
            t@,
        ),
{
    match parsed {
        Some(Some(n)) => JsNumber::Finite(n),
        Some(None) => {
            let v = to_chars(t);
            make_infinite(v.len() > 0 && v[0] == '-')
        },
        None => JsNumber::Nan,
    }
}

fn is_decimal(v: &Vec<char>) -> (r: bool)
    ensures
        r == all_decimal(v@),
{
    let mut i: usize = 0;
    while i < v.len()
        invariant
            i <= v@.len(),
            forall|j: int| 0 <= j < i ==> is_decimal_char(#[trigger] v@[j]),
        decreases v@.len() - i,
    {
        let c = v[i];
        if !(('0' <= c && c <= '9') || c == '.' || c == 'e' || c == 'E' || c == '+' || c == '-') {
            assert(!is_decimal_char(v@[i as int]));
            return false;
        }
        i += 1;
    }
    true
}

fn string_to_number(s: &str) -> (r: JsNumber)
    ensures
        r@ == text_number(s@),
{
    let t = trim_text(Space::Js, s);
    let t = t.as_str();
    let v = to_chars(t);
    if v.len() == 0 {
        return JsNumber::Finite(Number::PosInt(0));
    }
    if same_text(t, "Infinity") || same_text(t, "+Infinity") {
        return JsNumber::Infinity;
    }
    if same_text(t, "-Infinity") {
        return JsNumber::NegInfinity;
    }
    proof {
        reveal_strlit("0x");
        reveal_strlit("0X");
        reveal_strlit("0o");
        reveal_strlit("0O");
        reveal_strlit("0b");
        reveal_strlit("0B");
    }
    if is_at(&v, 0, "0x") || is_at(&v, 0, "0X") {
        read_radix(&v, 16)
    } else if is_at(&v, 0, "0o") || is_at(&v, 0, "0O") {
        read_radix(&v, 8)
    } else if is_at(&v, 0, "0b") || is_at(&v, 0, "0B") {
        read_radix(&v, 2)
    } else if is_decimal(&v) {
        decimal_result(parse_float(t), t)
    } else {
        JsNumber::Nan
    }
}

/// The number of a value.
pub open spec fn number_of(v: JsonView) -> JsNumberView {
    match v {
        JsonView::Null => JsNumberView::Nan,
        JsonView::Bool(b) => JsNumberView::Finite(
            NumberView::PosInt(
                if b {
                    1
                } else {
                    0
                },
            ),
        ),
        JsonView::Number(n) => JsNumberView::Finite(n),
        JsonView::String(s) => text_number(s),
        JsonView::Array(_) => text_number(js_text(v)),
        JsonView::Object(_) => JsNumberView::Nan,
    }
}

/// The number of a value.
pub fn to_number(v: &Json) -> (r: JsNumber)
    ensures
        r@ == number_of(v@),
{
    match v {
        Json::Null => JsNumber::Nan,
        Json::Bool(b) => JsNumber::Finite(
            Number::PosInt(
                if *b {
                    1
                } else {
                    0
                },
            ),
        ),
        Json::Number(n) => JsNumber::Finite(n.clone()),
        Json::String(s) => string_to_number(s.as_str()),
        Json::Array(_) => string_to_number(to_string(v).as_str()),
        Json::Object(_) => JsNumber::Nan,
    }
}

/// The value that holds a number: whole numbers are integers, and what is not finite is its text.
pub open spec fn number_value(n: JsNumberView) -> JsonView {
    match n {
        JsNumberView::Finite(x) => JsonView::Number(number::compacted(x)),
        JsNumberView::Nan => JsonView::String("NaN"@),
        JsNumberView::Infinity => JsonView::String("Infinity"@),
        JsNumberView::NegInfinity => JsonView::String("-Infinity"@),
    }
}

/// The value that holds a number.
pub fn number(n: JsNumber) -> (r: Json)
    ensures
        r@ == number_value(n@),
{
    match n {
        JsNumber::Finite(x) => Json::Number(compact_number(x)),
        JsNumber::Nan => Json::String("NaN".to_owned()),
        JsNumber::Infinity => Json::String("Infinity".to_owned()),
        JsNumber::NegInfinity => Json::String("-Infinity".to_owned()),
    }
}

/// The sum of two numbers.
pub open spec fn added(a: JsNumberView, b: JsNumberView) -> JsNumberView {
    match (a, b) {
        (JsNumberView::Nan, _) => JsNumberView::Nan,
        (_, JsNumberView::Nan) => JsNumberView::Nan,
        (JsNumberView::Finite(x), JsNumberView::Finite(y)) => match number::float_sum(x, y) {
            Some(n) => JsNumberView::Finite(n),
            None => infinite(number::float_less(x, zero())),
        },
        (JsNumberView::Infinity, JsNumberView::NegInfinity) => JsNumberView::Nan,
        (JsNumberView::NegInfinity, JsNumberView::Infinity) => JsNumberView::Nan,
        (JsNumberView::Finite(_), _) => b,
        _ => a,
    }
}

fn add_numbers(a: JsNumber, b: JsNumber) -> (r: JsNumber)
    ensures
        r@ == added(a@, b@),
{
    match (a, b) {
        (JsNumber::Nan, _) => JsNumber::Nan,
        (_, JsNumber::Nan) => JsNumber::Nan,
        (JsNumber::Finite(x), JsNumber::Finite(y)) => match sum(&x, &y) {
            Some(n) => JsNumber::Finite(n),
            None => make_infinite(is_less(&x, &Number::PosInt(0))),
        },
        (JsNumber::Infinity, JsNumber::NegInfinity) => JsNumber::Nan,
        (JsNumber::NegInfinity, JsNumber::Infinity) => JsNumber::Nan,
        (JsNumber::Finite(_), other) => other,
        (other, _) => other,
    }
}

/// The difference of two numbers.
pub open spec fn subtracted(a: JsNumberView, b: JsNumberView) -> JsNumberView {
    match (a, b) {
        (JsNumberView::Nan, _) => JsNumberView::Nan,
        (_, JsNumberView::Nan) => JsNumberView::Nan,
        (JsNumberView::Finite(x), JsNumberView::Finite(y)) => match number::float_difference(x, y) {
            Some(n) => JsNumberView::Finite(n),
            None => infinite(number::float_less(x, zero())),
        },
        (JsNumberView::Infinity, JsNumberView::Infinity) => JsNumberView::Nan,
        (JsNumberView::NegInfinity, JsNumberView::NegInfinity) => JsNumberView::Nan,
        (JsNumberView::Finite(_), JsNumberView::Infinity) => JsNumberView::NegInfinity,
        (JsNumberView::Finite(_), _) => JsNumberView::Infinity,
        _ => a,
    }
}

/// The difference of two numbers.
pub fn subtract(a: JsNumber, b: JsNumber) -> (r: JsNumber)
    ensures
        r@ == subtracted(a@, b@),
{
    match (a, b) {
        (JsNumber::Nan, _) => JsNumber::Nan,
        (_, JsNumber::Nan) => JsNumber::Nan,
        (JsNumber::Finite(x), JsNumber::Finite(y)) => match difference(&x, &y) {
            Some(n) => JsNumber::Finite(n),
            None => make_infinite(is_less(&x, &Number::PosInt(0))),
        },
        (JsNumber::Infinity, JsNumber::Infinity) => JsNumber::Nan,
        (JsNumber::NegInfinity, JsNumber::NegInfinity) => JsNumber::Nan,
        (JsNumber::Finite(_), JsNumber::Infinity) => JsNumber::NegInfinity,
        (JsNumber::Finite(_), _) => JsNumber::Infinity,
        (other, _) => other,
    }
}

/// A value as `+` and the comparisons take it: arrays and objects by their text.
pub open spec fn primitive(v: JsonView) -> JsonView {
    match v {
        JsonView::Array(_) => JsonView::String(js_text(v)),
        JsonView::Object(_) => JsonView::String(js_text(v)),
        _ => v,
    }
}

fn to_primitive(v: &Json) -> (r: Json)
    ensures
        r@ == primitive(v@),
{
    match v {
        Json::Array(_) => Json::String(to_string(v)),
        Json::Object(_) => Json::String(to_string(v)),
        _ => v.clone(),
    }
}

/// The sum of two values: their texts one after the other where one is a text.
pub open spec fn sum_value(a: JsonView, b: JsonView) -> JsonView {
    let x = primitive(a);
    let y = primitive(b);
    if x is String || y is String {
        JsonView::String(js_text(x) + js_text(y))
    } else {
        number_value(added(number_of(x), number_of(y)))
    }
}

/// The sum of two values.
pub fn add(a: &Json, b: &Json) -> (r: Json)
    ensures
        r@ == sum_value(a@, b@),
{
    let x = to_primitive(a);
    let y = to_primitive(b);
    if matches!(x, Json::String(_)) || matches!(y, Json::String(_)) {
        Json::String(concat(to_string(&x).as_str(), to_string(&y).as_str()))
    } else {
        number(add_numbers(to_number(&x), to_number(&y)))
    }
}

// ------------------------------------------------------------------ UTF-16

/// The code units of a character.
pub open spec fn units(c: char) -> Seq<u16> {
    let n = c as int;
    if n < 0x10000 {
        seq![n as u16]
    } else {
        seq![
            (0xd800 + (n - 0x10000) / 0x400) as u16,
            (0xdc00 + (n - 0x10000) % 0x400) as u16,
        ]
    }
}

/// The code units of a text.
pub open spec fn utf16(s: Seq<char>) -> Seq<u16>
    decreases s.len(),
{
    if s.len() == 0 {
        Seq::empty()
    } else {
        utf16(s.drop_last()) + units(s.last())
    }
}

fn push_units(out: &mut Vec<u16>, c: char)
    ensures
        final(out)@ == old(out)@ + units(c),
{
    let ghost before = out@;
    let n: u32 = c as u32;
    if n < 0x10000 {
        out.push(n as u16);
    } else {
        let high: u32 = 0xd800 + (n - 0x10000) / 0x400;
        let low: u32 = 0xdc00 + (n - 0x10000) % 0x400;
        out.push(high as u16);
        out.push(low as u16);
    }
    assert(out@ =~= before + units(c));
}

/// The code units of a text.
pub fn encode_utf16(s: &str) -> (r: Vec<u16>)
    ensures
        r@ == utf16(s@),
{
    let v = to_chars(s);
    let mut out: Vec<u16> = Vec::new();
    let mut i: usize = 0;
    assert(out@ =~= utf16(v@.take(0)));
    while i < v.len()
        invariant
            i <= v@.len(),
            out@ == utf16(v@.take(i as int)),
        decreases v@.len() - i,
    {
        assert(v@.take(i as int + 1).drop_last() =~= v@.take(i as int));
        push_units(&mut out, v[i]);
        i += 1;
    }
    assert(v@.take(i as int) =~= v@);
    out
}

/// The length of a text in code units.
pub fn utf16_len(s: &str) -> (r: usize)
    ensures
        r == utf16(s@).len(),
{
    encode_utf16(s).len()
}

/// How two things compare.
#[derive(Clone, Copy, Debug, PartialEq, Eq, Structural)]
pub enum Order {
    Less,
    Equal,
    Greater,
}

/// How two sequences of code units compare, from an index on.
pub open spec fn units_order(a: Seq<u16>, b: Seq<u16>, i: int) -> Order
    decreases a.len() - i,
{
    if i >= a.len() && i >= b.len() {
        Order::Equal
    } else if i >= a.len() {
        Order::Less
    } else if i >= b.len() {
        Order::Greater
    } else if a[i] < b[i] {
        Order::Less
    } else if a[i] > b[i] {
        Order::Greater
    } else {
        units_order(a, b, i + 1)
    }
}

/// How two texts compare by their code units.
pub open spec fn text_order(a: Seq<char>, b: Seq<char>) -> Order {
    units_order(utf16(a), utf16(b), 0)
}

proof fn lemma_units_turned(a: Seq<u16>, b: Seq<u16>, i: int)
    requires
        0 <= i,
    ensures
        units_order(a, a, i) == Order::Equal,
        units_order(a, b, i) == Order::Less <==> units_order(b, a, i) == Order::Greater,
        units_order(a, b, i) == Order::Equal <==> units_order(b, a, i) == Order::Equal,
    decreases a.len() + b.len() - i,
{
    if i < a.len() || i < b.len() {
        lemma_units_turned(a, b, i + 1);
    }
}

proof fn lemma_units_chained(a: Seq<u16>, b: Seq<u16>, c: Seq<u16>, i: int)
    requires
        0 <= i,
        units_order(a, b, i) != Order::Greater,
        units_order(b, c, i) != Order::Greater,
    ensures
        units_order(a, c, i) != Order::Greater,
        units_order(a, c, i) == Order::Equal <==> units_order(a, b, i) == Order::Equal
            && units_order(b, c, i) == Order::Equal,
    decreases a.len() + b.len() + c.len() - i,
{
    if i < a.len() && i < b.len() && i < c.len() && a[i] == b[i] && b[i] == c[i] {
        lemma_units_chained(a, b, c, i + 1);
    }
}

/// The order of texts is total, and does not turn round: of three texts in a row the first does
/// not come after the last, and is level with it only where all three are level.
pub proof fn law_texts_are_in_total_order(a: Seq<char>, b: Seq<char>, c: Seq<char>)
    ensures
        text_order(a, a) == Order::Equal,
        text_order(a, b) == Order::Less <==> text_order(b, a) == Order::Greater,
        text_order(a, b) == Order::Equal <==> text_order(b, a) == Order::Equal,
        text_order(a, b) != Order::Greater && text_order(b, c) != Order::Greater ==> {
            &&& text_order(a, c) != Order::Greater
            &&& text_order(a, c) == Order::Equal <==> text_order(a, b) == Order::Equal
                && text_order(b, c) == Order::Equal
        },
{
    lemma_units_turned(utf16(a), utf16(b), 0);
    if text_order(a, b) != Order::Greater && text_order(b, c) != Order::Greater {
        lemma_units_chained(utf16(a), utf16(b), utf16(c), 0);
    }
}

fn same_until(x: &Vec<u16>, y: &Vec<u16>) -> (r: usize)
    ensures
        r <= x@.len(),
        r <= y@.len(),
        forall|j: int| 0 <= j < r ==> x@[j] == y@[j],
        r < x@.len() && r < y@.len() ==> x@[r as int] != y@[r as int],
{
    let mut i: usize = 0;
    while i < x.len() && i < y.len() && x[i] == y[i]
        invariant
            i <= x@.len(),
            i <= y@.len(),
            forall|j: int| 0 <= j < i ==> x@[j] == y@[j],
        decreases x@.len() - i,
    {
        i += 1;
    }
    i
}

proof fn lemma_units_order(a: Seq<u16>, b: Seq<u16>, i: int, k: int)
    requires
        0 <= i <= k,
        k <= a.len(),
        k <= b.len(),
        forall|j: int| 0 <= j < k ==> a[j] == b[j],
    ensures
        units_order(a, b, i) == units_order(a, b, k),
    decreases k - i,
{
    if i < k {
        lemma_units_order(a, b, i + 1, k);
    }
}

/// How two texts compare by their code units.
pub fn compare_text(a: &str, b: &str) -> (r: Order)
    ensures
        r == text_order(a@, b@),
{
    let x = encode_utf16(a);
    let y = encode_utf16(b);
    let k: usize = same_until(&x, &y);
    proof {
        lemma_units_order(x@, y@, 0, k as int);
    }
    if k >= x.len() && k >= y.len() {
        Order::Equal
    } else if k >= x.len() {
        Order::Less
    } else if k >= y.len() {
        Order::Greater
    } else if x[k] < y[k] {
        Order::Less
    } else {
        Order::Greater
    }
}

/// How two numbers compare; nothing where one is not a number.
pub open spec fn number_order(a: JsNumberView, b: JsNumberView) -> Option<Order> {
    match (a, b) {
        (JsNumberView::Nan, _) => None,
        (_, JsNumberView::Nan) => None,
        (JsNumberView::Finite(x), JsNumberView::Finite(y)) => if number::float_less(x, y) {
            Some(Order::Less)
        } else if number::float_less(y, x) {
            Some(Order::Greater)
        } else {
            Some(Order::Equal)
        },
        (JsNumberView::Infinity, JsNumberView::Infinity) => Some(Order::Equal),
        (JsNumberView::NegInfinity, JsNumberView::NegInfinity) => Some(Order::Equal),
        (JsNumberView::Infinity, _) => Some(Order::Greater),
        (JsNumberView::NegInfinity, _) => Some(Order::Less),
        (_, JsNumberView::Infinity) => Some(Order::Less),
        (_, JsNumberView::NegInfinity) => Some(Order::Greater),
    }
}

fn compare_numbers(a: &JsNumber, b: &JsNumber) -> (r: Option<Order>)
    ensures
        r == number_order(a@, b@),
{
    match (a, b) {
        (JsNumber::Nan, _) => None,
        (_, JsNumber::Nan) => None,
        (JsNumber::Finite(x), JsNumber::Finite(y)) => if is_less(x, y) {
            Some(Order::Less)
        } else if is_less(y, x) {
            Some(Order::Greater)
        } else {
            Some(Order::Equal)
        },
        (JsNumber::Infinity, JsNumber::Infinity) => Some(Order::Equal),
        (JsNumber::NegInfinity, JsNumber::NegInfinity) => Some(Order::Equal),
        (JsNumber::Infinity, _) => Some(Order::Greater),
        (JsNumber::NegInfinity, _) => Some(Order::Less),
        (_, JsNumber::Infinity) => Some(Order::Less),
        (_, JsNumber::NegInfinity) => Some(Order::Greater),
    }
}

/// How two values compare: two texts by their code units, else by their numbers.
pub open spec fn value_order(a: JsonView, b: JsonView) -> Option<Order> {
    match (primitive(a), primitive(b)) {
        (JsonView::String(x), JsonView::String(y)) => Some(text_order(x, y)),
        _ => number_order(number_of(primitive(a)), number_of(primitive(b))),
    }
}

/// How two values compare; nothing where no order holds of them.
pub fn compare_values(a: &Json, b: &Json) -> (r: Option<Order>)
    ensures
        r == value_order(a@, b@),
{
    let x = to_primitive(a);
    let y = to_primitive(b);
    match (&x, &y) {
        (Json::String(s), Json::String(t)) => Some(compare_text(s.as_str(), t.as_str())),
        _ => compare_numbers(&to_number(&x), &to_number(&y)),
    }
}

/// An order as the standard library has it.
pub open spec fn ordering_of(o: Order) -> Ordering {
    match o {
        Order::Less => Ordering::Less,
        Order::Equal => Ordering::Equal,
        Order::Greater => Ordering::Greater,
    }
}

/// How two values compare; nothing where no order holds of them.
pub fn compare(a: &Json, b: &Json) -> (r: Option<Ordering>)
    ensures
        r == (match value_order(a@, b@) {
            Some(o) => Some(ordering_of(o)),
            None => None,
        }),
{
    match compare_values(a, b) {
        Some(Order::Less) => Some(Ordering::Less),
        Some(Order::Equal) => Some(Ordering::Equal),
        Some(Order::Greater) => Some(Ordering::Greater),
        None => None,
    }
}

// ------------------------------------------------------------------ whole numbers

/// The first index from `i` on where no digit stands.
pub open spec fn digits_until(s: Seq<char>, i: int) -> int
    decreases s.len() - i,
{
    if 0 <= i < s.len() && text::is_digit(s[i]) {
        digits_until(s, i + 1)
    } else {
        i
    }
}

/// A number that was read, with its sign.
pub open spec fn signed_number(negative: bool, parsed: Option<Option<NumberView>>) -> JsNumberView {
    match parsed {
        Some(Some(n)) => if negative {
            match number::float_product(n, NumberView::NegInt(-1i64)) {
                Some(m) => JsNumberView::Finite(m),
                None => JsNumberView::NegInfinity,
            }
        } else {
            JsNumberView::Finite(n)
        },
        Some(None) => infinite(negative),
        None => JsNumberView::Nan,
    }
}

/// The whole number that the text of a value starts with.
pub open spec fn leading_int(v: JsonView) -> JsNumberView {
    let t = text::trim_start(Space::Js, js_text(v));
    let negative = t.len() > 0 && t[0] == '-';
    let from = if t.len() > 0 && (t[0] == '-' || t[0] == '+') {
        1int
    } else {
        0int
    };
    let to = digits_until(t, from);
    if to == from {
        JsNumberView::Nan
    } else {
        signed_number(negative, number::float_parsed(t.subrange(from, to)))
    }
}

/// A number that the parser of floats read, with its sign.
pub fn signed_result(negative: bool, parsed: Option<Option<Number>>) -> (r: JsNumber)
    ensures
        r@ == signed_number(
            negative,
            match parsed {
                Some(n) => Some(text::opt_view(n)),
                None => None,
            },
        ),
{
    match parsed {
        Some(Some(n)) => if negative {
            match product(&n, &Number::NegInt(-1)) {
                Some(m) => JsNumber::Finite(m),
                None => JsNumber::NegInfinity,
            }
        } else {
            JsNumber::Finite(n)
        },
        Some(None) => make_infinite(negative),
        None => JsNumber::Nan,
    }
}

/// The whole number that the text of a value starts with.
pub fn parse_int(v: &Json) -> (r: JsNumber)
    ensures
        r@ == leading_int(v@),
{
    let t = trim_start_text(Space::Js, to_string(v).as_str());
    let s = to_chars(t.as_str());
    let n: usize = s.len();
    let negative = n > 0 && s[0] == '-';
    let from: usize = if n > 0 && (s[0] == '-' || s[0] == '+') {
        1
    } else {
        0
    };
    let mut to: usize = from;
    while to < n && '0' <= s[to] && s[to] <= '9'
        invariant
            from <= to <= n,
            n == s@.len(),
            digits_until(s@, from as int) == digits_until(s@, to as int),
        decreases n - to,
    {
        to += 1;
    }
    if to == from {
        JsNumber::Nan
    } else {
        let digits = slice_string(&s, from, to);
        signed_result(negative, parse_float(digits.as_str()))
    }
}

} // verus!
