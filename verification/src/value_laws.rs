//! What holds of texts and of JSON values: how they are cut and trimmed, read and written, and
//! what they count as.
use crate::js;
use crate::js::JsNumberView;
use crate::json;
use crate::json::{Entries, JsonView, NumberView, ScanView};
use crate::number;
use crate::text;
use crate::text::Space;
use vstd::prelude::*;

verus! {

// ------------------------------------------------------------------ texts

proof fn lemma_trim_start(kind: Space, a: Seq<char>, t: Seq<char>)
    requires
        text::all_space(kind, a),
        t.len() == 0 || !text::is_space(kind, t[0]),
    ensures
        text::trim_start(kind, a + t) == t,
    decreases a.len(),
{
    let s = a + t;
    if a.len() > 0 {
        assert(s[0] == a[0]);
        assert(text::is_space(kind, a[0]));
        let less = a.drop_first();
        assert(s.drop_first() =~= less + t);
        assert forall|i: int| 0 <= i < less.len() implies text::is_space(
            kind,
            #[trigger] less[i],
        ) by {
            assert(less[i] == a[i + 1]);
        }
        lemma_trim_start(kind, less, t);
    } else {
        assert(s =~= t);
    }
}

proof fn lemma_trim_end(kind: Space, t: Seq<char>, b: Seq<char>)
    requires
        text::all_space(kind, b),
        t.len() == 0 || !text::is_space(kind, t.last()),
    ensures
        text::trim_end(kind, t + b) == t,
    decreases b.len(),
{
    let s = t + b;
    if b.len() > 0 {
        assert(s.last() == b.last());
        assert(text::is_space(kind, b[b.len() - 1]));
        let less = b.drop_last();
        assert(s.drop_last() =~= t + less);
        assert forall|i: int| 0 <= i < less.len() implies text::is_space(
            kind,
            #[trigger] less[i],
        ) by {
            assert(less[i] == b[i]);
        }
        lemma_trim_end(kind, t, less);
    } else {
        assert(s =~= t);
    }
}

/// To trim a text takes the white space at its ends, and nothing else.
pub proof fn law_only_space_is_trimmed(kind: Space, a: Seq<char>, t: Seq<char>, b: Seq<char>)
    requires
        text::all_space(kind, a),
        text::all_space(kind, b),
        t.len() > 0,
        !text::is_space(kind, t[0]),
        !text::is_space(kind, t.last()),
    ensures
        text::trim(kind, a + t + b) == t,
        text::trim_start(kind, a + t) == t,
        text::trim_end(kind, t + b) == t,
        text::trim(kind, a).len() == 0,
{
    assert(a + t + b =~= a + (t + b));
    assert((t + b)[0] == t[0]);
    lemma_trim_start(kind, a, t + b);
    lemma_trim_start(kind, a, t);
    lemma_trim_end(kind, t, b);
    let none = Seq::<char>::empty();
    assert(a + none =~= a);
    lemma_trim_start(kind, a, none);
}

/// A number is written in decimal digits that read back as it.
pub proof fn law_numbers_read_back(n: nat)
    ensures
        text::is_digits(text::decimal(n)),
        text::digits_value(text::decimal(n)) == n,
        text::unsigned_value(text::decimal(n)) == Some(n as int),
    decreases n,
{
    let s = text::decimal(n);
    if n < 10 {
        assert(s.drop_last() =~= Seq::empty());
        assert(text::digits_value(s.drop_last()) == 0);
        assert(s.last() == text::digit(n as int));
    } else {
        law_numbers_read_back(n / 10);
        assert(s.drop_last() =~= text::decimal(n / 10));
        assert(s.last() == text::digit((n % 10) as int));
        assert(n == (n / 10) * 10 + n % 10);
        assert forall|i: int| 0 <= i < s.len() implies text::is_digit(#[trigger] s[i]) by {
            if i < s.len() - 1 {
                assert(s[i] == text::decimal(n / 10)[i]);
            }
        }
    }
    assert(s[0] != '+') by {
        assert(text::is_digit(s[0]));
    }
}

proof fn lemma_stands(a: Seq<char>, b: Seq<char>, i: int, p: Seq<char>)
    requires
        0 <= i,
    ensures
        text::stands_at(a + b, a.len() + i, p) == text::stands_at(b, i, p),
{
    let n = a.len() + i;
    if i + p.len() <= b.len() {
        assert((a + b).subrange(n, n + p.len()) =~= b.subrange(i, i + p.len()));
    }
}

proof fn lemma_replaced_shift(a: Seq<char>, b: Seq<char>, p: Seq<char>, with: Seq<char>, i: int)
    requires
        0 <= i,
    ensures
        text::replaced_from(a + b, p, with, a.len() + i) == text::replaced_from(b, p, with, i),
    decreases b.len() - i,
{
    if i < b.len() {
        lemma_stands(a, b, i, p);
        if p.len() > 0 && text::stands_at(b, i, p) {
            lemma_replaced_shift(a, b, p, with, i + p.len());
        } else {
            assert((a + b)[a.len() + i] == b[i]);
            lemma_replaced_shift(a, b, p, with, i + 1);
        }
    }
}

proof fn lemma_replaced_skip(s: Seq<char>, p: Seq<char>, with: Seq<char>, i: int, j: int)
    requires
        0 <= i <= j <= s.len(),
        p.len() > 0,
        forall|k: int| i <= k < j ==> (#[trigger] s[k]) != p[0],
    ensures
        text::replaced_from(s, p, with, i) == s.subrange(i, j) + text::replaced_from(
            s,
            p,
            with,
            j,
        ),
    decreases j - i,
{
    let tail = text::replaced_from(s, p, with, j);
    if i < j {
        if text::stands_at(s, i, p) {
            assert(s.subrange(i, i + p.len())[0] == s[i]);
        }
        lemma_replaced_skip(s, p, with, i + 1, j);
        assert(s.subrange(i, j) =~= seq![s[i]] + s.subrange(i + 1, j));
        assert(seq![s[i]] + (s.subrange(i + 1, j) + tail) =~= s.subrange(i, j) + tail);
    } else {
        assert(s.subrange(i, j) + tail =~= tail);
    }
}

/// To replace a text puts another in its place, wherever it stands, and keeps the rest.
pub proof fn law_what_is_replaced(
    before: Seq<char>,
    p: Seq<char>,
    after: Seq<char>,
    with: Seq<char>,
)
    requires
        p.len() > 0,
        !before.contains(p[0]),
    ensures
        text::replaced(before + p + after, p, with) == before + with + text::replaced(
            after,
            p,
            with,
        ),
        text::replaced(before, p, with) == before,
{
    let s = before + p + after;
    let n = before.len() as int;
    assert forall|k: int| 0 <= k < n implies (#[trigger] s[k]) != p[0] by {
        assert(s[k] == before[k]);
    }
    lemma_replaced_skip(s, p, with, 0, n);
    assert(s.subrange(0, n) =~= before);
    assert(s.subrange(n, n + p.len()) =~= p);
    assert(s =~= (before + p) + after);
    lemma_replaced_shift(before + p, after, p, with, 0);
    let rest = text::replaced(after, p, with);
    assert(before + (with + rest) =~= before + with + rest);
    lemma_replaced_skip(before, p, with, 0, n);
    assert(before.subrange(0, n) =~= before);
    assert(before + Seq::<char>::empty() =~= before);
}

/// A text that is too long is cut, and an ellipsis says so; any other one is kept.
pub proof fn law_long_texts_are_cut(s: Seq<char>, max: int)
    requires
        0 <= max,
    ensures
        s.len() <= max ==> text::truncated(s, max) == s,
        s.len() > max ==> text::truncated(s, max) == s.take(max) + seq!['…'],
{
    reveal_strlit("…");
    assert("…"@ =~= seq!['…']);
}

// ------------------------------------------------------------------ members

/// An object gives the first member of a name; a value that is no object has no members.
pub proof fn law_which_member_is_found(o: Entries, key: Seq<char>, i: int)
    requires
        0 <= i < o.len(),
        o[i].0 == key,
        forall|j: int| 0 <= j < i ==> (#[trigger] o[j]).0 != key,
    ensures
        json::lookup(o, key) == Some(o[i].1),
        json::member(JsonView::Object(o), key) == Some(o[i].1),
        json::member(JsonView::Array(Seq::empty()), key) is None,
{
    lemma_found(o, key, i, 0);
}

proof fn lemma_found(o: Entries, key: Seq<char>, i: int, from: int)
    requires
        0 <= from <= i < o.len(),
        o[i].0 == key,
        forall|j: int| 0 <= j < i ==> (#[trigger] o[j]).0 != key,
    ensures
        json::find_key(o, key, from) == Some(i),
    decreases i - from,
{
    if from < i {
        lemma_found(o, key, i, from + 1);
    }
}

/// A member that is set takes the place of the one of its name, or comes last; all other members
/// keep their places.
pub proof fn law_where_members_are_set(o: Entries, key: Seq<char>, value: JsonView)
    ensures
        ({
            let n = json::with_member(o, key, value);
            match json::find_key(o, key, 0) {
                Some(i) => n.len() == o.len() && (0 <= i < o.len() ==> n[i] == (key, value))
                    && forall|j: int|
                    0 <= j < o.len() && j != i ==> #[trigger] n[j] == o[j],
                None => n.len() == o.len() + 1 && n.drop_last() == o && n.last() == (key, value),
            }
        }),
{
    let n = json::with_member(o, key, value);
    if json::find_key(o, key, 0) is None {
        assert(n.drop_last() =~= o);
    } else {
        let i = json::find_key(o, key, 0).unwrap();
        lemma_in_range(o, key, 0);
        assert(n == o.update(i, (key, value)));
    }
}

proof fn lemma_in_range(o: Entries, key: Seq<char>, from: int)
    requires
        0 <= from <= o.len(),
        json::find_key(o, key, from) is Some,
    ensures
        from <= json::find_key(o, key, from).unwrap() < o.len(),
    decreases o.len() - from,
{
    if from < o.len() && o[from].0 != key {
        lemma_in_range(o, key, from + 1);
    }
}

// ------------------------------------------------------------------ arguments

/// Arguments that are complete are the object that they spell; blank ones are none; everything
/// else is kept with what is wrong with it.
pub proof fn law_what_arguments_are_taken_for(raw: Seq<char>)
    ensures
        ({
            let t = text::trim(Space::Unicode, raw);
            let args = json::final_arguments(raw);
            &&& t.len() == 0 ==> args.len() == 0
            &&& t.len() > 0 ==> (match json::parsed(t) {
                Ok(JsonView::Object(o)) => args == o,
                Ok(other) => json::lookup(args, "__parseError"@) == Some(
                    JsonView::String("expected a JSON object, got "@ + json::kind_name(other)),
                ) && json::lookup(args, "__rawJson"@) == Some(JsonView::String(raw)),
                Err(e) => json::lookup(args, "__parseError"@) == Some(JsonView::String(e))
                    && json::lookup(args, "__rawJson"@) == Some(JsonView::String(raw)),
            })
        }),
{
    reveal_strlit("__parseError");
    reveal_strlit("__rawJson");
    assert("__parseError"@.len() == 12 && "__rawJson"@.len() == 9);
    reveal_with_fuel(json::find_key, 3);
}

/// Arguments that are still coming in are the object that they spell so far: as they are, or else
/// once what is open is closed.
pub proof fn law_what_incomplete_arguments_are_taken_for(partial: Seq<char>)
    ensures
        ({
            let t = text::trim_start(Space::Unicode, partial);
            let args = json::streamed(partial);
            &&& t.len() == 0 ==> args.len() == 0
            &&& t.len() > 0 ==> {
                &&& json::parsed(t) matches Ok(JsonView::Object(o)) ==> args == o
                &&& !(json::parsed(t) matches Ok(JsonView::Object(_))) ==> (match json::parsed(
                    json::completed(t),
                ) {
                    Ok(JsonView::Object(o)) => args == o,
                    _ => args.len() == 0,
                })
            }
        }),
{
}

/// What is open is closed in the reverse order: the last that was opened comes first.
pub proof fn law_what_is_open_is_closed(s: Seq<char>)
    ensures
        ({
            let open = json::scanned(s, s.len() as int).closers;
            let all = json::completed(s);
            &&& all.len() >= open.len()
            &&& forall|i: int|
                0 <= i < open.len() ==> #[trigger] all[all.len() - 1 - i] == open[i]
        }),
{
    let scan = json::scanned(s, s.len() as int);
    let open = scan.closers;
    let body = json::with_value(
        json::without_comma(text::trim_end(Space::Unicode, json::string_ended(s, scan))),
    );
    let all = json::completed(s);
    assert(all =~= body + open.reverse());
    assert forall|i: int| 0 <= i < open.len() implies #[trigger] all[all.len() - 1 - i]
        == open[i] by {
        assert(all[all.len() - 1 - i] == open.reverse()[open.len() - 1 - i]);
    }
}

/// Braces and brackets open and close outside of texts only; a quote opens a text, and one that is
/// not escaped closes it.
pub proof fn law_what_opens_and_closes(s: ScanView, c: char)
    ensures
        ({
            let n = json::scan_step(s, c);
            &&& s.in_string ==> n.closers == s.closers
            &&& !s.in_string && c == '{' ==> n.closers == s.closers.push('}')
            &&& !s.in_string && c == '[' ==> n.closers == s.closers.push(']')
            &&& !s.in_string && (c == '}' || c == ']') && s.closers.len() > 0 ==> n.closers
                == s.closers.drop_last()
            &&& !s.in_string && c == '"' ==> n.in_string
            &&& !s.in_string && c != '"' ==> !n.in_string
            &&& s.in_string && s.escaped ==> n.in_string && !n.escaped
            &&& s.in_string && !s.escaped && c == '"' ==> !n.in_string
            &&& s.in_string && !s.escaped && c == '\\' ==> n.in_string && n.escaped
            &&& s.in_string && !s.escaped && c != '"' && c != '\\' ==> n.in_string && !n.escaped
            &&& !s.in_string && c != '{' && c != '[' && c != '}' && c != ']' ==> n.closers
                == s.closers
        }),
{
}

/// A comma at the end of what came in says nothing yet, and behind a colon a value is still to
/// come; a text that is cut off ends where it is cut.
pub proof fn law_what_is_cut_off_is_completed(s: Seq<char>, scan: ScanView)
    requires
        s.len() > 0,
    ensures
        json::without_comma(s.push(',')) == s,
        s.last() != ',' ==> json::without_comma(s) == s,
        json::with_value(s.push(':')) == s.push(':') + "null"@,
        s.last() != ':' ==> json::with_value(s) == s,
        !scan.in_string ==> json::string_ended(s, scan) == s,
        scan.in_string && !scan.escaped ==> json::string_ended(s, scan) == s.push('"'),
        scan.in_string && scan.escaped ==> json::string_ended(s.push('\\'), scan) == s.push('"'),
{
    assert(s.push(',').drop_last() =~= s);
    assert(s.push('\\').drop_last() =~= s);
}

// ------------------------------------------------------------------ what values count as

/// Nothing, false, zero and the empty text count as false, everything else as true.
pub proof fn law_what_counts_as_true(v: JsonView)
    ensures
        match v {
            JsonView::Null => !js::is_truthy(v),
            JsonView::Bool(b) => js::is_truthy(v) == b,
            JsonView::Number(n) => js::is_truthy(v) == !number::float_equal(
                n,
                NumberView::PosInt(0),
            ),
            JsonView::String(s) => js::is_truthy(v) == (s.len() > 0),
            JsonView::Array(_) => js::is_truthy(v),
            JsonView::Object(_) => js::is_truthy(v),
        },
{
}

/// The text of a value: a text is itself, the elements of an array stand one behind the other with
/// commas between them, and what is null is left out there.
pub proof fn law_what_values_are_written_as(v: JsonView)
    ensures
        match v {
            JsonView::Null => js::js_text(v) == "undefined"@,
            JsonView::Bool(b) => js::js_text(v) == (if b {
                "true"@
            } else {
                "false"@
            }),
            JsonView::Number(n) => js::js_text(v) == number::js_number(n),
            JsonView::String(s) => js::js_text(v) == s,
            JsonView::Array(items) => js::js_text(v) == text::join(
                Seq::new(
                    items.len(),
                    |i: int|
                        if items[i] is Null {
                            Seq::empty()
                        } else {
                            js::js_text(items[i])
                        },
                ),
                ","@,
            ),
            JsonView::Object(_) => js::js_text(v) == "[object Object]"@,
        },
{
    match v {
        JsonView::Array(items) => {
            assert(js::element_texts(items) =~= Seq::new(
                items.len(),
                |i: int|
                    if items[i] is Null {
                        Seq::empty()
                    } else {
                        js::js_text(items[i])
                    },
            ));
        },
        _ => {},
    }
}

/// Texts are added by putting one behind the other; a text and any other value by their texts.
pub proof fn law_how_values_are_added(a: Seq<char>, b: Seq<char>, v: JsonView)
    requires
        v is Null || v is Bool || v is Number,
    ensures
        js::sum_value(JsonView::String(a), JsonView::String(b)) == JsonView::String(a + b),
        js::sum_value(JsonView::String(a), v) == JsonView::String(a + js::js_text(v)),
        js::sum_value(v, JsonView::String(b)) == JsonView::String(js::js_text(v) + b),
{
}

/// True counts as one, false as zero, a number as itself, a text as the number that it spells;
/// objects and nothing are no numbers.
pub proof fn law_which_numbers_values_are(v: JsonView)
    ensures
        match v {
            JsonView::Null => js::number_of(v) is Nan,
            JsonView::Bool(b) => js::number_of(v) == JsNumberView::Finite(
                NumberView::PosInt(
                    if b {
                        1
                    } else {
                        0
                    },
                ),
            ),
            JsonView::Number(n) => js::number_of(v) == JsNumberView::Finite(n),
            JsonView::String(s) => js::number_of(v) == js::text_number(s),
            JsonView::Array(_) => js::number_of(v) == js::text_number(js::js_text(v)),
            JsonView::Object(_) => js::number_of(v) is Nan,
        },
        forall|s: Seq<char>|
            text::trim(Space::Js, s).len() == 0 ==> #[trigger] js::text_number(s)
                == JsNumberView::Finite(NumberView::PosInt(0)),
{
}

/// What is identical: simple values that are the same; the order does not matter, and arrays and
/// objects never are.
pub proof fn law_what_is_identical(a: Seq<char>, b: Seq<char>, x: bool, y: bool, v: JsonView)
    ensures
        js::identical(JsonView::String(a), JsonView::String(b)) <==> a == b,
        js::identical(JsonView::Bool(x), JsonView::Bool(y)) <==> x == y,
        js::identical(JsonView::Null, JsonView::Null),
        v is Array || v is Object ==> !js::identical(v, v),
        js::identical(JsonView::Null, v) <==> v is Null,
        js::identical(JsonView::String(a), v) <==> v == JsonView::String(a),
{
}

proof fn lemma_named(o: Entries)
    ensures
        js::named(o) == o.filter(|m: (Seq<char>, JsonView)| js::index_key(m.0) is None),
    decreases o.len(),
{
    reveal(Seq::filter);
    let plain = |m: (Seq<char>, JsonView)| js::index_key(m.0) is None;
    if o.len() > 0 {
        lemma_named(o.drop_last());
    } else {
        assert(js::named(o) =~= Seq::empty());
        assert(o.filter(plain) =~= Seq::empty());
    }
}

/// The members of an object are shown with those first whose names are indices; all others follow
/// as they were put in.
pub proof fn law_how_members_are_shown(o: Entries)
    ensures
        js::ordered(o) == js::indexed(o) + o.filter(
            |m: (Seq<char>, JsonView)| js::index_key(m.0) is None,
        ),
        js::all_indices(js::indexed(o)),
        forall|i: int, j: int|
            0 <= i < j < js::indexed(o).len() ==> js::index_key((#[trigger] js::indexed(o)[i]).0)
                .unwrap() <= js::index_key((#[trigger] js::indexed(o)[j]).0).unwrap(),
{
    lemma_named(o);
    lemma_indexed(o);
}

/// The members stand by their indices.
spec fn rising(o: Entries) -> bool {
    &&& js::all_indices(o)
    &&& forall|i: int, j: int|
        0 <= i < j < o.len() ==> js::index_key((#[trigger] o[i]).0).unwrap() <= js::index_key(
            (#[trigger] o[j]).0,
        ).unwrap()
}

proof fn lemma_indexed(o: Entries)
    ensures
        rising(js::indexed(o)),
    decreases o.len(),
{
    if o.len() > 0 {
        lemma_indexed(o.drop_last());
        if js::index_key(o.last().0) is Some {
            lemma_inserted(js::indexed(o.drop_last()), o.last());
        }
    }
}

proof fn lemma_inserted(o: Entries, m: (Seq<char>, JsonView))
    requires
        rising(o),
        js::index_key(m.0) is Some,
    ensures
        rising(js::inserted(o, m)),
        js::inserted(o, m).len() == o.len() + 1,
        forall|i: int|
            0 <= i < js::inserted(o, m).len() ==> o.contains(#[trigger] js::inserted(o, m)[i])
                || js::inserted(o, m)[i] == m,
    decreases o.len(),
{
    let n = js::inserted(o, m);
    if o.len() == 0 || js::index_key(o.last().0).unwrap() <= js::index_key(m.0).unwrap() {
        assert(n == o.push(m));
        assert forall|i: int, j: int| 0 <= i < j < n.len() implies js::index_key(
            (#[trigger] n[i]).0,
        ).unwrap() <= js::index_key((#[trigger] n[j]).0).unwrap() by {
            if j == o.len() {
                assert(n[i] == o[i]);
                if i < o.len() - 1 {
                    assert(js::index_key(o[i].0).unwrap() <= js::index_key(
                        o[o.len() - 1].0,
                    ).unwrap());
                }
            } else {
                assert(n[i] == o[i] && n[j] == o[j]);
            }
        }
        assert forall|i: int| 0 <= i < n.len() implies o.contains(#[trigger] n[i]) || n[i] == m by {
            if i < o.len() {
                assert(n[i] == o[i]);
            }
        }
    } else {
        let less = o.drop_last();
        assert forall|i: int| 0 <= i < less.len() implies js::index_key(
            (#[trigger] less[i]).0,
        ) is Some by {
            assert(less[i] == o[i]);
        }
        assert(rising(less)) by {
            assert forall|i: int, j: int| 0 <= i < j < less.len() implies js::index_key(
                (#[trigger] less[i]).0,
            ).unwrap() <= js::index_key((#[trigger] less[j]).0).unwrap() by {
                assert(less[i] == o[i] && less[j] == o[j]);
            }
        }
        lemma_inserted(less, m);
        let t = js::inserted(less, m);
        assert(n == t.push(o.last()));
        let last = o[o.len() - 1];
        assert forall|i: int| 0 <= i < t.len() implies js::index_key(
            (#[trigger] t[i]).0,
        ).unwrap() <= js::index_key(last.0).unwrap() by {
            if t[i] != m {
                let k = choose|k: int| 0 <= k < less.len() && less[k] == t[i];
                assert(o[k] == t[i]);
            }
        }
        assert forall|i: int| 0 <= i < n.len() implies o.contains(#[trigger] n[i]) || n[i] == m by {
            if i < t.len() {
                if t[i] != m {
                    let k = choose|k: int| 0 <= k < less.len() && less[k] == t[i];
                    assert(o[k] == n[i]);
                }
            } else {
                assert(o[o.len() - 1] == n[i]);
            }
        }
        assert(js::all_indices(n));
        assert forall|i: int, j: int| 0 <= i < j < n.len() implies js::index_key(
            (#[trigger] n[i]).0,
        ).unwrap() <= js::index_key((#[trigger] n[j]).0).unwrap() by {
            if j < t.len() {
                assert(n[i] == t[i] && n[j] == t[j]);
            } else {
                assert(n[i] == t[i]);
            }
        }
    }
}

// ------------------------------------------------------------------ leading numbers

proof fn lemma_digits_end(s: Seq<char>, i: int, n: int)
    requires
        0 <= i <= n <= s.len(),
        forall|k: int| i <= k < n ==> text::is_digit(#[trigger] s[k]),
        n == s.len() || !text::is_digit(s[n]),
    ensures
        js::digits_until(s, i) == n,
    decreases n - i,
{
    if i < n {
        assert(text::is_digit(s[i]));
        lemma_digits_end(s, i + 1, n);
    }
}

/// A text counts for the whole number that it begins with: a sign may stand before it, and what
/// follows the digits is left out. Without digits it is no number.
pub proof fn law_leading_numbers(digits: Seq<char>, rest: Seq<char>)
    requires
        forall|k: int| 0 <= k < digits.len() ==> text::is_digit(#[trigger] digits[k]),
        rest.len() > 0 ==> !text::is_digit(rest[0]),
    ensures
        digits.len() > 0 ==> js::leading_int(JsonView::String(digits + rest)) == js::leading_int(
            JsonView::String(digits),
        ),
        digits.len() > 0 ==> js::leading_int(JsonView::String("+"@ + digits + rest))
            == js::leading_int(JsonView::String(digits)),
        digits.len() > 0 ==> match number::float_parsed(digits) {
            Some(Some(n)) => {
                &&& js::leading_int(JsonView::String(digits)) == JsNumberView::Finite(n)
                &&& number::float_product(n, NumberView::NegInt(-1i64)) matches Some(m)
                    ==> js::leading_int(JsonView::String("-"@ + digits + rest))
                    == JsNumberView::Finite(m)
            },
            Some(None) => {
                &&& js::leading_int(JsonView::String(digits)) is Infinity
                &&& js::leading_int(JsonView::String("-"@ + digits + rest)) is NegInfinity
            },
            None => js::leading_int(JsonView::String(digits)) is Nan,
        },
        digits.len() == 0 && rest.len() == 0 ==> js::leading_int(JsonView::String(rest)) is Nan,
        digits.len() == 0 ==> js::leading_int(JsonView::String("+"@ + rest)) is Nan
            && js::leading_int(JsonView::String("-"@ + rest)) is Nan,
{
    reveal_strlit("+");
    reveal_strlit("-");
    let n = digits.len() as int;
    let a = digits + rest;
    let b = "+"@ + digits + rest;
    let c = "-"@ + digits + rest;
    assert forall|k: int| 0 <= k < n implies text::is_digit(#[trigger] a[k]) by {
        assert(a[k] == digits[k]);
    }
    assert forall|k: int| 1 <= k < n + 1 implies text::is_digit(#[trigger] b[k]) by {
        assert(b[k] == digits[k - 1]);
    }
    assert forall|k: int| 1 <= k < n + 1 implies text::is_digit(#[trigger] c[k]) by {
        assert(c[k] == digits[k - 1]);
    }
    if rest.len() > 0 {
        assert(a[n] == rest[0] && b[n + 1] == rest[0] && c[n + 1] == rest[0]);
    }
    lemma_digits_end(digits, 0, n);
    lemma_digits_end(a, 0, n);
    lemma_digits_end(b, 1, n + 1);
    lemma_digits_end(c, 1, n + 1);
    assert(digits.subrange(0, n) =~= digits);
    assert(a.subrange(0, n) =~= digits);
    assert(b.subrange(1, n + 1) =~= digits);
    assert(c.subrange(1, n + 1) =~= digits);
    if n > 0 {
        assert(text::is_digit(digits[0]));
        assert(a[0] == digits[0]);
    } else {
        assert("+"@ + rest =~= b);
        assert("-"@ + rest =~= c);
    }
}

/// Numbers of other bases are read where they follow the mark of their base.
pub proof fn law_numbers_of_other_bases(digits: Seq<char>, mark: char, radix: int)
    requires
        digits.len() > 0,
        (mark == 'x' || mark == 'X') && radix == 16 || (mark == 'o' || mark == 'O') && radix == 8
            || (mark == 'b' || mark == 'B') && radix == 2,
        js::all_radix(digits, radix),
        !text::is_space(Space::Js, digits.last()),
    ensures
        js::text_number(seq!['0', mark] + digits) == match js::radix_value(digits, radix) {
            Some(n) => JsNumberView::Finite(n),
            None => JsNumberView::Infinity,
        },
{
    let t = seq!['0', mark] + digits;
    reveal_strlit("0x");
    reveal_strlit("0X");
    reveal_strlit("0o");
    reveal_strlit("0O");
    reveal_strlit("0b");
    reveal_strlit("0B");
    reveal_strlit("Infinity");
    reveal_strlit("+Infinity");
    reveal_strlit("-Infinity");
    assert(t[0] == '0' && t[1] == mark);
    assert(t.last() == digits.last());
    assert(t.skip(2) =~= digits);
    assert(t.subrange(0, 2) =~= seq!['0', mark]);
    assert("0x"@ =~= seq!['0', 'x']);
    assert("0X"@ =~= seq!['0', 'X']);
    assert("0o"@ =~= seq!['0', 'o']);
    assert("0O"@ =~= seq!['0', 'O']);
    assert("0b"@ =~= seq!['0', 'b']);
    assert("0B"@ =~= seq!['0', 'B']);
    assert(seq!['0', mark][1] == mark);
    assert(text::trim(Space::Js, t) == t);
}

} // verus!
