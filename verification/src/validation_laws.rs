//! What it means to meet a schema, and that arguments are accepted exactly when they do.
use crate::json;
use crate::json::{Entries, JsonView, NumberView};
use crate::number;
use crate::text;
use crate::text::Space;
use crate::validation;
use crate::validation::IssueView;
use vstd::prelude::*;

verus! {

/// A name that stands for a type of JSON values.
pub open spec fn names_type(t: Seq<char>) -> bool {
    t == "object"@ || t == "array"@ || t == "string"@ || t == "boolean"@ || t == "null"@ || t
        == "number"@ || t == "integer"@
}

/// A value is of a type, as far as its name stands for one.
pub open spec fn is_of_type(v: JsonView, t: Seq<char>) -> bool {
    names_type(t) ==> match v {
        JsonView::Null => t == "null"@,
        JsonView::Bool(_) => t == "boolean"@,
        JsonView::String(_) => t == "string"@,
        JsonView::Array(_) => t == "array"@,
        JsonView::Object(_) => t == "object"@,
        JsonView::Number(NumberView::Float(s)) => t == "number"@ || (t == "integer"@
            && number::is_whole(s)),
        JsonView::Number(_) => t == "number"@ || t == "integer"@,
    }
}

/// The value is of the type that the schema names, or of one of those.
pub open spec fn meets_type(schema: JsonView, v: JsonView) -> bool {
    match json::member(schema, "type"@) {
        Some(JsonView::String(t)) => is_of_type(v, t),
        Some(JsonView::Array(ts)) => (exists|i: int|
            0 <= i < ts.len() && (#[trigger] ts[i]) is String && is_of_type(v, ts[i]->String_0))
            || (forall|i: int| 0 <= i < ts.len() ==> !((#[trigger] ts[i]) is String)),
        _ => true,
    }
}

/// The value is the one that the schema asks for.
pub open spec fn meets_const(schema: JsonView, v: JsonView) -> bool {
    json::member(schema, "const"@) matches Some(c) ==> json::same_value(c, v)
}

/// The value is one of the options of the schema.
pub open spec fn meets_enum(schema: JsonView, v: JsonView) -> bool {
    json::member(schema, "enum"@) matches Some(JsonView::Array(options)) ==> exists|i: int|
        0 <= i < options.len() && json::same_value(#[trigger] options[i], v)
}

/// The object has every property that the schema requires.
pub open spec fn has_required(schema: JsonView, o: Entries) -> bool {
    json::member(schema, "required"@) matches Some(JsonView::Array(names)) ==> forall|i: int|
        0 <= i < names.len() && (#[trigger] names[i]) is String ==> has_member(
            o,
            names[i]->String_0,
        )
}

/// The object has a member of that name.
pub open spec fn has_member(o: Entries, key: Seq<char>) -> bool {
    exists|i: int| 0 <= i < o.len() && (#[trigger] o[i]).0 == key
}

/// The text is neither shorter nor longer than the schema allows.
pub open spec fn has_length(schema: JsonView, s: Seq<char>) -> bool {
    &&& json::member(schema, "minLength"@) matches Some(JsonView::Number(NumberView::PosInt(n)))
        ==> n <= s.len()
    &&& json::member(schema, "maxLength"@) matches Some(JsonView::Number(NumberView::PosInt(n)))
        ==> s.len() <= n
}

/// The number is neither smaller nor greater than the schema allows.
pub open spec fn is_in_range(schema: JsonView, n: NumberView) -> bool {
    &&& json::member(schema, "minimum"@) matches Some(JsonView::Number(min))
        ==> !number::float_less(n, min)
    &&& json::member(schema, "maximum"@) matches Some(JsonView::Number(max))
        ==> !number::float_less(max, n)
}

/// How many of the first `n` alternatives a value meets.
pub open spec fn alternatives_met(schema: JsonView, key: Seq<char>, v: JsonView, n: int) -> int
    decreases v, schema, 0nat, n,
{
    match json::member(schema, key) {
        Some(JsonView::Array(branches)) => if 0 < n <= branches.len() {
            proof {
                json::lemma_member_smaller(schema, key);
            }
            alternatives_met(schema, key, v, n - 1) + if meets(branches[n - 1], v) {
                1int
            } else {
                0int
            }
        } else {
            0
        },
        _ => 0,
    }
}

/// The first `n` members meet the schemas of their properties; other members are not forbidden,
/// and meet the schema for all other properties.
pub open spec fn members_meet(schema: JsonView, v: JsonView, n: int) -> bool
    decreases v, schema, 0nat, n,
{
    match v {
        JsonView::Object(o) => if 0 < n <= o.len() {
            proof {
                validation::lemma_property_smaller(schema, o[n - 1].0);
                json::lemma_member_smaller(schema, "additionalProperties"@);
                assert(decreases_to!(v => v->Object_0));
                assert(decreases_to!(o => o[n - 1]));
                assert(decreases_to!(o[n - 1] => o[n - 1].1));
            }
            members_meet(schema, v, n - 1) && match property_schema(schema, o[n - 1].0) {
                Some(p) => meets(p, o[n - 1].1),
                None => match json::member(schema, "additionalProperties"@) {
                    Some(JsonView::Bool(allowed)) => allowed,
                    Some(JsonView::Object(extra)) => meets(JsonView::Object(extra), o[n - 1].1),
                    _ => true,
                },
            }
        } else {
            true
        },
        _ => true,
    }
}

/// The schema of a property.
pub open spec fn property_schema(schema: JsonView, name: Seq<char>) -> Option<JsonView> {
    match json::member(schema, "properties"@) {
        Some(JsonView::Object(properties)) => json::lookup(properties, name),
        _ => None,
    }
}

/// The first `n` elements meet the schema of the elements.
pub open spec fn elements_meet(item: JsonView, v: JsonView, n: int) -> bool
    decreases v, item, 0nat, n,
{
    match v {
        JsonView::Array(a) => if 0 < n <= a.len() {
            elements_meet(item, v, n - 1) && meets(item, a[n - 1])
        } else {
            true
        },
        _ => true,
    }
}

/// A value meets a schema: every keyword of the schema holds of it. A schema that says nothing is
/// met by every value.
pub open spec fn meets(schema: JsonView, v: JsonView) -> bool
    decreases v, schema, 1nat, 0int,
{
    schema == JsonView::Bool(true) || schema == JsonView::Object(Seq::empty()) || {
        &&& json::member(schema, "anyOf"@) matches Some(JsonView::Array(b)) ==> alternatives_met(
            schema,
            "anyOf"@,
            v,
            b.len() as int,
        ) >= 1
        &&& json::member(schema, "oneOf"@) matches Some(JsonView::Array(b)) ==> alternatives_met(
            schema,
            "oneOf"@,
            v,
            b.len() as int,
        ) == 1
        &&& meets_type(schema, v)
        &&& meets_const(schema, v)
        &&& meets_enum(schema, v)
        &&& match v {
            JsonView::Object(o) => has_required(schema, o) && members_meet(
                schema,
                v,
                o.len() as int,
            ),
            JsonView::Array(a) => {
                proof {
                    json::lemma_member_smaller(schema, "items"@);
                }
                json::member(schema, "items"@) matches Some(item) ==> elements_meet(
                    item,
                    v,
                    a.len() as int,
                )
            },
            JsonView::String(s) => has_length(schema, s),
            JsonView::Number(n) => is_in_range(schema, n),
            _ => true,
        }
    }
}

// ------------------------------------------------------------------ issues

proof fn lemma_names()
    ensures
        "object"@ != "array"@ && "object"@ != "string"@ && "object"@ != "boolean"@ && "object"@
            != "null"@ && "object"@ != "number"@ && "object"@ != "integer"@,
        "array"@ != "string"@ && "array"@ != "boolean"@ && "array"@ != "null"@ && "array"@
            != "number"@ && "array"@ != "integer"@,
        "string"@ != "boolean"@ && "string"@ != "null"@ && "string"@ != "number"@ && "string"@
            != "integer"@,
        "boolean"@ != "null"@ && "boolean"@ != "number"@ && "boolean"@ != "integer"@,
        "null"@ != "number"@ && "null"@ != "integer"@ && "number"@ != "integer"@,
        "anyOf"@ != "oneOf"@,
{
    reveal_strlit("object");
    reveal_strlit("array");
    reveal_strlit("string");
    reveal_strlit("boolean");
    reveal_strlit("null");
    reveal_strlit("number");
    reveal_strlit("integer");
    reveal_strlit("anyOf");
    reveal_strlit("oneOf");
    assert("object"@[0] == 'o' && "array"@[0] == 'a' && "string"@[0] == 's');
    assert("boolean"@[0] == 'b' && "null"@[0] == 'n' && "number"@[0] == 'n');
    assert("integer"@[0] == 'i' && "null"@.len() == 4 && "number"@.len() == 6);
    assert("anyOf"@[0] == 'a' && "oneOf"@[0] == 'o');
}

proof fn lemma_strings_in(a: Seq<JsonView>)
    ensures
        forall|i: int|
            0 <= i < a.len() && (#[trigger] a[i]) is String ==> validation::strings_in(a).contains(
                a[i]->String_0,
            ),
        forall|j: int|
            0 <= j < validation::strings_in(a).len() ==> a.contains(
                JsonView::String(#[trigger] validation::strings_in(a)[j]),
            ),
    decreases a.len(),
{
    if a.len() > 0 {
        let init = a.drop_last();
        lemma_strings_in(init);
        let all = validation::strings_in(a);
        let before = validation::strings_in(init);
        assert forall|i: int| 0 <= i < a.len() && (#[trigger] a[i]) is String implies all.contains(
            a[i]->String_0,
        ) by {
            if i < init.len() {
                assert(init[i] is String);
                let k = choose|k: int| 0 <= k < before.len() && before[k] == a[i]->String_0;
                assert(all[k] == a[i]->String_0);
            } else {
                assert(all[all.len() - 1] == a[i]->String_0);
            }
        }
        assert forall|j: int| 0 <= j < all.len() implies a.contains(
            JsonView::String(#[trigger] all[j]),
        ) by {
            if j < before.len() {
                assert(all[j] == before[j]);
                assert(init.contains(JsonView::String(before[j])));
                let k = choose|k: int| 0 <= k < init.len() && init[k] == JsonView::String(before[j]);
                assert(a[k] == JsonView::String(all[j]));
            } else {
                assert(a[a.len() - 1] == JsonView::String(all[j]));
            }
        }
    }
}

proof fn lemma_has_type(t: Seq<char>, v: JsonView)
    ensures
        validation::has_type(t, v) == is_of_type(v, t),
{
    lemma_names();
}

proof fn lemma_types(schema: JsonView, v: JsonView)
    ensures
        ({
            let types = validation::types_of(schema);
            meets_type(schema, v) <==> types.len() == 0 || validation::has_some_type(types, v)
        }),
{
    let types = validation::types_of(schema);
    match json::member(schema, "type"@) {
        Some(JsonView::String(t)) => {
            lemma_has_type(t, v);
            assert(types[0] == t);
        },
        Some(JsonView::Array(ts)) => {
            lemma_strings_in(ts);
            if validation::has_some_type(types, v) {
                let i = choose|i: int|
                    0 <= i < types.len() && validation::has_type(#[trigger] types[i], v);
                lemma_has_type(types[i], v);
                assert(ts.contains(JsonView::String(types[i])));
                let k = choose|k: int| 0 <= k < ts.len() && ts[k] == JsonView::String(types[i]);
                assert(ts[k] is String && is_of_type(v, ts[k]->String_0));
            }
            if exists|i: int|
                0 <= i < ts.len() && (#[trigger] ts[i]) is String && is_of_type(
                    v,
                    ts[i]->String_0,
                ) {
                let i = choose|i: int|
                    0 <= i < ts.len() && (#[trigger] ts[i]) is String && is_of_type(
                        v,
                        ts[i]->String_0,
                    );
                let k = choose|k: int| 0 <= k < types.len() && types[k] == ts[i]->String_0;
                lemma_has_type(types[k], v);
                assert(validation::has_type(types[k], v));
            }
            if types.len() > 0 {
                assert(ts.contains(JsonView::String(types[0])));
                let k = choose|k: int| 0 <= k < ts.len() && ts[k] == JsonView::String(types[0]);
                assert(ts[k] is String);
            }
            if exists|i: int| 0 <= i < ts.len() && (#[trigger] ts[i]) is String {
                let i = choose|i: int| 0 <= i < ts.len() && (#[trigger] ts[i]) is String;
                assert(types.contains(ts[i]->String_0));
            }
        },
        _ => {},
    }
}

proof fn lemma_lookup(o: Entries, key: Seq<char>)
    ensures
        json::lookup(o, key) is Some <==> has_member(o, key),
{
    json::lemma_find_key(o, key, 0);
}

proof fn lemma_missing(required: Seq<Seq<char>>, o: Entries, path: Seq<Seq<char>>, n: int)
    requires
        0 <= n <= required.len(),
    ensures
        validation::missing(required, o, path, n).len() == 0 <==> forall|i: int|
            0 <= i < n ==> has_member(o, #[trigger] required[i]),
    decreases n,
{
    if n > 0 {
        lemma_missing(required, o, path, n - 1);
        lemma_lookup(o, required[n - 1]);
        if forall|i: int| 0 <= i < n ==> has_member(o, #[trigger] required[i]) {
            assert(has_member(o, required[n - 1]));
        }
    }
}

proof fn lemma_required(schema: JsonView, o: Entries, path: Seq<Seq<char>>)
    ensures
        ({
            let required = validation::required_of(schema);
            validation::missing(required, o, path, required.len() as int).len() == 0
                <==> has_required(schema, o)
        }),
{
    let required = validation::required_of(schema);
    lemma_missing(required, o, path, required.len() as int);
    match json::member(schema, "required"@) {
        Some(JsonView::Array(names)) => {
            lemma_strings_in(names);
            if has_required(schema, o) {
                assert forall|i: int| 0 <= i < required.len() implies has_member(
                    o,
                    #[trigger] required[i],
                ) by {
                    assert(names.contains(JsonView::String(required[i])));
                    let k = choose|k: int|
                        0 <= k < names.len() && names[k] == JsonView::String(required[i]);
                    assert(names[k] is String);
                }
            }
            if forall|i: int| 0 <= i < required.len() ==> has_member(o, #[trigger] required[i]) {
                assert forall|i: int| 0 <= i < names.len() && (
                #[trigger] names[i]) is String implies has_member(o, names[i]->String_0) by {
                    let k = choose|k: int|
                        0 <= k < required.len() && required[k] == names[i]->String_0;
                    assert(has_member(o, required[k]));
                }
            }
        },
        _ => {},
    }
}

proof fn lemma_matched(
    schema: JsonView,
    key: Seq<char>,
    v: JsonView,
    path: Seq<Seq<char>>,
    n: int,
)
    ensures
        validation::matched(schema, key, v, path, n) == alternatives_met(schema, key, v, n),
    decreases v, schema, 0nat, n,
{
    match json::member(schema, key) {
        Some(JsonView::Array(branches)) => {
            if 0 < n <= branches.len() {
                json::lemma_member_smaller(schema, key);
                lemma_matched(schema, key, v, path, n - 1);
                lemma_issues(branches[n - 1], v, path);
            }
        },
        _ => {},
    }
}

proof fn lemma_members(schema: JsonView, v: JsonView, path: Seq<Seq<char>>, n: int)
    ensures
        v matches JsonView::Object(o) ==> 0 <= n <= o.len() ==> (validation::members_issues(
            schema,
            v,
            path,
            n,
        ).len() == 0 <==> members_meet(schema, v, n)),
    decreases v, schema, 0nat, n,
{
    match v {
        JsonView::Object(o) => {
            if 0 < n <= o.len() {
                lemma_members(schema, v, path, n - 1);
                let name = o[n - 1].0;
                let child = o[n - 1].1;
                assert(decreases_to!(v => v->Object_0));
                assert(decreases_to!(o => o[n - 1]));
                assert(decreases_to!(o[n - 1] => o[n - 1].1));
                assert(validation::property_of(schema, name) == property_schema(schema, name));
                let one = validation::member_issues(schema, name, child, path);
                let before = validation::members_issues(schema, v, path, n - 1);
                assert(validation::members_issues(schema, v, path, n) == before + one);
                match validation::property_of(schema, name) {
                    Some(p) => {
                        validation::lemma_property_smaller(schema, name);
                        lemma_issues(p, child, path.push(name));
                    },
                    None => match json::member(schema, "additionalProperties"@) {
                        Some(extra) => {
                            json::lemma_member_smaller(schema, "additionalProperties"@);
                            lemma_issues(extra, child, path.push(name));
                        },
                        None => {},
                    },
                }
            }
        },
        _ => {},
    }
}

proof fn lemma_items(item: JsonView, v: JsonView, path: Seq<Seq<char>>, n: int)
    ensures
        v matches JsonView::Array(a) ==> 0 <= n <= a.len() ==> (validation::items_issues(
            item,
            v,
            path,
            n,
        ).len() == 0 <==> elements_meet(item, v, n)),
    decreases v, item, 0nat, n,
{
    match v {
        JsonView::Array(a) => {
            if 0 < n <= a.len() {
                lemma_items(item, v, path, n - 1);
                lemma_issues(item, a[n - 1], path.push(text::decimal((n - 1) as nat)));
            }
        },
        _ => {},
    }
}

/// A value has no issues with a schema exactly when it meets it.
proof fn lemma_issues(schema: JsonView, v: JsonView, path: Seq<Seq<char>>)
    ensures
        validation::issues(schema, v, path).len() == 0 <==> meets(schema, v),
    decreases v, schema, 1nat, 0int,
{
    lemma_names();
    lemma_types(schema, v);
    match json::member(schema, "anyOf"@) {
        Some(JsonView::Array(b)) => lemma_matched(schema, "anyOf"@, v, path, b.len() as int),
        _ => {},
    }
    match json::member(schema, "oneOf"@) {
        Some(JsonView::Array(b)) => lemma_matched(schema, "oneOf"@, v, path, b.len() as int),
        _ => {},
    }
    match v {
        JsonView::Object(o) => {
            lemma_required(schema, o, path);
            lemma_members(schema, v, path, o.len() as int);
        },
        JsonView::Array(a) => match json::member(schema, "items"@) {
            Some(item) => {
                json::lemma_member_smaller(schema, "items"@);
                lemma_items(item, v, path, a.len() as int);
            },
            None => {},
        },
        _ => {},
    }
    assert(validation::const_issues(schema, v, path).len() == 0 <==> meets_const(schema, v));
    assert(validation::enum_issues(schema, v, path).len() == 0 <==> meets_enum(schema, v));
    let c = validation::const_issues(schema, v, path);
    let e = validation::enum_issues(schema, v, path);
    let s = validation::shape_issues(schema, v, path);
    assert((c + e + s).len() == c.len() + e.len() + s.len());
}

// ------------------------------------------------------------------ arguments

/// Arguments that are accepted meet the schema of the tool, keyword by keyword.
pub proof fn law_accepted_arguments_meet_every_keyword(
    schema: JsonView,
    call_name: Seq<char>,
    args: Entries,
)
    ensures
        validation::validated(schema, call_name, args) matches Ok(o) ==> meets(
            schema,
            JsonView::Object(o),
        ),
        has_member(args, "__parseError"@) ==> validation::validated(schema, call_name, args) is Err,
{
    lemma_lookup(args, "__parseError"@);
    match validation::validated(schema, call_name, args) {
        Ok(o) => lemma_issues(schema, JsonView::Object(o), Seq::empty()),
        Err(_) => {},
    }
}

/// Nothing in a value could stand for nothing: no `null`, and no text that says so.
pub open spec fn has_no_nulls(v: JsonView) -> bool
    decreases v,
{
    match v {
        JsonView::Null => false,
        JsonView::String(s) => s != "null"@,
        JsonView::Array(a) => forall|i: int| 0 <= i < a.len() ==> has_no_nulls(#[trigger] a[i]),
        JsonView::Object(o) => forall|i: int|
            0 <= i < o.len() ==> has_no_nulls((#[trigger] o[i]).1),
        _ => true,
    }
}

proof fn lemma_nothing_stripped(schema: JsonView, v: JsonView)
    requires
        has_no_nulls(v),
    ensures
        validation::stripped(schema, v) == (v, false),
    decreases schema, 1nat, 0int,
{
    match (json::member(schema, "properties"@), v) {
        (Some(JsonView::Object(_)), JsonView::Object(o)) => {
            lemma_no_keys_stripped(schema, o, o.len() as int);
        },
        _ => {},
    }
}

proof fn lemma_no_null(o: Entries, i: int)
    requires
        has_no_nulls(JsonView::Object(o)),
        0 <= i < o.len(),
    ensures
        has_no_nulls(o[i].1),
{
    let v = JsonView::Object(o);
    assert(v->Object_0 == o);
    assert(forall|k: int| 0 <= k < o.len() ==> has_no_nulls((#[trigger] o[k]).1));
}

proof fn lemma_no_keys_stripped(schema: JsonView, o: Entries, n: int)
    requires
        0 <= n <= o.len(),
        has_no_nulls(JsonView::Object(o)),
    ensures
        validation::stripped_keys(schema, o, validation::keys_of(o), n) == (o, false),
    decreases schema, 0nat, n,
{
    if n > 0 {
        lemma_no_keys_stripped(schema, o, n - 1);
        let key = validation::keys_of(o)[n - 1];
        assert(o[n - 1].0 == key);
        json::lemma_find_key(o, key, 0);
        assert(json::find_key(o, key, 0) is Some);
        let at = json::find_key(o, key, 0).unwrap();
        lemma_no_null(o, at);
        match validation::property_of(schema, key) {
            Some(p) => {
                validation::lemma_property_smaller(schema, key);
                assert(has_no_nulls(o[at].1));
                lemma_nothing_stripped(p, o[at].1);
                assert(json::with_member(o, key, o[at].1) =~= o);
            },
            None => {},
        }
    }
}

/// Arguments that meet the schema and hold no placeholders are accepted as they are.
pub proof fn law_fitting_arguments_are_accepted(
    schema: JsonView,
    call_name: Seq<char>,
    args: Entries,
)
    requires
        !has_member(args, "__parseError"@),
        has_no_nulls(JsonView::Object(args)),
        meets(schema, JsonView::Object(args)),
    ensures
        validation::validated(schema, call_name, args) == Ok::<Entries, Seq<char>>(args),
{
    lemma_lookup(args, "__parseError"@);
    let v = JsonView::Object(args);
    lemma_nothing_stripped(schema, v);
    lemma_issues(schema, v, Seq::empty());
}

/// No text stands anywhere in a value.
pub open spec fn has_no_texts(v: JsonView) -> bool
    decreases v,
{
    match v {
        JsonView::String(_) => false,
        JsonView::Array(a) => forall|i: int| 0 <= i < a.len() ==> has_no_texts(#[trigger] a[i]),
        JsonView::Object(o) => forall|i: int|
            0 <= i < o.len() ==> has_no_texts((#[trigger] o[i]).1),
        _ => true,
    }
}

proof fn lemma_digits(s: Seq<char>)
    requires
        forall|i: int| 0 <= i < s.len() ==> '0' <= (#[trigger] s[i]) && s[i] <= '9',
    ensures
        text::digits_value(s) >= 0,
    decreases s.len(),
{
    if s.len() > 0 {
        assert('0' <= s[s.len() - 1]);
        assert forall|i: int| 0 <= i < s.drop_last().len() implies '0' <= (
        #[trigger] s.drop_last()[i]) && s.drop_last()[i] <= '9' by {
            assert('0' <= s[i]);
        }
        lemma_digits(s.drop_last());
    }
}

proof fn lemma_not_negative(s: Seq<char>)
    ensures
        text::unsigned_value(s) matches Some(n) ==> n >= 0,
{
    let t = if s.len() > 0 && s[0] == '+' {
        s.skip(1)
    } else {
        s
    };
    if text::is_digits(t) {
        lemma_digits(t);
    }
}

proof fn lemma_not_coerced(v: JsonView, path: Seq<Seq<char>>, from: int, types: Seq<Seq<char>>)
    requires
        has_no_texts(v),
    ensures
        validation::coerced_at(v, path, from, types) is None,
    decreases path.len() - from,
{
    if 0 <= from < path.len() {
        match v {
            JsonView::Object(o) => {
                json::lemma_find_key(o, path[from], 0);
                match json::find_key(o, path[from], 0) {
                    Some(k) => {
                        assert(has_no_texts(o[k].1));
                        lemma_not_coerced(o[k].1, path, from + 1, types);
                    },
                    None => {},
                }
            },
            JsonView::Array(a) => match text::unsigned_value(path[from]) {
                Some(k) => {
                    lemma_not_negative(path[from]);
                    if k < a.len() {
                        assert(has_no_texts(a[k]));
                        lemma_not_coerced(a[k], path, from + 1, types);
                    }
                },
                None => {},
            },
            _ => {},
        }
    }
}

proof fn lemma_none_coerced(v: JsonView, found: Seq<IssueView>, n: int)
    requires
        has_no_texts(v),
        0 <= n <= found.len(),
    ensures
        validation::coerced_all(v, found, n) == (v, false),
    decreases n,
{
    if n > 0 {
        lemma_none_coerced(v, found, n - 1);
        match found[n - 1].expected {
            Some(types) => lemma_not_coerced(v, found[n - 1].path, 0, types),
            None => {},
        }
    }
}

/// Arguments without texts and without `null` cannot be mended: they are accepted exactly when
/// they meet the schema, and then as they are.
pub proof fn law_unfit_arguments_are_refused(
    schema: JsonView,
    call_name: Seq<char>,
    args: Entries,
)
    requires
        !has_member(args, "__parseError"@),
        has_no_nulls(JsonView::Object(args)),
        has_no_texts(JsonView::Object(args)),
    ensures
        validation::validated(schema, call_name, args) is Ok <==> meets(
            schema,
            JsonView::Object(args),
        ),
{
    let v = JsonView::Object(args);
    lemma_lookup(args, "__parseError"@);
    lemma_nothing_stripped(schema, v);
    lemma_issues(schema, v, Seq::empty());
    let found = validation::issues(schema, v, Seq::empty());
    lemma_none_coerced(v, found, found.len() as int);
}

/// What a text is taken for where another type is asked for is a value of that type, and the one
/// that the text writes out: `true` and `false`, an integer in digits, a list or an object in
/// JSON. No text is taken for anything else.
pub proof fn law_texts_stand_for_what_they_write_out(t: Seq<char>, s: Seq<char>)
    ensures
        ({
            let r = validation::coerced_to(t, s);
            &&& r matches Some(v) ==> is_of_type(v, t) && names_type(t) && !(v is String) && !(
            v is Null)
            &&& t == "boolean"@ ==> r == (if s == "true"@ {
                Some(JsonView::Bool(true))
            } else if s == "false"@ {
                Some(JsonView::Bool(false))
            } else {
                None
            })
            &&& t == "integer"@ ==> (r is Some <==> (text::signed_value(s) matches Some(n)
                && i64::MIN <= n <= i64::MAX))
            &&& t == "integer"@ && r is Some ==> match r.unwrap() {
                JsonView::Number(NumberView::PosInt(n)) => text::signed_value(s) == Some(n as int),
                JsonView::Number(NumberView::NegInt(n)) => text::signed_value(s) == Some(n as int),
                _ => false,
            }
            &&& t == "array"@ || t == "object"@ ==> (r matches Some(v) ==> json::parsed(s) == Ok::<
                JsonView,
                Seq<char>,
            >(v))
            &&& t == "array"@ ==> (json::parsed(s) matches Ok(JsonView::Array(_)) ==> r is Some)
            &&& t == "object"@ ==> (json::parsed(s) matches Ok(JsonView::Object(_)) ==> r is Some)
            &&& t == "number"@ ==> (r is Some <==> number::float_parsed(s) matches Some(Some(_)))
        }),
{
    lemma_names();
    reveal_strlit("true");
    reveal_strlit("false");
    assert("true"@.len() == 4 && "false"@.len() == 5);
}

/// An object has an equal value under the same name.
pub open spec fn has_equal(o: Entries, m: (Seq<char>, JsonView)) -> bool {
    match json::lookup(o, m.0) {
        Some(v) => json::same_value(m.1, v),
        None => false,
    }
}

/// Which values count as equal: texts, truth values, `null` and integers only when they are the
/// same, lists element by element, objects member by member under the same names. Values of
/// different kinds are never equal.
pub proof fn law_which_values_are_equal(a: JsonView, b: JsonView)
    ensures
        a is String || a is Bool || a is Null ==> (json::same_value(a, b) <==> a == b),
        b is String || b is Bool || b is Null ==> (json::same_value(a, b) <==> a == b),
        a matches JsonView::Number(x) ==> !(x is Float) ==> (json::same_value(a, b) <==> a == b),
        a is Number && a == b ==> json::same_value(a, b),
        a is Number && json::same_value(a, b) ==> b is Number,
        a is Array && json::same_value(a, b) ==> b is Array && a->Array_0.len()
            == b->Array_0.len() && forall|i: int|
            0 <= i < a->Array_0.len() ==> json::same_value(
                #[trigger] a->Array_0[i],
                b->Array_0[i],
            ),
        a is Object && json::same_value(a, b) ==> b is Object && a->Object_0.len()
            == b->Object_0.len() && forall|i: int|
            0 <= i < a->Object_0.len() ==> has_equal(b->Object_0, #[trigger] a->Object_0[i]),
{
    match (a, b) {
        (JsonView::Object(x), JsonView::Object(y)) => {
            if json::same_value(a, b) {
                assert forall|i: int| 0 <= i < x.len() implies has_equal(y, #[trigger] x[i]) by {
                    assert(json::same_member(x[i], y));
                }
            }
        },
        _ => {},
    }
}

/// Every element of a list that meets its schema meets the schema of the elements, and every
/// member of an object the schema of its property; no member that is not allowed is there.
pub proof fn law_what_meets_a_schema_meets_it_throughout(schema: JsonView, v: JsonView, i: int)
    requires
        meets(schema, v),
        schema != JsonView::Bool(true),
        schema != JsonView::Object(Seq::empty()),
    ensures
        v matches JsonView::Array(a) ==> 0 <= i < a.len() ==> (json::member(
            schema,
            "items"@,
        ) matches Some(item) ==> meets(item, a[i])),
        v matches JsonView::Object(o) ==> 0 <= i < o.len() ==> match property_schema(
            schema,
            o[i].0,
        ) {
            Some(p) => meets(p, o[i].1),
            None => json::member(schema, "additionalProperties"@) != Some(JsonView::Bool(false)),
        },
{
    match v {
        JsonView::Array(a) => match json::member(schema, "items"@) {
            Some(item) => {
                if 0 <= i < a.len() {
                    lemma_each_element(item, v, a.len() as int, i);
                }
            },
            None => {},
        },
        JsonView::Object(o) => {
            if 0 <= i < o.len() {
                lemma_each_member(schema, v, o.len() as int, i);
            }
        },
        _ => {},
    }
}

proof fn lemma_each_element(item: JsonView, v: JsonView, n: int, i: int)
    requires
        v is Array,
        0 <= i < n <= v->Array_0.len(),
        elements_meet(item, v, n),
    ensures
        meets(item, v->Array_0[i]),
    decreases n,
{
    if i < n - 1 {
        lemma_each_element(item, v, n - 1, i);
    }
}

proof fn lemma_each_member(schema: JsonView, v: JsonView, n: int, i: int)
    requires
        v is Object,
        0 <= i < n <= v->Object_0.len(),
        members_meet(schema, v, n),
    ensures
        match property_schema(schema, v->Object_0[i].0) {
            Some(p) => meets(p, v->Object_0[i].1),
            None => json::member(schema, "additionalProperties"@) != Some(JsonView::Bool(false)),
        },
    decreases n,
{
    if i < n - 1 {
        lemma_each_member(schema, v, n - 1, i);
    }
}

// ------------------------------------------------------------------ one property

/// The schema that names a type and says nothing else.
pub open spec fn of_type(t: Seq<char>) -> JsonView {
    JsonView::Object(seq![("type"@, JsonView::String(t))])
}

/// The schema of an object with one property, which it does not require.
pub open spec fn with_property(key: Seq<char>, p: JsonView) -> JsonView {
    JsonView::Object(seq![("properties"@, JsonView::Object(seq![(key, p)]))])
}

proof fn lemma_only_member(key: Seq<char>, v: JsonView, other: Seq<char>)
    ensures
        json::member(JsonView::Object(seq![(key, v)]), other) == (if other == key {
            Some(v)
        } else {
            None
        }),
        json::find_key(seq![(key, v)], other, 0) == (if other == key {
            Some(0int)
        } else {
            None
        }),
{
    json::lemma_find_key(seq![(key, v)], other, 0);
}

proof fn lemma_keywords()
    ensures
        "type"@ != "anyOf"@ && "type"@ != "oneOf"@ && "type"@ != "const"@ && "type"@ != "enum"@
            && "type"@ != "required"@ && "type"@ != "properties"@ && "type"@ != "items"@,
        "type"@ != "minLength"@ && "type"@ != "maxLength"@ && "type"@ != "minimum"@ && "type"@
            != "maximum"@,
        "properties"@ != "anyOf"@ && "properties"@ != "oneOf"@ && "properties"@ != "const"@
            && "properties"@ != "enum"@ && "properties"@ != "required"@ && "properties"@
            != "items"@ && "properties"@ != "additionalProperties"@,
{
    reveal_strlit("type");
    reveal_strlit("anyOf");
    reveal_strlit("oneOf");
    reveal_strlit("const");
    reveal_strlit("enum");
    reveal_strlit("required");
    reveal_strlit("properties");
    reveal_strlit("items");
    reveal_strlit("minLength");
    reveal_strlit("maxLength");
    reveal_strlit("minimum");
    reveal_strlit("maximum");
    reveal_strlit("additionalProperties");
    assert("type"@[0] == 't' && "enum"@[0] == 'e');
    assert("properties"@.len() == 10 && "anyOf"@.len() == 5 && "oneOf"@.len() == 5);
    assert("const"@.len() == 5 && "enum"@.len() == 4 && "required"@.len() == 8);
    assert("items"@.len() == 5 && "additionalProperties"@.len() == 20);
}

proof fn lemma_of_type(t: Seq<char>)
    ensures
        json::member(of_type(t), "type"@) == Some(JsonView::String(t)),
        forall|key: Seq<char>|
            key != "type"@ ==> (#[trigger] json::member(of_type(t), key)) is None,
        validation::types_of(of_type(t)) == seq![t],
        forall|v: JsonView| #[trigger]
            validation::stripped(of_type(t), v) == (v, false),
        t != "null"@ ==> !validation::accepts_null(of_type(t)),
{
    lemma_keywords();
    let schema = of_type(t);
    lemma_only_member("type"@, JsonView::String(t), "type"@);
    assert forall|key: Seq<char>| key != "type"@ implies (#[trigger] json::member(
        schema,
        key,
    )) is None by {
        lemma_only_member("type"@, JsonView::String(t), key);
    }
    assert(json::member(schema, "properties"@) is None);
    assert(json::member(schema, "anyOf"@) is None);
    assert(json::member(schema, "oneOf"@) is None);
}

proof fn lemma_with_property(key: Seq<char>, p: JsonView)
    ensures
        ({
            let schema = with_property(key, p);
            &&& schema != JsonView::Object(Seq::empty())
            &&& validation::property_of(schema, key) == Some(p)
            &&& property_schema(schema, key) == Some(p)
            &&& json::member(schema, "properties"@) == Some(JsonView::Object(seq![(key, p)]))
            &&& validation::types_of(schema).len() == 0
            &&& validation::required_of(schema).len() == 0
            &&& json::member(schema, "type"@) is None
            &&& json::member(schema, "anyOf"@) is None
            &&& json::member(schema, "oneOf"@) is None
            &&& json::member(schema, "const"@) is None
            &&& json::member(schema, "enum"@) is None
            &&& json::member(schema, "required"@) is None
        }),
{
    lemma_keywords();
    let props = JsonView::Object(seq![(key, p)]);
    lemma_only_member(key, p, key);
    lemma_only_member("properties"@, props, "properties"@);
    lemma_only_member("properties"@, props, "type"@);
    lemma_only_member("properties"@, props, "anyOf"@);
    lemma_only_member("properties"@, props, "oneOf"@);
    lemma_only_member("properties"@, props, "const"@);
    lemma_only_member("properties"@, props, "enum"@);
    lemma_only_member("properties"@, props, "required"@);
    assert(seq![("properties"@, props)].len() == 1);
}

proof fn lemma_one_key_stripped(key: Seq<char>, t: Seq<char>, v: JsonView)
    ensures
        ({
            let schema = with_property(key, of_type(t));
            let args = JsonView::Object(seq![(key, v)]);
            &&& v is Null && t != "null"@ ==> validation::stripped(schema, args) == (
                JsonView::Object(Seq::empty()),
                true,
            )
            &&& !(v is Null) && v != JsonView::String("null"@) ==> validation::stripped(
                schema,
                args,
            ) == (args, false)
        }),
{
    let schema = with_property(key, of_type(t));
    let o = seq![(key, v)];
    lemma_of_type(t);
    lemma_with_property(key, of_type(t));
    lemma_only_member(key, v, key);
    let keys = validation::keys_of(o);
    assert(keys.len() == 1 && keys[0] == key);
    reveal_with_fuel(validation::stripped_keys, 3);
    assert(o.update(0, (key, v)) =~= o);
    assert(o.drop_last() =~= Seq::empty());
    assert(validation::stripped_keys(schema, o, keys, 0) == (o, false));
    assert(json::lookup(o, key) == Some(v));
    assert(!validation::required_of(schema).contains(key));
    let p = of_type(t);
    if v is Null && t != "null"@ {
        assert(validation::is_placeholder(v, p));
        assert(json::without_member(o, key) =~= Seq::empty());
        assert(validation::stripped_keys(schema, o, keys, 1) == (
            Seq::<(Seq<char>, JsonView)>::empty(),
            true,
        ));
    } else if !(v is Null) && v != JsonView::String("null"@) {
        assert(!validation::is_placeholder(v, p));
        assert(json::with_member(o, key, v) =~= o);
        assert(validation::stripped(p, v) == (v, false));
        assert(validation::stripped_keys(schema, o, keys, 1) == (o, false));
    }
}

/// An optional property that is handed over as `null`, and does not take `null`, is left out.
pub proof fn law_null_means_left_out(key: Seq<char>, t: Seq<char>, call_name: Seq<char>)
    requires
        key != "__parseError"@,
        t != "null"@,
    ensures
        validation::validated(
            with_property(key, of_type(t)),
            call_name,
            seq![(key, JsonView::Null)],
        ) == Ok::<Entries, Seq<char>>(Seq::empty()),
{
    let schema = with_property(key, of_type(t));
    let none = JsonView::Object(Seq::<(Seq<char>, JsonView)>::empty());
    lemma_one_key_stripped(key, t, JsonView::Null);
    lemma_with_property(key, of_type(t));
    lemma_only_member(key, JsonView::Null, "__parseError"@);
    assert(meets(schema, none));
    lemma_issues(schema, none, Seq::empty());
}

proof fn lemma_one_issue(key: Seq<char>, t: Seq<char>, s: Seq<char>)
    requires
        names_type(t),
        t != "string"@,
    ensures
        ({
            let found = validation::issues(
                with_property(key, of_type(t)),
                JsonView::Object(seq![(key, JsonView::String(s))]),
                Seq::empty(),
            );
            found.len() == 1 && found[0].path == seq![key] && found[0].expected == Some(seq![t])
        }),
{
    lemma_names();
    let v = JsonView::String(s);
    let p = of_type(t);
    let schema = with_property(key, p);
    let o = seq![(key, v)];
    let args = JsonView::Object(o);
    let root = Seq::<Seq<char>>::empty();
    lemma_of_type(t);
    lemma_keywords();
    lemma_with_property(key, p);
    lemma_has_type(t, v);
    assert(p != JsonView::Object(Seq::empty()));
    assert(seq![t][0] == t);
    assert(!validation::has_some_type(seq![t], v));
    let one = validation::issues(p, v, root.push(key));
    assert(one.len() == 1 && one[0].expected == Some(seq![t]) && one[0].path == root.push(key));
    assert(root.push(key) =~= seq![key]);
    assert(validation::members_issues(schema, args, root, 0) =~= Seq::empty());
    assert(o[0] == (key, v));
    assert(validation::member_issues(schema, key, v, root) == one);
    assert(validation::members_issues(schema, args, root, 1) =~= one);
    assert(validation::missing(validation::required_of(schema), o, root, 0) =~= Seq::empty());
    assert(validation::shape_issues(schema, args, root) =~= one);
    assert(validation::const_issues(schema, args, root) =~= Seq::empty());
    assert(validation::enum_issues(schema, args, root) =~= Seq::empty());
    assert(validation::issues(schema, args, root) =~= one);
}

/// A text that is handed over where another type is asked for is taken for the value that it
/// stands for, where there is one; else the call is refused.
pub proof fn law_texts_are_taken_for_what_is_asked(
    key: Seq<char>,
    t: Seq<char>,
    s: Seq<char>,
    call_name: Seq<char>,
)
    requires
        key != "__parseError"@,
        names_type(t),
        t != "string"@,
        s != "null"@,
    ensures
        ({
            let r = validation::validated(
                with_property(key, of_type(t)),
                call_name,
                seq![(key, JsonView::String(s))],
            );
            match validation::coerced_to(t, text::trim(Space::Unicode, s)) {
                Some(v) => r == Ok::<Entries, Seq<char>>(seq![(key, v)]),
                None => r is Err,
            }
        }),
{
    lemma_names();
    let v = JsonView::String(s);
    let schema = with_property(key, of_type(t));
    let o = seq![(key, v)];
    let args = JsonView::Object(o);
    let root = Seq::<Seq<char>>::empty();
    let found = validation::issues(schema, args, root);
    let trimmed = text::trim(Space::Unicode, s);
    lemma_one_key_stripped(key, t, v);
    lemma_only_member(key, v, "__parseError"@);
    lemma_only_member(key, v, key);
    lemma_one_issue(key, t, s);
    let path = seq![key];
    assert(found[0].path == path && path[0] == key);
    reveal_with_fuel(validation::coerced_at, 3);
    reveal_with_fuel(validation::coerced_all, 3);
    reveal_with_fuel(validation::coerced_to_some, 3);
    assert(seq![t][0] == t && seq![t].len() == 1);
    assert(validation::coerced_at(v, path, 1, seq![t]) == validation::coerced_to(t, trimmed));
    match validation::coerced_to(t, trimmed) {
        Some(w) => {
            law_texts_stand_for_what_they_write_out(t, trimmed);
            let n = seq![(key, w)];
            let out = JsonView::Object(n);
            assert(o.update(0, (key, w)) =~= n);
            assert(validation::coerced_at(args, path, 0, seq![t]) == Some(out));
            assert(validation::coerced_all(args, found, 1) == (out, true));
            lemma_one_key_stripped(key, t, w);
            lemma_of_type(t);
            lemma_keywords();
            lemma_with_property(key, of_type(t));
            assert(of_type(t) != JsonView::Object(Seq::empty()));
            assert(meets_type(of_type(t), w));
            assert(n[0] == (key, w));
            assert(meets(of_type(t), w)) by {
                lemma_plain_meets(t, w);
            }
            assert(members_meet(schema, out, 0));
            assert(members_meet(schema, out, 1));
            assert(meets(schema, out));
            lemma_issues(schema, out, root);
            assert(validation::settled(schema, out, true, 1) == (out, true));
            assert(validation::settled(schema, args, false, 0) == (out, true));
        },
        None => {
            assert(validation::coerced_at(args, path, 0, seq![t]) is None);
            assert(validation::coerced_all(args, found, 1) == (args, false));
            assert(validation::settled(schema, args, false, 0).0 == args);
        },
    }
}

proof fn lemma_plain_meets(t: Seq<char>, v: JsonView)
    requires
        is_of_type(v, t),
    ensures
        meets(of_type(t), v),
{
    lemma_of_type(t);
    lemma_keywords();
    let schema = of_type(t);
    assert(json::member(schema, "anyOf"@) is None);
    assert(json::member(schema, "oneOf"@) is None);
    assert(json::member(schema, "const"@) is None);
    assert(json::member(schema, "enum"@) is None);
    assert(json::member(schema, "required"@) is None);
    assert(json::member(schema, "items"@) is None);
    assert(json::member(schema, "properties"@) is None);
    assert(json::member(schema, "minLength"@) is None);
    assert(json::member(schema, "maxLength"@) is None);
    assert(json::member(schema, "minimum"@) is None);
    assert(json::member(schema, "maximum"@) is None);
    match v {
        JsonView::Object(o) => lemma_free_members(t, v, o.len() as int),
        _ => {},
    }
}

proof fn lemma_free_members(t: Seq<char>, v: JsonView, n: int)
    ensures
        v is Object ==> members_meet(of_type(t), v, n),
    decreases n,
{
    lemma_of_type(t);
    reveal_strlit("type");
    reveal_strlit("properties");
    reveal_strlit("additionalProperties");
    assert("type"@.len() == 4 && "properties"@.len() == 10 && "additionalProperties"@.len() == 20);
    assert(json::member(of_type(t), "properties"@) is None);
    assert(json::member(of_type(t), "additionalProperties"@) is None);
    if n > 0 {
        lemma_free_members(t, v, n - 1);
    }
}

// ------------------------------------------------------------------ what refusals say

/// A number out of its range is told the bound that it breaks.
pub proof fn law_what_is_said_of_numbers_out_of_range(
    schema: JsonView,
    n: NumberView,
    bound: NumberView,
    path: Seq<Seq<char>>,
)
    ensures
        json::member(schema, "minimum"@) == Some(JsonView::Number(bound))
            && validation::number_of(Some(JsonView::Number(bound))) == Some(bound)
            && number::float_less(n, bound) ==> ({
            let said = validation::range_issues(schema, n, path);
            said.len() > 0 && said[0].path == path && said[0].message == "must be >= "@
                + number::float_display(bound)
        }),
        json::member(schema, "maximum"@) == Some(JsonView::Number(bound))
            && validation::number_of(Some(JsonView::Number(bound))) == Some(bound)
            && number::float_less(bound, n) ==> ({
            let said = validation::range_issues(schema, n, path);
            said.len() > 0 && said.last().path == path && said.last().message == "must be <= "@
                + number::float_display(bound)
        }),
{
}

/// A value that fits no alternative, or too many of them, is told which list it breaks and the types
/// that the list names, in its order.
pub proof fn law_what_is_said_of_alternatives(
    schema: JsonView,
    branches: Seq<JsonView>,
    last: JsonView,
    value: JsonView,
    path: Seq<Seq<char>>,
)
    ensures
        validation::types_of_all(branches.push(last)) == validation::types_of_all(branches)
            + validation::types_of(last),
        validation::types_of_all(Seq::empty()).len() == 0,
        json::member(schema, "anyOf"@) == Some(JsonView::Array(branches)) ==> (
        validation::union_issue(schema, "anyOf"@, value, path) matches Some(said) ==> said.path
            == path && said.message == "must match at least one schema in anyOf"@ && said.expected
            == Some(validation::types_of_all(branches))),
        json::member(schema, "oneOf"@) == Some(JsonView::Array(branches)) ==> (
        validation::union_issue(schema, "oneOf"@, value, path) matches Some(said) ==> said.path
            == path && said.message == "must match exactly one schema in oneOf"@ && said.expected
            == Some(validation::types_of_all(branches))),
{
    assert(branches.push(last).drop_last() =~= branches);
    reveal_strlit("must match ");
    reveal_strlit("at least one");
    reveal_strlit("exactly one");
    reveal_strlit(" schema in ");
    reveal_strlit("anyOf");
    reveal_strlit("oneOf");
    reveal_strlit("must match at least one schema in anyOf");
    reveal_strlit("must match exactly one schema in oneOf");
    assert("anyOf"@[0] != "oneOf"@[0]);
    assert("must match "@ + "at least one"@ + " schema in "@ + "anyOf"@
        =~= "must match at least one schema in anyOf"@);
    assert("must match "@ + "exactly one"@ + " schema in "@ + "oneOf"@
        =~= "must match exactly one schema in oneOf"@);
}

/// A text that is too long to show is cut, and it is told how much of it is left out.
pub proof fn law_long_texts_are_cut(shown: Seq<char>, rest: Seq<char>)
    ensures
        validation::clipped(shown + rest, shown.len() as int) == if rest.len() == 0 {
            shown
        } else {
            shown + "… [truncated "@ + text::decimal(rest.len()) + " chars]"@
        },
{
    assert((shown + rest).take(shown.len() as int) =~= shown);
    if rest.len() == 0 {
        assert(shown + rest =~= shown);
    }
}

/// Arguments that are not JSON are refused with what is wrong with them, and shown as far as they
/// are short.
pub proof fn law_what_is_said_of_arguments_that_cannot_be_read(
    name: Seq<char>,
    e: Seq<char>,
    raw: Seq<char>,
)
    ensures
        ({
            let said = validation::unparsed_refusal(name, JsonView::String(e), raw);
            let head = validation::refusal(name)
                + " Tool call arguments are not valid JSON.\nParse Error: "@ + e
                + "\nRaw JSON:\n"@;
            &&& raw.len() <= 512 ==> said == head + raw
            &&& raw.len() > 512 ==> said == head + (raw.take(512) + "… [truncated "@
                + text::decimal((raw.len() - 512) as nat) + " chars]"@)
        }),
{
}

} // verus!
