//! Validation and normalization of tool arguments against a JSON Schema.
//!
//! The schema validator covers `type`, `properties`, `required`, `additionalProperties`,
//! `enum`, `const`, `items`, `minimum` and `maximum`, `minLength` and `maxLength`, `anyOf` and
//! `oneOf`. Placeholders for optional properties are stripped, and texts are coerced to the
//! type that an issue asks for, before arguments are refused.
use crate::json;
use crate::json::{
    as_text, as_uint, json_kind, values_equal, Entries, Json, JsonObject, JsonView, Number,
    NumberView,
};
use crate::number;
use crate::text;
use crate::text::{clone_strings, contains_text, join_strings, same_text, Space};
use crate::types::Tool;
use vstd::prelude::*;

verus! {

/// How often values are coerced before the arguments are refused.
pub const MAX_COERCION_PASSES: usize = 3;

/// How much of a text that is no JSON is shown.
pub const RAW_JSON_PREVIEW: usize = 512;

/// How much of a text argument is shown.
pub const ARG_STRING_PREVIEW: usize = 2000;

/// One way in which a value does not meet its schema.
pub struct Issue {
    /// Where: the names and indices from the root on.
    pub path: Vec<String>,
    pub message: String,
    /// The types that would be accepted, where the issue is about the type.
    pub expected: Option<Vec<String>>,
}

/// What an [`Issue`] stands for.
#[verifier::ext_equal]
pub struct IssueView {
    pub path: Seq<Seq<char>>,
    pub message: Seq<char>,
    pub expected: Option<Seq<Seq<char>>>,
}

impl View for Issue {
    type V = IssueView;

    open spec fn view(&self) -> IssueView {
        IssueView {
            path: text::views(self.path@),
            message: self.message@,
            expected: match self.expected {
                Some(e) => Some(text::views(e@)),
                None => None,
            },
        }
    }
}

// ------------------------------------------------------------------ reading a schema

/// The texts of an array.
pub open spec fn strings_in(a: Seq<JsonView>) -> Seq<Seq<char>>
    decreases a.len(),
{
    if a.len() == 0 {
        Seq::empty()
    } else {
        let rest = strings_in(a.drop_last());
        match a.last() {
            JsonView::String(s) => rest.push(s),
            _ => rest,
        }
    }
}

/// The types that a schema names.
pub open spec fn types_of(schema: JsonView) -> Seq<Seq<char>> {
    match json::member(schema, "type"@) {
        Some(JsonView::String(t)) => seq![t],
        Some(JsonView::Array(ts)) => strings_in(ts),
        _ => Seq::empty(),
    }
}

/// The types that the schemas name, one after the other.
pub open spec fn types_of_all(schemas: Seq<JsonView>) -> Seq<Seq<char>>
    decreases schemas.len(),
{
    if schemas.len() == 0 {
        Seq::empty()
    } else {
        types_of_all(schemas.drop_last()) + types_of(schemas.last())
    }
}

/// The properties that a schema requires.
pub open spec fn required_of(schema: JsonView) -> Seq<Seq<char>> {
    match json::member(schema, "required"@) {
        Some(JsonView::Array(r)) => strings_in(r),
        _ => Seq::empty(),
    }
}

/// Whether a value is of the named type. A type without a known name is that of every value.
pub open spec fn has_type(t: Seq<char>, value: JsonView) -> bool {
    if t == "object"@ {
        value is Object
    } else if t == "array"@ {
        value is Array
    } else if t == "string"@ {
        value is String
    } else if t == "boolean"@ {
        value is Bool
    } else if t == "null"@ {
        value is Null
    } else if t == "number"@ {
        value is Number
    } else if t == "integer"@ {
        match value {
            JsonView::Number(NumberView::Float(s)) => number::is_whole(s),
            JsonView::Number(_) => true,
            _ => false,
        }
    } else {
        true
    }
}

/// Whether a value is of one of the named types.
pub open spec fn has_some_type(types: Seq<Seq<char>>, value: JsonView) -> bool {
    exists|i: int| 0 <= i < types.len() && has_type(#[trigger] types[i], value)
}

/// Whether a schema accepts `null`, itself or by one of its alternatives.
pub open spec fn accepts_null(schema: JsonView) -> bool
    decreases schema, 1nat, 0int,
{
    types_of(schema).contains("null"@) || some_accepts_null(
        schema,
        "anyOf"@,
        alternatives(schema, "anyOf"@),
    ) || some_accepts_null(schema, "oneOf"@, alternatives(schema, "oneOf"@))
}

/// Whether one of the first `n` alternatives under `key` accepts `null`.
pub open spec fn some_accepts_null(schema: JsonView, key: Seq<char>, n: int) -> bool
    decreases schema, 0nat, n,
{
    match json::member(schema, key) {
        Some(JsonView::Array(branches)) => {
            if n <= 0 || n > branches.len() {
                false
            } else {
                proof {
                    json::lemma_member_smaller(schema, key);
                }
                some_accepts_null(schema, key, n - 1) || accepts_null(branches[n - 1])
            }
        },
        _ => false,
    }
}

/// How many alternatives stand under `key`.
pub open spec fn alternatives(schema: JsonView, key: Seq<char>) -> int {
    match json::member(schema, key) {
        Some(JsonView::Array(branches)) => branches.len() as int,
        _ => 0,
    }
}

// ------------------------------------------------------------------ issues

/// The message of an issue about alternatives.
pub open spec fn union_message(key: Seq<char>) -> Seq<char> {
    "must match "@ + (if key == "anyOf"@ {
        "at least one"@
    } else {
        "exactly one"@
    }) + " schema in "@ + key
}

/// How many of the first `n` alternatives under `key` a value meets.
pub open spec fn matched(
    schema: JsonView,
    key: Seq<char>,
    value: JsonView,
    path: Seq<Seq<char>>,
    n: int,
) -> int
    decreases value, schema, 0nat, n,
{
    match json::member(schema, key) {
        Some(JsonView::Array(branches)) => {
            if n <= 0 || n > branches.len() {
                0
            } else {
                proof {
                    json::lemma_member_smaller(schema, key);
                }
                matched(schema, key, value, path, n - 1) + (if issues(
                    branches[n - 1],
                    value,
                    path,
                ).len() == 0 {
                    1int
                } else {
                    0int
                })
            }
        },
        _ => 0,
    }
}

/// The issue of a value with the alternatives under `key`.
pub open spec fn union_issue(
    schema: JsonView,
    key: Seq<char>,
    value: JsonView,
    path: Seq<Seq<char>>,
) -> Option<IssueView>
    decreases value, schema, 1nat, 0int,
{
    match json::member(schema, key) {
        Some(JsonView::Array(branches)) => {
            let n = matched(schema, key, value, path, branches.len() as int);
            if (key == "anyOf"@ && n >= 1) || (key != "anyOf"@ && n == 1) {
                None
            } else {
                Some(
                    IssueView {
                        path,
                        message: union_message(key),
                        expected: Some(types_of_all(branches)),
                    },
                )
            }
        },
        _ => None,
    }
}

/// The issue of a value that is not the constant of its schema.
pub open spec fn const_issues(schema: JsonView, value: JsonView, path: Seq<Seq<char>>) -> Seq<
    IssueView,
> {
    match json::member(schema, "const"@) {
        Some(expected) => if json::same_value(expected, value) {
            Seq::empty()
        } else {
            seq![
                IssueView {
                    path,
                    message: "must be "@ + json::compact(expected),
                    expected: None,
                },
            ]
        },
        None => Seq::empty(),
    }
}

/// The compact texts of values.
pub open spec fn rendered(options: Seq<JsonView>) -> Seq<Seq<char>> {
    options.map_values(|v: JsonView| json::compact(v))
}

/// Whether a list holds an equal value.
pub open spec fn holds_value(options: Seq<JsonView>, value: JsonView) -> bool {
    exists|i: int| 0 <= i < options.len() && json::same_value(#[trigger] options[i], value)
}

/// The issue of a value that is none of the options of its schema.
pub open spec fn enum_issues(schema: JsonView, value: JsonView, path: Seq<Seq<char>>) -> Seq<
    IssueView,
> {
    match json::member(schema, "enum"@) {
        Some(JsonView::Array(options)) => if holds_value(options, value) {
            Seq::empty()
        } else {
            seq![
                IssueView {
                    path,
                    message: "must be one of "@ + text::join(rendered(options), ", "@),
                    expected: None,
                },
            ]
        },
        _ => Seq::empty(),
    }
}

/// The issues of the first `n` required properties: one for each that is missing.
pub open spec fn missing(
    required: Seq<Seq<char>>,
    map: Entries,
    path: Seq<Seq<char>>,
    n: int,
) -> Seq<IssueView>
    decreases n,
{
    if n <= 0 {
        Seq::empty()
    } else {
        let rest = missing(required, map, path, n - 1);
        if json::lookup(map, required[n - 1]) is Some {
            rest
        } else {
            rest.push(
                IssueView {
                    path: path.push(required[n - 1]),
                    message: "is required"@,
                    expected: None,
                },
            )
        }
    }
}

/// The schema of the property `name`.
pub open spec fn property_of(schema: JsonView, name: Seq<char>) -> Option<JsonView> {
    match json::member(schema, "properties"@) {
        Some(props) => json::member(props, name),
        None => None,
    }
}

/// The issues of one member of an object: by the schema of its property, else by what the
/// schema says of additional properties.
pub open spec fn member_issues(
    schema: JsonView,
    name: Seq<char>,
    child: JsonView,
    path: Seq<Seq<char>>,
) -> Seq<IssueView>
    decreases child, schema, 0nat, 0int,
{
    proof {
        lemma_property_smaller(schema, name);
        json::lemma_member_smaller(schema, "additionalProperties"@);
    }
    match property_of(schema, name) {
        Some(child_schema) => issues(child_schema, child, path.push(name)),
        None => match json::member(schema, "additionalProperties"@) {
            Some(extra) => match extra {
                JsonView::Bool(false) => seq![
                    IssueView {
                        path: path.push(name),
                        message: "is not an allowed property"@,
                        expected: None,
                    },
                ],
                JsonView::Object(_) => issues(extra, child, path.push(name)),
                _ => Seq::empty(),
            },
            None => Seq::empty(),
        },
    }
}

/// The schema of a property is smaller than its schema.
pub proof fn lemma_property_smaller(schema: JsonView, name: Seq<char>)
    ensures
        match property_of(schema, name) {
            Some(p) => decreases_to!(schema => p),
            None => true,
        },
{
    json::lemma_member_smaller(schema, "properties"@);
    match json::member(schema, "properties"@) {
        Some(props) => json::lemma_member_smaller(props, name),
        None => {},
    }
}

/// The issues of the first `n` members of an object.
pub open spec fn members_issues(
    schema: JsonView,
    value: JsonView,
    path: Seq<Seq<char>>,
    n: int,
) -> Seq<IssueView>
    decreases value, schema, 0nat, n,
{
    match value {
        JsonView::Object(map) => if n <= 0 || n > map.len() {
            Seq::empty()
        } else {
            proof {
                assert(decreases_to!(value => value->Object_0));
                assert(decreases_to!(map => map[n - 1]));
                assert(decreases_to!(map[n - 1] => map[n - 1].1));
            }
            members_issues(schema, value, path, n - 1) + member_issues(
                schema,
                map[n - 1].0,
                map[n - 1].1,
                path,
            )
        },
        _ => Seq::empty(),
    }
}

/// The issues of the first `n` elements of an array.
pub open spec fn items_issues(
    item_schema: JsonView,
    value: JsonView,
    path: Seq<Seq<char>>,
    n: int,
) -> Seq<IssueView>
    decreases value, item_schema, 0nat, n,
{
    match value {
        JsonView::Array(items) => if n <= 0 || n > items.len() {
            Seq::empty()
        } else {
            items_issues(item_schema, value, path, n - 1) + issues(
                item_schema,
                items[n - 1],
                path.push(text::decimal((n - 1) as nat)),
            )
        },
        _ => Seq::empty(),
    }
}

/// One issue without expected types.
pub open spec fn plain_issue(path: Seq<Seq<char>>, message: Seq<char>) -> IssueView {
    IssueView { path, message, expected: None }
}

/// The issues of a text with the bounds on its length.
pub open spec fn length_issues(schema: JsonView, s: Seq<char>, path: Seq<Seq<char>>) -> Seq<
    IssueView,
> {
    let short = match json::uint_of(json::member(schema, "minLength"@)) {
        Some(min) => if s.len() < min {
            seq![
                plain_issue(
                    path,
                    "must have at least "@ + text::decimal(min as nat) + " characters"@,
                ),
            ]
        } else {
            Seq::empty()
        },
        None => Seq::empty(),
    };
    let long = match json::uint_of(json::member(schema, "maxLength"@)) {
        Some(max) => if s.len() > max {
            seq![
                plain_issue(
                    path,
                    "must have at most "@ + text::decimal(max as nat) + " characters"@,
                ),
            ]
        } else {
            Seq::empty()
        },
        None => Seq::empty(),
    };
    short + long
}

/// The number of a member.
pub open spec fn number_of(v: Option<JsonView>) -> Option<NumberView> {
    match v {
        Some(JsonView::Number(n)) => Some(n),
        _ => None,
    }
}

/// The issues of a number with its bounds.
pub open spec fn range_issues(schema: JsonView, n: NumberView, path: Seq<Seq<char>>) -> Seq<
    IssueView,
> {
    let low = match number_of(json::member(schema, "minimum"@)) {
        Some(min) => if number::float_less(n, min) {
            seq![plain_issue(path, "must be >= "@ + number::float_display(min))]
        } else {
            Seq::empty()
        },
        None => Seq::empty(),
    };
    let high = match number_of(json::member(schema, "maximum"@)) {
        Some(max) => if number::float_less(max, n) {
            seq![plain_issue(path, "must be <= "@ + number::float_display(max))]
        } else {
            Seq::empty()
        },
        None => Seq::empty(),
    };
    low + high
}

/// The issues that depend on what kind of value it is.
pub open spec fn shape_issues(schema: JsonView, value: JsonView, path: Seq<Seq<char>>) -> Seq<
    IssueView,
>
    decreases value, schema, 1nat, 0int,
{
    match value {
        JsonView::Object(map) => missing(
            required_of(schema),
            map,
            path,
            required_of(schema).len() as int,
        ) + members_issues(schema, value, path, map.len() as int),
        JsonView::Array(items) => match json::member(schema, "items"@) {
            Some(item_schema) => {
                proof {
                    json::lemma_member_smaller(schema, "items"@);
                }
                items_issues(item_schema, value, path, items.len() as int)
            },
            None => Seq::empty(),
        },
        JsonView::String(s) => length_issues(schema, s, path),
        JsonView::Number(n) => range_issues(schema, n, path),
        _ => Seq::empty(),
    }
}

/// The ways in which a value does not meet a schema. A failed alternative or a wrong type
/// hides everything else.
pub open spec fn issues(schema: JsonView, value: JsonView, path: Seq<Seq<char>>) -> Seq<IssueView>
    decreases value, schema, 2nat, 0int,
{
    let types = types_of(schema);
    if schema == JsonView::Bool(true) || schema == JsonView::Object(Seq::empty()) {
        Seq::empty()
    } else if union_issue(schema, "anyOf"@, value, path) is Some {
        seq![union_issue(schema, "anyOf"@, value, path).unwrap()]
    } else if union_issue(schema, "oneOf"@, value, path) is Some {
        seq![union_issue(schema, "oneOf"@, value, path).unwrap()]
    } else if types.len() > 0 && !has_some_type(types, value) {
        seq![
            IssueView {
                path,
                message: "must be "@ + text::join(types, " | "@) + " (was "@ + json::kind_name(
                    value,
                ) + ")"@,
                expected: Some(types),
            },
        ]
    } else {
        const_issues(schema, value, path) + enum_issues(schema, value, path) + shape_issues(
            schema,
            value,
            path,
        )
    }
}

// ------------------------------------------------------------------ running the validator

fn string_items(a: &Vec<Json>) -> (r: Vec<String>)
    ensures
        text::views(r@) == strings_in(text::views(a@)),
{
    let mut out: Vec<String> = Vec::new();
    let ghost all = text::views(a@);
    assert(text::views(out@) =~= strings_in(all.take(0)));
    let mut i: usize = 0;
    while i < a.len()
        invariant
            i <= a@.len(),
            all == text::views(a@),
            text::views(out@) == strings_in(all.take(i as int)),
        decreases a@.len() - i,
    {
        assert(all.take(i as int + 1).drop_last() =~= all.take(i as int));
        match &a[i] {
            Json::String(s) => {
                let c = s.clone();
                proof {
                    text::lemma_views_push(out@, c);
                }
                out.push(c);
            },
            _ => {},
        }
        i += 1;
    }
    assert(all.take(a@.len() as int) =~= all);
    out
}

fn schema_types(schema: &Json) -> (r: Vec<String>)
    ensures
        text::views(r@) == types_of(schema@),
{
    match schema.get("type") {
        Some(Json::String(t)) => {
            let mut out: Vec<String> = Vec::new();
            out.push(t.clone());
            assert(text::views(out@) =~= seq![t@]);
            out
        },
        Some(Json::Array(ts)) => {
            proof {
                json::lemma_values_view(*ts);
            }
            string_items(ts)
        },
        _ => {
            let out: Vec<String> = Vec::new();
            assert(text::views(out@) =~= Seq::empty());
            out
        },
    }
}

fn branch_types(branches: &Vec<Json>) -> (r: Vec<String>)
    ensures
        text::views(r@) == types_of_all(text::views(branches@)),
{
    let mut out: Vec<String> = Vec::new();
    let ghost all = text::views(branches@);
    assert(text::views(out@) =~= types_of_all(all.take(0)));
    let mut i: usize = 0;
    while i < branches.len()
        invariant
            i <= branches@.len(),
            all == text::views(branches@),
            text::views(out@) == types_of_all(all.take(i as int)),
        decreases branches@.len() - i,
    {
        assert(all.take(i as int + 1).drop_last() =~= all.take(i as int));
        let mut more = schema_types(&branches[i]);
        let ghost (a, b) = (out@, more@);
        out.append(&mut more);
        assert(text::views(out@) =~= text::views(a) + text::views(b));
        i += 1;
    }
    assert(all.take(branches@.len() as int) =~= all);
    out
}

fn required_properties(schema: &Json) -> (r: Vec<String>)
    ensures
        text::views(r@) == required_of(schema@),
{
    match schema.get("required") {
        Some(Json::Array(r)) => {
            proof {
                json::lemma_values_view(*r);
            }
            string_items(r)
        },
        _ => {
            let out: Vec<String> = Vec::new();
            assert(text::views(out@) =~= Seq::empty());
            out
        },
    }
}

fn type_matches(t: &str, value: &Json) -> (r: bool)
    ensures
        r == has_type(t@, value@),
{
    if same_text(t, "object") {
        matches!(value, Json::Object(_))
    } else if same_text(t, "array") {
        matches!(value, Json::Array(_))
    } else if same_text(t, "string") {
        matches!(value, Json::String(_))
    } else if same_text(t, "boolean") {
        matches!(value, Json::Bool(_))
    } else if same_text(t, "null") {
        matches!(value, Json::Null)
    } else if same_text(t, "number") {
        matches!(value, Json::Number(_))
    } else if same_text(t, "integer") {
        match value {
            Json::Number(Number::Float(s)) => number::is_whole_text(s.as_str()),
            Json::Number(_) => true,
            _ => false,
        }
    } else {
        true
    }
}

fn some_type_matches(types: &Vec<String>, value: &Json) -> (r: bool)
    ensures
        r == has_some_type(text::views(types@), value@),
{
    let mut i: usize = 0;
    while i < types.len()
        invariant
            i <= types@.len(),
            forall|j: int| 0 <= j < i ==> !has_type(#[trigger] text::views(types@)[j], value@),
        decreases types@.len() - i,
    {
        if type_matches(types[i].as_str(), value) {
            assert(has_type(text::views(types@)[i as int], value@));
            return true;
        }
        i += 1;
    }
    false
}

fn allows_null(schema: &Json) -> (r: bool)
    ensures
        r == accepts_null(schema@),
    decreases schema, 1nat,
{
    let types = schema_types(schema);
    contains_text(&types, "null") || branch_allows_null(schema, "anyOf") || branch_allows_null(
        schema,
        "oneOf",
    )
}

fn branch_allows_null(schema: &Json, key: &str) -> (r: bool)
    ensures
        r == some_accepts_null(schema@, key@, alternatives(schema@, key@)),
    decreases schema, 0nat,
{
    match schema.get(key) {
        Some(Json::Array(branches)) => {
            let ghost whole = Json::Array(*branches);
            proof {
                json::lemma_values_view(*branches);
            }
            let mut found = false;
            let mut i: usize = 0;
            while i < branches.len()
                invariant
                    i <= branches@.len(),
                    whole == Json::Array(*branches),
                    decreases_to!(*schema => whole),
                    json::member(schema@, key@) == Some(JsonView::Array(text::views(branches@))),
                    found == some_accepts_null(schema@, key@, i as int),
                decreases branches@.len() - i,
            {
                proof {
                    assert(decreases_to!(whole => whole->Array_0));
                    assert(decreases_to!(branches@ => branches@[i as int]));
                    assert(text::views(branches@)[i as int] == branches@[i as int]@);
                }
                if allows_null(&branches[i]) {
                    found = true;
                }
                i += 1;
            }
            found
        },
        _ => false,
    }
}

fn child_path(path: &Vec<String>, name: &str) -> (r: Vec<String>)
    ensures
        text::views(r@) == text::views(path@).push(name@),
{
    let mut out = clone_strings(path);
    let last = name.to_owned();
    proof {
        text::lemma_views_push(out@, last);
    }
    out.push(last);
    out
}

fn issue(path: &Vec<String>, message: String) -> (r: Issue)
    ensures
        r@ == plain_issue(text::views(path@), message@),
{
    Issue { path: clone_strings(path), message, expected: None }
}

fn push_issue(list: &mut Vec<Issue>, one: Issue)
    ensures
        text::views(final(list)@) == text::views(old(list)@).push(one@),
{
    proof {
        text::lemma_views_push(list@, one);
    }
    list.push(one);
}

fn append_issues(list: &mut Vec<Issue>, more: Vec<Issue>)
    ensures
        text::views(final(list)@) == text::views(old(list)@) + text::views(more@),
{
    let ghost (a, b) = (list@, more@);
    let mut more = more;
    list.append(&mut more);
    assert(text::views(list@) =~= text::views(a) + text::views(b));
}

fn validate_union(schema: &Json, key: &str, value: &Json, path: &Vec<String>) -> (r: Option<Issue>)
    ensures
        text::opt_view(r) == union_issue(schema@, key@, value@, text::views(path@)),
    decreases value, schema, 1nat,
{
    match schema.get(key) {
        Some(Json::Array(branches)) => {
            let ghost whole = Json::Array(*branches);
            proof {
                json::lemma_values_view(*branches);
            }
            let mut count: usize = 0;
            let mut i: usize = 0;
            while i < branches.len()
                invariant
                    count <= i <= branches@.len(),
                    whole == Json::Array(*branches),
                    decreases_to!(*schema => whole),
                    json::member(schema@, key@) == Some(JsonView::Array(text::views(branches@))),
                    count == matched(schema@, key@, value@, text::views(path@), i as int),
                decreases branches@.len() - i,
            {
                proof {
                    assert(decreases_to!(whole => whole->Array_0));
                    assert(decreases_to!(branches@ => branches@[i as int]));
                    assert(text::views(branches@)[i as int] == branches@[i as int]@);
                }
                let found = validate(&branches[i], value, path);
                if found.len() == 0 {
                    count += 1;
                }
                i += 1;
            }
            let any = same_text(key, "anyOf");
            if (any && count >= 1) || (!any && count == 1) {
                None
            } else {
                let mut message = "must match ".to_owned();
                message.append(if any { "at least one" } else { "exactly one" });
                message.append(" schema in ");
                message.append(key);
                Some(
                    Issue {
                        path: clone_strings(path),
                        message,
                        expected: Some(branch_types(branches)),
                    },
                )
            }
        },
        _ => None,
    }
}

fn validate_const(schema: &Json, value: &Json, path: &Vec<String>) -> (r: Vec<Issue>)
    ensures
        text::views(r@) == const_issues(schema@, value@, text::views(path@)),
{
    let mut out: Vec<Issue> = Vec::new();
    assert(text::views(out@) =~= Seq::empty());
    match schema.get("const") {
        Some(expected) => {
            if !values_equal(expected, value) {
                let message = text::concat("must be ", json::to_text(expected).as_str());
                push_issue(&mut out, issue(path, message));
                assert(text::views(out@) =~= const_issues(schema@, value@, text::views(path@)));
            }
        },
        None => {},
    }
    out
}

fn validate_enum(schema: &Json, value: &Json, path: &Vec<String>) -> (r: Vec<Issue>)
    ensures
        text::views(r@) == enum_issues(schema@, value@, text::views(path@)),
{
    let mut out: Vec<Issue> = Vec::new();
    assert(text::views(out@) =~= Seq::empty());
    match schema.get("enum") {
        Some(Json::Array(options)) => {
            proof {
                json::lemma_values_view(*options);
            }
            let mut texts: Vec<String> = Vec::new();
            let mut found = false;
            let mut i: usize = 0;
            while i < options.len()
                invariant
                    i <= options@.len(),
                    texts@.len() == i,
                    found == exists|j: int|
                        0 <= j < i && json::same_value(
                            #[trigger] text::views(options@)[j],
                            value@,
                        ),
                    forall|j: int|
                        0 <= j < i ==> texts@[j]@ == json::compact(text::views(options@)[j]),
                decreases options@.len() - i,
            {
                assert(text::views(options@)[i as int] == options@[i as int]@);
                if values_equal(&options[i], value) {
                    found = true;
                }
                texts.push(json::to_text(&options[i]));
                i += 1;
            }
            assert(text::views(texts@) =~= rendered(text::views(options@)));
            if !found {
                let list = join_strings(&texts, ", ");
                let message = text::concat("must be one of ", list.as_str());
                push_issue(&mut out, issue(path, message));
                assert(text::views(out@) =~= enum_issues(schema@, value@, text::views(path@)));
            }
        },
        _ => {},
    }
    out
}

fn validate_required(schema: &Json, map: &JsonObject, path: &Vec<String>) -> (r: Vec<Issue>)
    ensures
        text::views(r@) == missing(
            required_of(schema@),
            map@,
            text::views(path@),
            required_of(schema@).len() as int,
        ),
{
    let required = required_properties(schema);
    let mut out: Vec<Issue> = Vec::new();
    assert(text::views(out@) =~= Seq::empty());
    let mut i: usize = 0;
    while i < required.len()
        invariant
            i <= required@.len(),
            text::views(required@) == required_of(schema@),
            text::views(out@) == missing(
                required_of(schema@),
                map@,
                text::views(path@),
                i as int,
            ),
        decreases required@.len() - i,
    {
        assert(required@[i as int]@ == required_of(schema@)[i as int]);
        if !map.contains_key(required[i].as_str()) {
            let place = child_path(path, required[i].as_str());
            push_issue(&mut out, issue(&place, "is required".to_owned()));
        }
        i += 1;
    }
    out
}

fn validate_member(schema: &Json, name: &str, child: &Json, path: &Vec<String>) -> (r: Vec<Issue>)
    ensures
        text::views(r@) == member_issues(schema@, name@, child@, text::views(path@)),
    decreases child, schema, 0nat,
{
    let place = child_path(path, name);
    match schema.get("properties") {
        Some(props) => {
            match props.get(name) {
                Some(child_schema) => {
                    return validate(child_schema, child, &place);
                },
                None => {},
            }
        },
        None => {},
    }
    let mut out: Vec<Issue> = Vec::new();
    assert(text::views(out@) =~= Seq::empty());
    match schema.get("additionalProperties") {
        Some(extra) => match extra {
            Json::Bool(allowed) => {
                if !*allowed {
                    push_issue(&mut out, issue(&place, "is not an allowed property".to_owned()));
                    assert(text::views(out@) =~= member_issues(
                        schema@,
                        name@,
                        child@,
                        text::views(path@),
                    ));
                }
            },
            Json::Object(_) => {
                return validate(extra, child, &place);
            },
            _ => {},
        },
        None => {},
    }
    out
}

fn validate_length(schema: &Json, s: &str, path: &Vec<String>) -> (r: Vec<Issue>)
    ensures
        text::views(r@) == length_issues(schema@, s@, text::views(path@)),
{
    let mut out: Vec<Issue> = Vec::new();
    assert(text::views(out@) =~= Seq::empty());
    let len: usize = s.unicode_len();
    match as_uint(schema.get("minLength")) {
        Some(min) => if (len as u64) < min {
            let mut message = "must have at least ".to_owned();
            message.append(text::decimal_text(min).as_str());
            message.append(" characters");
            push_issue(&mut out, issue(path, message));
        },
        None => {},
    }
    match as_uint(schema.get("maxLength")) {
        Some(max) => if (len as u64) > max {
            let mut message = "must have at most ".to_owned();
            message.append(text::decimal_text(max).as_str());
            message.append(" characters");
            push_issue(&mut out, issue(path, message));
        },
        None => {},
    }
    assert(text::views(out@) =~= length_issues(schema@, s@, text::views(path@)));
    out
}

fn as_number(v: Option<&Json>) -> (r: Option<&Number>)
    ensures
        text::opt_view(r) == number_of(text::opt_view(v)),
{
    match v {
        Some(Json::Number(n)) => Some(n),
        _ => None,
    }
}

fn validate_range(schema: &Json, n: &Number, path: &Vec<String>) -> (r: Vec<Issue>)
    ensures
        text::views(r@) == range_issues(schema@, n@, text::views(path@)),
{
    let mut out: Vec<Issue> = Vec::new();
    assert(text::views(out@) =~= Seq::empty());
    match as_number(schema.get("minimum")) {
        Some(min) => if number::is_less(n, min) {
            let message = text::concat("must be >= ", number::display_float(min).as_str());
            push_issue(&mut out, issue(path, message));
        },
        None => {},
    }
    match as_number(schema.get("maximum")) {
        Some(max) => if number::is_less(max, n) {
            let message = text::concat("must be <= ", number::display_float(max).as_str());
            push_issue(&mut out, issue(path, message));
        },
        None => {},
    }
    assert(text::views(out@) =~= range_issues(schema@, n@, text::views(path@)));
    out
}

fn validate_shape(schema: &Json, value: &Json, path: &Vec<String>) -> (r: Vec<Issue>)
    ensures
        text::views(r@) == shape_issues(schema@, value@, text::views(path@)),
    decreases value, schema, 1nat,
{
    match value {
        Json::Object(map) => {
            let mut out = validate_required(schema, map, path);
            let ghost before = text::views(out@);
            let mut i: usize = 0;
            assert(before + Seq::<IssueView>::empty() =~= before);
            while i < map.entries.len()
                invariant
                    i <= map.entries@.len(),
                    *value == Json::Object(*map),
                    value@ == JsonView::Object(map@),
                    map@.len() == map.entries@.len(),
                    text::views(out@) == before + members_issues(
                        schema@,
                        value@,
                        text::views(path@),
                        i as int,
                    ),
                decreases map.entries@.len() - i,
            {
                proof {
                    assert(decreases_to!(*value => value->Object_0));
                    assert(decreases_to!(*map => map.entries));
                    assert(decreases_to!(map.entries@ => map.entries@[i as int]));
                    assert(decreases_to!(map.entries@[i as int] => map.entries@[i as int].1));
                }
                let more = validate_member(
                    schema,
                    map.entries[i].0.as_str(),
                    &map.entries[i].1,
                    path,
                );
                let ghost sofar = members_issues(schema@, value@, text::views(path@), i as int);
                let ghost extra = text::views(more@);
                append_issues(&mut out, more);
                assert((before + sofar) + extra =~= before + (sofar + extra));
                i += 1;
            }
            out
        },
        Json::Array(items) => {
            let mut out: Vec<Issue> = Vec::new();
            assert(text::views(out@) =~= Seq::empty());
            match schema.get("items") {
                Some(item_schema) => {
                    proof {
                        json::lemma_values_view(*items);
                    }
                    let mut i: usize = 0;
                    while i < items.len()
                        invariant
                            i <= items@.len(),
                            *value == Json::Array(*items),
                            value@ == JsonView::Array(text::views(items@)),
                            text::views(out@) == items_issues(
                                item_schema@,
                                value@,
                                text::views(path@),
                                i as int,
                            ),
                        decreases items@.len() - i,
                    {
                        proof {
                            assert(decreases_to!(*value => value->Array_0));
                            assert(decreases_to!(items@ => items@[i as int]));
                            assert(text::views(items@)[i as int] == items@[i as int]@);
                        }
                        let place = child_path(path, text::decimal_text(i as u64).as_str());
                        let more = validate(item_schema, &items[i], &place);
                        append_issues(&mut out, more);
                        i += 1;
                    }
                },
                None => {},
            }
            out
        },
        Json::String(s) => validate_length(schema, s.as_str(), path),
        Json::Number(n) => validate_range(schema, n, path),
        _ => {
            let out: Vec<Issue> = Vec::new();
            assert(text::views(out@) =~= Seq::empty());
            out
        },
    }
}

/// The ways in which a value does not meet a schema.
pub fn validate(schema: &Json, value: &Json, path: &Vec<String>) -> (r: Vec<Issue>)
    ensures
        text::views(r@) == issues(schema@, value@, text::views(path@)),
    decreases value, schema, 2nat,
{
    let mut out: Vec<Issue> = Vec::new();
    assert(text::views(out@) =~= Seq::empty());
    match schema {
        Json::Bool(all) => if *all {
            return out;
        },
        Json::Object(o) => if o.is_empty() {
            assert(o@ =~= Seq::empty());
            return out;
        },
        _ => {},
    }
    match validate_union(schema, "anyOf", value, path) {
        Some(one) => {
            push_issue(&mut out, one);
            assert(text::views(out@) =~= seq![one@]);
            return out;
        },
        None => {},
    }
    match validate_union(schema, "oneOf", value, path) {
        Some(one) => {
            push_issue(&mut out, one);
            assert(text::views(out@) =~= seq![one@]);
            return out;
        },
        None => {},
    }
    let types = schema_types(schema);
    if types.len() > 0 && !some_type_matches(&types, value) {
        let mut message = "must be ".to_owned();
        message.append(join_strings(&types, " | ").as_str());
        message.append(" (was ");
        message.append(json_kind(value));
        message.append(")");
        let one = Issue { path: clone_strings(path), message, expected: Some(types) };
        push_issue(&mut out, one);
        assert(text::views(out@) =~= seq![one@]);
        return out;
    }
    let mut out = validate_const(schema, value, path);
    append_issues(&mut out, validate_enum(schema, value, path));
    append_issues(&mut out, validate_shape(schema, value, path));
    out
}

// ------------------------------------------------------------------ stripping placeholders

/// Whether a value is a placeholder for nothing: `null`, or its name where no text is accepted.
pub open spec fn is_placeholder(v: JsonView, schema: JsonView) -> bool {
    v is Null || (v == JsonView::String("null"@) && !types_of(schema).contains("string"@))
}

/// The names of the members, in order.
pub open spec fn keys_of(map: Entries) -> Seq<Seq<char>> {
    map.map_values(|m: (Seq<char>, JsonView)| m.0)
}

/// The value without the placeholders of optional properties that reject `null`, at every
/// depth, and whether one was found.
pub open spec fn stripped(schema: JsonView, value: JsonView) -> (JsonView, bool)
    decreases schema, 1nat, 0int,
{
    match (json::member(schema, "properties"@), value) {
        (Some(JsonView::Object(_)), JsonView::Object(map)) => {
            let (m, changed) = stripped_keys(schema, map, keys_of(map), map.len() as int);
            (JsonView::Object(m), changed)
        },
        _ => (value, false),
    }
}

/// The members after the first `n` of the keys have been looked at.
pub open spec fn stripped_keys(
    schema: JsonView,
    map: Entries,
    keys: Seq<Seq<char>>,
    n: int,
) -> (Entries, bool)
    decreases schema, 0nat, n,
{
    if n <= 0 {
        (map, false)
    } else {
        let (m, changed) = stripped_keys(schema, map, keys, n - 1);
        let key = keys[n - 1];
        match (property_of(schema, key), json::lookup(m, key)) {
            (Some(property), Some(v)) => {
                proof {
                    lemma_property_smaller(schema, key);
                }
                if is_placeholder(v, property) && !required_of(schema).contains(key)
                    && !accepts_null(property) {
                    (json::without_member(m, key), true)
                } else {
                    let (w, deeper) = stripped(property, v);
                    (json::with_member(m, key, w), changed || deeper)
                }
            },
            _ => (m, changed),
        }
    }
}

fn strip_optional_nulls(schema: &Json, value: &mut Json) -> (r: bool)
    ensures
        (final(value)@, r) == stripped(schema@, old(value)@),
    decreases schema,
{
    let ghost before = value@;
    let props = match schema.get("properties") {
        Some(p) => match p {
            Json::Object(_) => p,
            _ => {
                return false;
            },
        },
        None => {
            return false;
        },
    };
    let mut map = match &*value {
        Json::Object(o) => o.clone(),
        _ => {
            return false;
        },
    };
    let ghost entries = map@;
    let required = required_properties(schema);
    let mut keys: Vec<String> = Vec::new();
    let mut k: usize = 0;
    while k < map.entries.len()
        invariant
            k <= map.entries@.len(),
            keys@.len() == k,
            map@ == entries,
            forall|j: int| 0 <= j < k ==> keys@[j]@ == map.entries@[j].0@,
        decreases map.entries@.len() - k,
    {
        keys.push(map.entries[k].0.clone());
        k += 1;
    }
    assert(text::views(keys@) =~= keys_of(entries));
    let mut changed = false;
    let mut i: usize = 0;
    while i < keys.len()
        invariant
            i <= keys@.len(),
            text::views(keys@) == keys_of(entries),
            text::views(required@) == required_of(schema@),
            json::member(schema@, "properties"@) == Some(props@),
            decreases_to!(*schema => *props),
            (map@, changed) == stripped_keys(schema@, entries, keys_of(entries), i as int),
        decreases keys@.len() - i,
    {
        let key = keys[i].as_str();
        assert(key@ == keys_of(entries)[i as int]);
        proof {
            json::lemma_find_key(map@, key@, 0);
        }
        match (props.get(key), map.find(key)) {
            (Some(property), Some(at)) => {
                let ghost m = map@;
                let is_null_placeholder = match &map.entries[at].1 {
                    Json::Null => true,
                    Json::String(s) => {
                        let types = schema_types(property);
                        same_text(s.as_str(), "null") && !contains_text(&types, "string")
                    },
                    _ => false,
                };
                if is_null_placeholder && !contains_text(&required, key) && !allows_null(
                    property,
                ) {
                    map.remove(key);
                    changed = true;
                } else {
                    let mut child = map.entries[at].1.clone();
                    if strip_optional_nulls(property, &mut child) {
                        changed = true;
                    }
                    let name = map.entries[at].0.clone();
                    map.entries.set(at, (name, child));
                    assert(map@ =~= m.update(at as int, (key@, child@)));
                }
            },
            _ => {},
        }
        i += 1;
    }
    *value = Json::Object(map);
    changed
}

// ------------------------------------------------------------------ coercion

/// What a text stands for as a value of the named type.
pub open spec fn coerced_to(t: Seq<char>, s: Seq<char>) -> Option<JsonView> {
    if t == "number"@ {
        match number::float_parsed(s) {
            Some(Some(n)) => Some(JsonView::Number(number::compacted(n))),
            _ => None,
        }
    } else if t == "integer"@ {
        match text::signed_value(s) {
            Some(n) => if i64::MIN <= n <= i64::MAX {
                Some(JsonView::Number(number::int_number(n)))
            } else {
                None
            },
            None => None,
        }
    } else if t == "boolean"@ {
        if s == "true"@ {
            Some(JsonView::Bool(true))
        } else if s == "false"@ {
            Some(JsonView::Bool(false))
        } else {
            None
        }
    } else if t == "array"@ {
        match json::parsed(s) {
            Ok(JsonView::Array(a)) => Some(JsonView::Array(a)),
            _ => None,
        }
    } else if t == "object"@ {
        match json::parsed(s) {
            Ok(JsonView::Object(o)) => Some(JsonView::Object(o)),
            _ => None,
        }
    } else {
        None
    }
}

/// What a text stands for as a value of the first of the types, from `from` on, that fits.
pub open spec fn coerced_to_some(types: Seq<Seq<char>>, s: Seq<char>, from: int) -> Option<JsonView>
    decreases types.len() - from,
{
    if from < 0 || from >= types.len() {
        None
    } else {
        match coerced_to(types[from], s) {
            Some(v) => Some(v),
            None => coerced_to_some(types, s, from + 1),
        }
    }
}

/// The value with the text at the path, from `from` on, turned into what it stands for;
/// nothing where there is no text there or it stands for none of the types.
pub open spec fn coerced_at(
    v: JsonView,
    path: Seq<Seq<char>>,
    from: int,
    types: Seq<Seq<char>>,
) -> Option<JsonView>
    decreases path.len() - from,
{
    if from < 0 || from >= path.len() {
        match v {
            JsonView::String(s) => coerced_to_some(types, text::trim(Space::Unicode, s), 0),
            _ => None,
        }
    } else {
        match v {
            JsonView::Object(o) => match json::find_key(o, path[from], 0) {
                Some(k) => match coerced_at(o[k].1, path, from + 1, types) {
                    Some(w) => Some(JsonView::Object(o.update(k, (o[k].0, w)))),
                    None => None,
                },
                None => None,
            },
            JsonView::Array(a) => match text::unsigned_value(path[from]) {
                Some(k) => if k < a.len() {
                    match coerced_at(a[k], path, from + 1, types) {
                        Some(w) => Some(JsonView::Array(a.update(k, w))),
                        None => None,
                    }
                } else {
                    None
                },
                None => None,
            },
            _ => None,
        }
    }
}

/// The value after the first `n` issues have been used to coerce it, and whether one could be.
pub open spec fn coerced_all(v: JsonView, found: Seq<IssueView>, n: int) -> (JsonView, bool)
    decreases n,
{
    if n <= 0 {
        (v, false)
    } else {
        let (w, changed) = coerced_all(v, found, n - 1);
        let after = match found[n - 1].expected {
            Some(types) => coerced_at(w, found[n - 1].path, 0, types),
            None => None,
        };
        match after {
            Some(x) => (x, true),
            None => (w, changed),
        }
    }
}

fn coerce_text(t: &str, s: &str) -> (r: Option<Json>)
    ensures
        text::opt_view(r) == coerced_to(t@, s@),
        r matches Some(w) ==> json::distinct_within(w@),
{
    if same_text(t, "number") {
        match number::parse_float(s) {
            Some(Some(n)) => Some(Json::Number(number::compact_number(n))),
            _ => None,
        }
    } else if same_text(t, "integer") {
        match text::parse_signed(s) {
            Some(n) => Some(Json::Number(number::integer(n))),
            None => None,
        }
    } else if same_text(t, "boolean") {
        if same_text(s, "true") {
            Some(Json::Bool(true))
        } else if same_text(s, "false") {
            Some(Json::Bool(false))
        } else {
            None
        }
    } else if same_text(t, "array") {
        match json::parse(s) {
            Ok(Json::Array(a)) => Some(Json::Array(a)),
            _ => None,
        }
    } else if same_text(t, "object") {
        match json::parse(s) {
            Ok(Json::Object(o)) => Some(Json::Object(o)),
            _ => None,
        }
    } else {
        None
    }
}

fn coerce_text_to_some(types: &Vec<String>, s: &str) -> (r: Option<Json>)
    ensures
        text::opt_view(r) == coerced_to_some(text::views(types@), s@, 0),
        r matches Some(w) ==> json::distinct_within(w@),
{
    let mut i: usize = 0;
    while i < types.len()
        invariant
            i <= types@.len(),
            coerced_to_some(text::views(types@), s@, 0) == coerced_to_some(
                text::views(types@),
                s@,
                i as int,
            ),
        decreases types@.len() - i,
    {
        match coerce_text(types[i].as_str(), s) {
            Some(v) => {
                return Some(v);
            },
            None => {},
        }
        i += 1;
    }
    None
}

fn coerce_in(v: &Json, path: &Vec<String>, from: usize, types: &Vec<String>) -> (r: Option<Json>)
    ensures
        text::opt_view(r) == coerced_at(
            v@,
            text::views(path@),
            from as int,
            text::views(types@),
        ),
        json::distinct_within(v@) ==> (r matches Some(w) ==> json::distinct_within(w@)),
    decreases path@.len() - from,
{
    if from >= path.len() {
        return match v {
            Json::String(s) => {
                let trimmed = text::trim_text(Space::Unicode, s.as_str());
                coerce_text_to_some(types, trimmed.as_str())
            },
            _ => None,
        };
    }
    assert(text::views(path@)[from as int] == path@[from as int]@);
    match v {
        Json::Object(o) => match o.find(path[from].as_str()) {
            Some(k) => match coerce_in(&o.entries[k].1, path, from + 1, types) {
                Some(w) => {
                    let mut map = o.clone();
                    let name = o.entries[k].0.clone();
                    map.entries.set(k, (name, w));
                    assert(map@ =~= o@.update(k as int, (o@[k as int].0, w@)));
                    proof {
                        if json::distinct_within(v@) {
                            assert(json::distinct_within(o@[k as int].1));
                            assert forall|i: int| 0 <= i < map@.len() implies json::distinct_within(
                                (#[trigger] map@[i]).1,
                            ) by {
                                assert(json::distinct_within(o@[i].1));
                            }
                            assert forall|i: int, j: int|
                                0 <= i < j < map@.len() implies #[trigger] map@[i].0
                                != #[trigger] map@[j].0 by {
                                assert(o@[i].0 != o@[j].0);
                            }
                        }
                    }
                    Some(Json::Object(map))
                },
                None => None,
            },
            None => None,
        },
        Json::Array(a) => {
            proof {
                json::lemma_values_view(*a);
            }
            let count: usize = a.len();
            match text::parse_unsigned(path[from].as_str()) {
                Some(n) => if n < count as u64 {
                    let k: usize = n as usize;
                    match coerce_in(&a[k], path, from + 1, types) {
                        Some(w) => {
                            let mut items = text::clone_all(a);
                            items.set(k, w);
                            proof {
                                json::lemma_values_view(items);
                                assert(text::views(items@) =~= text::views(a@).update(
                                    k as int,
                                    w@,
                                ));
                            }
                            proof {
                                if json::distinct_within(v@) {
                                    let before = text::views(a@);
                                    let after = text::views(items@);
                                    assert(json::distinct_within(before[k as int]));
                                    assert forall|i: int|
                                        0 <= i < after.len() implies json::distinct_within(
                                        #[trigger] after[i],
                                    ) by {
                                        assert(json::distinct_within(before[i]));
                                    }
                                }
                            }
                            Some(Json::Array(items))
                        },
                        None => None,
                    }
                } else {
                    None
                },
                None => None,
            }
        },
        _ => None,
    }
}

fn coerce_at(root: &mut Json, path: &Vec<String>, expected: &Option<Vec<String>>) -> (r: bool)
    ensures
        ({
            let after = match *expected {
                Some(types) => coerced_at(
                    old(root)@,
                    text::views(path@),
                    0,
                    text::views(types@),
                ),
                None => None,
            };
            match after {
                Some(v) => r && final(root)@ == v,
                None => !r && final(root)@ == old(root)@,
            }
        }),
        json::distinct_within(old(root)@) ==> json::distinct_within(final(root)@),
{
    match expected {
        Some(types) => match coerce_in(&*root, path, 0, types) {
            Some(v) => {
                *root = v;
                true
            },
            None => false,
        },
        None => false,
    }
}

fn coerce_all(value: &mut Json, found: &Vec<Issue>) -> (r: bool)
    ensures
        (final(value)@, r) == coerced_all(
            old(value)@,
            text::views(found@),
            found@.len() as int,
        ),
        json::distinct_within(old(value)@) ==> json::distinct_within(final(value)@),
{
    let ghost before = value@;
    let mut coerced = false;
    let mut i: usize = 0;
    while i < found.len()
        invariant
            i <= found@.len(),
            (value@, coerced) == coerced_all(before, text::views(found@), i as int),
            json::distinct_within(before) ==> json::distinct_within(value@),
        decreases found@.len() - i,
    {
        assert(text::views(found@)[i as int] == found@[i as int]@);
        if coerce_at(value, &found[i].path, &found[i].expected) {
            coerced = true;
        }
        i += 1;
    }
    coerced
}

/// The value and whether it was changed, after it has been coerced from pass `pass` on until it
/// meets the schema, cannot be coerced or has been coerced often enough.
pub open spec fn settled(schema: JsonView, v: JsonView, changed: bool, pass: int) -> (
    JsonView,
    bool,
)
    decreases MAX_COERCION_PASSES - pass,
{
    let found = issues(schema, v, Seq::empty());
    if found.len() == 0 || pass >= MAX_COERCION_PASSES {
        (v, changed)
    } else {
        let (w, coerced) = coerced_all(v, found, found.len() as int);
        if coerced {
            settled(schema, stripped(schema, w).0, true, pass + 1)
        } else {
            (w, changed)
        }
    }
}

/// Arguments with placeholders stripped and texts coerced, and whether they were changed.
pub open spec fn normalized(schema: JsonView, args: JsonView) -> (JsonView, bool) {
    let (v, changed) = stripped(schema, args);
    settled(schema, v, changed, 0)
}

fn normalize(schema: &Json, args: &Json) -> (r: (Json, bool))
    ensures
        (r.0@, r.1) == normalized(schema@, args@),
        json::distinct_within(args@) ==> json::distinct_within(r.0@),
{
    let mut value = args.clone();
    let mut changed = strip_optional_nulls(schema, &mut value);
    proof {
        if json::distinct_within(args@) {
            lemma_stripped_distinct(schema@, args@);
        }
    }
    let root: Vec<String> = Vec::new();
    assert(text::views(root@) =~= Seq::empty());
    let mut pass: usize = 0;
    loop
        invariant
            pass <= MAX_COERCION_PASSES,
            text::views(root@) == Seq::<Seq<char>>::empty(),
            settled(schema@, value@, changed, pass as int) == normalized(schema@, args@),
            json::distinct_within(args@) ==> json::distinct_within(value@),
        decreases MAX_COERCION_PASSES - pass,
    {
        let found = validate(schema, &value, &root);
        if found.len() == 0 || pass >= MAX_COERCION_PASSES {
            return (value, changed);
        }
        if !coerce_all(&mut value, &found) {
            return (value, changed);
        }
        changed = true;
        proof {
            if json::distinct_within(value@) {
                lemma_stripped_distinct(schema@, value@);
            }
        }
        let _ = strip_optional_nulls(schema, &mut value);
        pass += 1;
    }
}

// ------------------------------------------------------------------ reporting

/// The first `max` characters and how many more there are, where a text is longer.
pub open spec fn clipped(s: Seq<char>, max: int) -> Seq<char> {
    if s.len() <= max {
        s
    } else {
        s.take(max) + "… [truncated "@ + text::decimal((s.len() - max) as nat) + " chars]"@
    }
}

fn clip(s: &str, max: usize) -> (r: String)
    ensures
        r@ == clipped(s@, max as int),
{
    let v = text::to_chars(s);
    if v.len() <= max {
        s.to_owned()
    } else {
        let mut out = text::slice_string(&v, 0, max);
        assert(out@ =~= s@.take(max as int));
        out.append("… [truncated ");
        out.append(text::decimal_text((v.len() - max) as u64).as_str());
        out.append(" chars]");
        out
    }
}

/// The value with its long texts clipped, at every depth.
pub open spec fn shortened(v: JsonView) -> JsonView
    decreases v,
{
    match v {
        JsonView::String(s) => JsonView::String(clipped(s, ARG_STRING_PREVIEW as int)),
        JsonView::Array(a) => JsonView::Array(shortened_items(a)),
        JsonView::Object(o) => JsonView::Object(shortened_members(o)),
        _ => v,
    }
}

/// The elements with their long texts clipped.
pub open spec fn shortened_items(a: Seq<JsonView>) -> Seq<JsonView>
    decreases a,
{
    Seq::new(a.len(), |i: int| if 0 <= i < a.len() { shortened(a[i]) } else { JsonView::Null })
}

/// The members with their long texts clipped.
pub open spec fn shortened_members(o: Entries) -> Entries
    decreases o,
{
    Seq::new(
        o.len(),
        |i: int|
            if 0 <= i < o.len() {
                (o[i].0, shortened(o[i].1))
            } else {
                (Seq::empty(), JsonView::Null)
            },
    )
}

fn truncate_strings(value: &Json) -> (r: Json)
    ensures
        r@ == shortened(value@),
    decreases value,
{
    match value {
        Json::String(s) => Json::String(clip(s.as_str(), ARG_STRING_PREVIEW)),
        Json::Array(a) => {
            let mut out: Vec<Json> = Vec::new();
            let mut i: usize = 0;
            while i < a.len()
                invariant
                    i <= a@.len(),
                    out@.len() == i,
                    *value == Json::Array(*a),
                    forall|j: int| 0 <= j < i ==> out@[j]@ == shortened(a@[j]@),
                decreases a@.len() - i,
            {
                proof {
                    assert(decreases_to!(*value => value->Array_0));
                    assert(decreases_to!(a@ => a@[i as int]));
                }
                out.push(truncate_strings(&a[i]));
                i += 1;
            }
            proof {
                json::lemma_values_view(out);
                json::lemma_values_view(*a);
                assert(text::views(out@) =~= shortened_items(text::views(a@)));
            }
            Json::Array(out)
        },
        Json::Object(o) => {
            let mut entries: Vec<(String, Json)> = Vec::new();
            let mut i: usize = 0;
            while i < o.entries.len()
                invariant
                    i <= o.entries@.len(),
                    entries@.len() == i,
                    *value == Json::Object(*o),
                    forall|j: int|
                        0 <= j < i ==> entries@[j].0@ == o.entries@[j].0@ && entries@[j].1@
                            == shortened(o.entries@[j].1@),
                decreases o.entries@.len() - i,
            {
                proof {
                    assert(decreases_to!(*value => value->Object_0));
                    assert(decreases_to!(*o => o.entries));
                    assert(decreases_to!(o.entries@ => o.entries@[i as int]));
                    assert(decreases_to!(o.entries@[i as int] => o.entries@[i as int].1));
                }
                entries.push((o.entries[i].0.clone(), truncate_strings(&o.entries[i].1)));
                i += 1;
            }
            let out = JsonObject { entries };
            assert(out@ =~= shortened_members(o@));
            Json::Object(out)
        },
        _ => value.clone(),
    }
}

/// The line of an issue.
pub open spec fn issue_line(i: IssueView) -> Seq<char> {
    "  - "@ + (if i.path.len() == 0 {
        "root"@
    } else {
        text::join(i.path, "/"@)
    }) + ": "@ + i.message
}

/// What is shown of the arguments: as they came and, where they were changed, as they were
/// changed.
pub open spec fn received(original: JsonView, value: JsonView, changed: bool) -> JsonView {
    if changed {
        JsonView::Object(
            seq![("original"@, shortened(original)), ("normalized"@, shortened(value))],
        )
    } else {
        shortened(original)
    }
}

/// The start of every refusal.
pub open spec fn refusal(call_name: Seq<char>) -> Seq<char> {
    "Validation failed for tool \""@ + call_name + "\":"@
}

/// The refusal of arguments that are no JSON.
pub open spec fn unparsed_refusal(call_name: Seq<char>, error: JsonView, raw: Seq<char>) -> Seq<char> {
    let shown = match error {
        JsonView::String(s) => s,
        other => json::compact(other),
    };
    refusal(call_name) + " Tool call arguments are not valid JSON.\nParse Error: "@ + shown
        + "\nRaw JSON:\n"@ + clipped(raw, RAW_JSON_PREVIEW as int)
}

/// The refusal of arguments that do not meet the schema.
pub open spec fn issues_refusal(
    call_name: Seq<char>,
    found: Seq<IssueView>,
    shown: JsonView,
) -> Seq<char> {
    refusal(call_name) + "\n"@ + text::join(
        found.map_values(|i: IssueView| issue_line(i)),
        "\n"@,
    ) + "\n\nReceived arguments:\n"@ + json::pretty(shown)
}

/// What becomes of the arguments of a call: the normalized arguments, or the refusal.
pub open spec fn validated(schema: JsonView, call_name: Seq<char>, args: Entries) -> Result<
    Entries,
    Seq<char>,
> {
    match json::lookup(args, "__parseError"@) {
        Some(error) => {
            let raw = match json::text_of(json::lookup(args, "__rawJson"@)) {
                Some(s) => s,
                None => Seq::empty(),
            };
            Err(unparsed_refusal(call_name, error, raw))
        },
        None => {
            let original = JsonView::Object(args);
            let (value, changed) = normalized(schema, original);
            let found = issues(schema, value, Seq::empty());
            if found.len() > 0 {
                Err(issues_refusal(call_name, found, received(original, value, changed)))
            } else {
                match value {
                    JsonView::Object(o) => Ok(o),
                    other => Err(
                        refusal(call_name) + "\n  - root: expected object, got "@
                            + json::kind_name(other),
                    ),
                }
            }
        },
    }
}

fn refuse_unparsed(call_name: &str, error: &Json, raw: &str) -> (r: String)
    ensures
        r@ == unparsed_refusal(call_name@, error@, raw@),
{
    let mut out = "Validation failed for tool \"".to_owned();
    out.append(call_name);
    out.append("\":");
    out.append(" Tool call arguments are not valid JSON.\nParse Error: ");
    let shown = match error {
        Json::String(s) => s.clone(),
        other => json::to_text(other),
    };
    out.append(shown.as_str());
    out.append("\nRaw JSON:\n");
    out.append(clip(raw, RAW_JSON_PREVIEW).as_str());
    out
}

fn refuse_issues(call_name: &str, found: &Vec<Issue>, shown: &Json) -> (r: String)
    ensures
        r@ == issues_refusal(call_name@, text::views(found@), shown@),
{
    let mut lines: Vec<String> = Vec::new();
    let mut i: usize = 0;
    while i < found.len()
        invariant
            i <= found@.len(),
            lines@.len() == i,
            forall|j: int| 0 <= j < i ==> lines@[j]@ == issue_line(found@[j]@),
        decreases found@.len() - i,
    {
        let mut line = "  - ".to_owned();
        if found[i].path.len() == 0 {
            line.append("root");
        } else {
            line.append(join_strings(&found[i].path, "/").as_str());
        }
        line.append(": ");
        line.append(found[i].message.as_str());
        lines.push(line);
        i += 1;
    }
    assert(text::views(lines@) =~= text::views(found@).map_values(|i: IssueView| issue_line(i)));
    let mut out = "Validation failed for tool \"".to_owned();
    out.append(call_name);
    out.append("\":");
    out.append("\n");
    out.append(join_strings(&lines, "\n").as_str());
    out.append("\n\nReceived arguments:\n");
    out.append(json::to_pretty_text(shown).as_str());
    out
}

fn received_arguments(original: &Json, value: &Json, changed: bool) -> (r: Json)
    ensures
        r@ == received(original@, value@, changed),
{
    if changed {
        let mut entries: Vec<(String, Json)> = Vec::new();
        entries.push(("original".to_owned(), truncate_strings(original)));
        entries.push(("normalized".to_owned(), truncate_strings(value)));
        let o = JsonObject { entries };
        assert(o@ =~= seq![("original"@, shortened(original@)), ("normalized"@, shortened(value@))]);
        Json::Object(o)
    } else {
        truncate_strings(original)
    }
}

/// Validates and normalizes the arguments of a call; an error carries the message for the
/// model. Arguments that come out meet the schema of the tool.
pub fn validate_tool_arguments(tool: &Tool, call_name: &str, args: &JsonObject) -> (r: Result<
    JsonObject,
    String,
>)
    ensures
        match r {
            Ok(o) => validated(tool@.parameters, call_name@, args@) == Ok::<Entries, Seq<char>>(o@),
            Err(e) => validated(tool@.parameters, call_name@, args@) == Err::<Entries, Seq<char>>(
                e@,
            ),
        },
        json::distinct_within(JsonView::Object(args@)) && r is Ok ==> {
            let o = r->Ok_0@;
            &&& json::distinct_within(JsonView::Object(o))
            &&& issues(tool@.parameters, JsonView::Object(o), Seq::empty()).len() == 0
            &&& validated(tool@.parameters, call_name@, o) == Ok::<Entries, Seq<char>>(o)
        },
{
    match args.get("__parseError") {
        Some(error) => {
            let raw = match as_text(args.get("__rawJson")) {
                Some(s) => s,
                None => "",
            };
            proof {
                reveal_strlit("");
                assert(""@ =~= Seq::<char>::empty());
            }
            return Err(refuse_unparsed(call_name, error, raw));
        },
        None => {},
    }
    let schema = &tool.parameters;
    let original = Json::Object(args.clone());
    let (value, changed) = normalize(schema, &original);
    let root: Vec<String> = Vec::new();
    assert(text::views(root@) =~= Seq::empty());
    let found = validate(schema, &value, &root);
    if found.len() > 0 {
        let shown = received_arguments(&original, &value, changed);
        return Err(refuse_issues(call_name, &found, &shown));
    }
    match value {
        Json::Object(o) => {
            proof {
                if json::distinct_within(JsonView::Object(args@)) {
                    law_accepted_arguments_stay_accepted(
                        tool@.parameters,
                        call_name@,
                        args@,
                        o@,
                    );
                }
            }
            Ok(o)
        },
        other => {
            let mut out = "Validation failed for tool \"".to_owned();
            out.append(call_name);
            out.append("\":");
            out.append("\n  - root: expected object, got ");
            out.append(json_kind(&other));
            Err(out)
        },
    }
}

// ------------------------------------------------------------------ laws

/// Arguments that are accepted meet the schema, and arguments that were no JSON are refused.
pub proof fn law_accepted_arguments_meet_the_schema(
    schema: JsonView,
    call_name: Seq<char>,
    args: Entries,
)
    ensures
        match validated(schema, call_name, args) {
            Ok(o) => issues(schema, JsonView::Object(o), Seq::empty()).len() == 0,
            Err(_) => true,
        },
        json::lookup(args, "__parseError"@) is Some ==> validated(schema, call_name, args) is Err,
{
}

/// How often a name stands in a list.
spec fn times(keys: Seq<Seq<char>>, k: Seq<char>) -> nat
    decreases keys.len(),
{
    if keys.len() == 0 {
        0
    } else {
        times(keys.drop_last(), k) + (if keys.last() == k {
            1nat
        } else {
            0nat
        })
    }
}

proof fn lemma_times_present(keys: Seq<Seq<char>>, k: Seq<char>, i: int)
    requires
        0 <= i < keys.len(),
        keys[i] == k,
    ensures
        times(keys, k) > 0,
    decreases keys.len(),
{
    if i < keys.len() - 1 {
        lemma_times_present(keys.drop_last(), k, i);
    }
}

proof fn lemma_times_absent(keys: Seq<Seq<char>>, k: Seq<char>)
    requires
        forall|i: int| 0 <= i < keys.len() ==> #[trigger] keys[i] != k,
    ensures
        times(keys, k) == 0,
    decreases keys.len(),
{
    if keys.len() > 0 {
        assert(keys[keys.len() - 1] != k);
        assert forall|i: int| 0 <= i < keys.drop_last().len() implies #[trigger] keys.drop_last()[i]
            != k by {
            assert(keys[i] != k);
        }
        lemma_times_absent(keys.drop_last(), k);
    }
}

proof fn lemma_times_update(keys: Seq<Seq<char>>, i: int, x: Seq<char>, k: Seq<char>)
    requires
        0 <= i < keys.len(),
    ensures
        times(keys.update(i, x), k) == times(keys, k) - (if keys[i] == k {
            1int
        } else {
            0int
        }) + (if x == k {
            1int
        } else {
            0int
        }),
    decreases keys.len(),
{
    let after = keys.update(i, x);
    if i == keys.len() - 1 {
        assert(after.drop_last() =~= keys.drop_last());
    } else {
        assert(after.drop_last() =~= keys.drop_last().update(i, x));
        lemma_times_update(keys.drop_last(), i, x, k);
    }
}

proof fn lemma_times_prefix(keys: Seq<Seq<char>>, n: int, k: Seq<char>)
    requires
        0 <= n <= keys.len(),
    ensures
        times(keys.take(n), k) <= times(keys, k),
    decreases keys.len() - n,
{
    if n < keys.len() {
        lemma_times_prefix(keys, n + 1, k);
        assert(keys.take(n + 1).drop_last() =~= keys.take(n));
    } else {
        assert(keys.take(n) =~= keys);
    }
}

proof fn lemma_times_removed(o: Entries, key: Seq<char>, k: Seq<char>)
    requires
        json::find_key(o, key, 0) is Some,
    ensures
        times(keys_of(json::without_member(o, key)), k) == times(keys_of(o), k) - (if k == key {
            1int
        } else {
            0int
        }),
{
    json::lemma_find_key(o, key, 0);
    let at = json::find_key(o, key, 0).unwrap();
    let keys = keys_of(o);
    let after = keys_of(json::without_member(o, key));
    if at == o.len() - 1 {
        assert(after =~= keys.drop_last());
    } else {
        let moved = keys.update(at, keys.last());
        lemma_times_update(keys, at, keys.last(), k);
        assert(after =~= moved.drop_last());
        assert(moved.last() == keys.last());
    }
}

/// Whether the member of an object is taken out as a placeholder.
spec fn goes(schema: JsonView, key: Seq<char>, v: JsonView) -> bool {
    property_of(schema, key) matches Some(property) && is_placeholder(v, property)
        && !required_of(schema).contains(key) && !accepts_null(property)
}

/// Whether a value is what is left of some member that is not taken out.
spec fn is_left(schema: JsonView, key: Seq<char>, v: JsonView) -> bool {
    !goes(schema, key, v) && exists|w: JsonView|
        v == (#[trigger] stripped(property_of(schema, key).unwrap(), w)).0
}

spec fn some_left(schema: JsonView, o: Entries, key: Seq<char>) -> bool {
    exists|i: int| 0 <= i < o.len() && (#[trigger] o[i]).0 == key && is_left(schema, key, o[i].1)
}

proof fn lemma_left_stays(schema: JsonView, o: Entries, gone: Seq<char>, key: Seq<char>)
    requires
        some_left(schema, o, key),
        json::find_key(o, gone, 0) matches Some(at) ==> goes(schema, gone, o[at].1),
    ensures
        some_left(schema, json::without_member(o, gone), key),
{
    json::lemma_find_key(o, gone, 0);
    let n = json::without_member(o, gone);
    let i = choose|i: int|
        0 <= i < o.len() && (#[trigger] o[i]).0 == key && is_left(schema, key, o[i].1);
    match json::find_key(o, gone, 0) {
        Some(at) => {
            if i < o.len() - 1 {
                assert(n[i] == o[i]);
            } else {
                assert(n[at] == o[i]);
            }
        },
        None => {
            assert(n[i] == o[i]);
        },
    }
}

proof fn lemma_stripped_keys_leave(schema: JsonView, map: Entries, n: int, k: Seq<char>)
    requires
        0 <= n <= map.len(),
        property_of(schema, k) is Some,
    ensures
        ({
            let m = stripped_keys(schema, map, keys_of(map), n).0;
            some_left(schema, m, k) || times(keys_of(m), k) + times(keys_of(map).take(n), k)
                <= times(keys_of(map), k)
        }),
    decreases n,
{
    let keys = keys_of(map);
    if n == 0 {
        assert(times(keys.take(0), k) == 0);
    } else {
        lemma_stripped_keys_leave(schema, map, n - 1, k);
        let before = stripped_keys(schema, map, keys, n - 1).0;
        let after = stripped_keys(schema, map, keys, n).0;
        let key = keys[n - 1];
        assert(keys.take(n).drop_last() =~= keys.take(n - 1));
        assert(keys.take(n).last() == key);
        lemma_times_prefix(keys, n, k);
        json::lemma_find_key(before, key, 0);
        match (property_of(schema, key), json::find_key(before, key, 0)) {
            (Some(property), Some(at)) => {
                let v = before[at].1;
                if goes(schema, key, v) {
                    if some_left(schema, before, k) {
                        lemma_left_stays(schema, before, key, k);
                    } else {
                        lemma_times_removed(before, key, k);
                    }
                } else {
                    let w = stripped(property, v).0;
                    assert(after == before.update(at, (key, w)));
                    assert(keys_of(after) =~= keys_of(before));
                    if k == key {
                        assert(after[at].0 == key);
                        assert(is_left(schema, key, after[at].1));
                    } else if some_left(schema, before, k) {
                        let i = choose|i: int|
                            0 <= i < before.len() && (#[trigger] before[i]).0 == k && is_left(
                                schema,
                                k,
                                before[i].1,
                            );
                        assert(after[i] == before[i]);
                    }
                }
            },
            (_, None) => {
                if k == key {
                    assert forall|i: int| 0 <= i < keys_of(before).len() implies #[trigger] keys_of(
                        before,
                    )[i] != k by {
                        assert(before[i].0 != key);
                    }
                    lemma_times_absent(keys_of(before), k);
                }
            },
            (None, _) => {},
        }
    }
}

proof fn lemma_settled_keys_stay(schema: JsonView, m: Entries, n: int)
    requires
        0 <= n <= m.len(),
        json::distinct_keys(m),
        forall|i: int|
            0 <= i < m.len() && property_of(schema, (#[trigger] m[i]).0) is Some ==> !goes(
                schema,
                m[i].0,
                m[i].1,
            ) && stripped(property_of(schema, m[i].0).unwrap(), m[i].1) == (m[i].1, false),
    ensures
        stripped_keys(schema, m, keys_of(m), n) == (m, false),
    decreases n,
{
    if n > 0 {
        lemma_settled_keys_stay(schema, m, n - 1);
        let key = keys_of(m)[n - 1];
        assert(m[n - 1].0 == key);
        json::lemma_find_key(m, key, 0);
        assert(json::find_key(m, key, 0) == Some(n - 1));
        assert(json::with_member(m, key, m[n - 1].1) =~= m);
    }
}

/// To strip placeholders twice does no more than to strip them once.
pub proof fn law_stripping_once_is_enough(schema: JsonView, value: JsonView)
    requires
        json::distinct_within(stripped(schema, value).0),
    ensures
        stripped(schema, stripped(schema, value).0) == (stripped(schema, value).0, false),
    decreases schema,
{
    match (json::member(schema, "properties"@), value) {
        (Some(JsonView::Object(_)), JsonView::Object(map)) => {
            let n = map.len() as int;
            let m = stripped_keys(schema, map, keys_of(map), n).0;
            assert(stripped(schema, value).0 == JsonView::Object(m));
            assert forall|i: int|
                0 <= i < m.len() && property_of(schema, (#[trigger] m[i]).0) is Some implies !goes(
                schema,
                m[i].0,
                m[i].1,
            ) && stripped(property_of(schema, m[i].0).unwrap(), m[i].1) == (m[i].1, false) by {
                let k = m[i].0;
                let property = property_of(schema, k).unwrap();
                lemma_stripped_keys_leave(schema, map, n, k);
                assert(keys_of(map).take(n) =~= keys_of(map));
                lemma_times_present(keys_of(m), k, i);
                let j = choose|j: int|
                    0 <= j < m.len() && (#[trigger] m[j]).0 == k && is_left(schema, k, m[j].1);
                assert(i == j);
                let w = choose|w: JsonView| m[i].1 == (#[trigger] stripped(property, w)).0;
                lemma_property_smaller(schema, k);
                law_stripping_once_is_enough(property, w);
            }
            lemma_settled_keys_stay(schema, m, m.len() as int);
        },
        _ => {},
    }
}

proof fn lemma_stripped_keys_distinct(schema: JsonView, map: Entries, n: int)
    requires
        json::distinct_within(JsonView::Object(map)),
    ensures
        json::distinct_within(
            JsonView::Object(stripped_keys(schema, map, keys_of(map), n).0),
        ),
    decreases schema, 0nat, n,
{
    if n > 0 {
        lemma_stripped_keys_distinct(schema, map, n - 1);
        let before = stripped_keys(schema, map, keys_of(map), n - 1).0;
        let after = stripped_keys(schema, map, keys_of(map), n).0;
        let key = keys_of(map)[n - 1];
        json::lemma_find_key(before, key, 0);
        match (property_of(schema, key), json::find_key(before, key, 0)) {
            (Some(property), Some(at)) => {
                let v = before[at].1;
                if goes(schema, key, v) {
                    json::law_removed_members_are_gone(before, key);
                    assert forall|i: int| 0 <= i < after.len() implies json::distinct_within(
                        (#[trigger] after[i]).1,
                    ) by {
                        assert(after[i] == before[i] || after[i] == before[before.len() - 1]);
                    }
                } else {
                    lemma_property_smaller(schema, key);
                    lemma_stripped_distinct(property, v);
                    let w = stripped(property, v).0;
                    json::law_set_members_read_back(before, key, w, key);
                    assert(after == before.update(at, (key, w)));
                    assert forall|i: int| 0 <= i < after.len() implies json::distinct_within(
                        (#[trigger] after[i]).1,
                    ) by {
                        assert(json::distinct_within(before[i].1));
                    }
                }
            },
            _ => {},
        }
    }
}

/// What is left of a value without a key twice has no key twice.
proof fn lemma_stripped_distinct(schema: JsonView, v: JsonView)
    requires
        json::distinct_within(v),
    ensures
        json::distinct_within(stripped(schema, v).0),
    decreases schema, 1nat, 0int,
{
    match (json::member(schema, "properties"@), v) {
        (Some(JsonView::Object(_)), JsonView::Object(map)) => {
            lemma_stripped_keys_distinct(schema, map, map.len() as int);
        },
        _ => {},
    }
}

/// Whether a value is an object without a member of that name.
spec fn lacks(v: JsonView, key: Seq<char>) -> bool {
    v matches JsonView::Object(o) && json::lookup(o, key) is None
}

proof fn lemma_stripped_keys_lack(schema: JsonView, map: Entries, n: int, key: Seq<char>)
    requires
        json::lookup(map, key) is None,
    ensures
        json::lookup(stripped_keys(schema, map, keys_of(map), n).0, key) is None,
    decreases n,
{
    if n > 0 {
        lemma_stripped_keys_lack(schema, map, n - 1, key);
        let before = stripped_keys(schema, map, keys_of(map), n - 1).0;
        let after = stripped_keys(schema, map, keys_of(map), n).0;
        json::lemma_find_key(before, keys_of(map)[n - 1], 0);
        json::lemma_find_key(before, key, 0);
        json::lemma_find_key(after, key, 0);
        assert forall|i: int| 0 <= i < after.len() implies #[trigger] after[i].0 != key by {
            if i < before.len() {
                assert(before[i].0 != key);
                assert(before[before.len() - 1].0 != key);
            }
        }
    }
}

proof fn lemma_stripped_lacks(schema: JsonView, v: JsonView, key: Seq<char>)
    requires
        lacks(v, key),
    ensures
        lacks(stripped(schema, v).0, key),
{
    let map = v->Object_0;
    lemma_stripped_keys_lack(schema, map, map.len() as int, key);
}

proof fn lemma_coerced_all(v: JsonView, found: Seq<IssueView>, n: int, key: Seq<char>)
    requires
        lacks(v, key),
    ensures
        lacks(coerced_all(v, found, n).0, key),
        !coerced_all(v, found, n).1 ==> coerced_all(v, found, n).0 == v,
    decreases n,
{
    if n > 0 {
        lemma_coerced_all(v, found, n - 1, key);
        let before = coerced_all(v, found, n - 1).0;
        let after = coerced_all(v, found, n).0;
        let o = before->Object_0;
        let m = after->Object_0;
        if after != before {
            assert(after is Object);
            json::lemma_find_key(o, key, 0);
            json::lemma_find_key(m, key, 0);
            json::lemma_find_key(o, found[n - 1].path[0], 0);
            assert forall|i: int| 0 <= i < m.len() implies #[trigger] m[i].0 != key by {
                assert(o[i].0 != key);
            }
        }
    }
}

/// Whether a value is what stripping leaves of one.
spec fn is_stripped(schema: JsonView, v: JsonView) -> bool {
    exists|w: JsonView| v == (#[trigger] stripped(schema, w)).0
}

proof fn lemma_settled(schema: JsonView, v: JsonView, changed: bool, pass: int, key: Seq<char>)
    requires
        lacks(v, key),
        is_stripped(schema, v),
    ensures
        lacks(settled(schema, v, changed, pass).0, key),
        issues(schema, settled(schema, v, changed, pass).0, Seq::empty()).len() == 0
            ==> is_stripped(schema, settled(schema, v, changed, pass).0),
    decreases MAX_COERCION_PASSES - pass,
{
    let found = issues(schema, v, Seq::empty());
    if found.len() > 0 && pass < MAX_COERCION_PASSES {
        lemma_coerced_all(v, found, found.len() as int, key);
        let (w, coerced) = coerced_all(v, found, found.len() as int);
        if coerced {
            lemma_stripped_lacks(schema, w, key);
            assert(is_stripped(schema, stripped(schema, w).0));
            lemma_settled(schema, stripped(schema, w).0, true, pass + 1, key);
        }
    }
}

/// Arguments that were accepted are accepted again, and come out as they are.
pub proof fn law_accepted_arguments_stay_accepted(
    schema: JsonView,
    call_name: Seq<char>,
    args: Entries,
    accepted: Entries,
)
    requires
        validated(schema, call_name, args) == Ok::<Entries, Seq<char>>(accepted),
        json::distinct_within(JsonView::Object(accepted)),
    ensures
        validated(schema, call_name, accepted) == Ok::<Entries, Seq<char>>(accepted),
{
    let key = "__parseError"@;
    let original = JsonView::Object(args);
    let out = JsonView::Object(accepted);
    let (v, changed) = stripped(schema, original);
    assert(lacks(original, key));
    lemma_stripped_lacks(schema, original, key);
    assert(is_stripped(schema, v));
    lemma_settled(schema, v, changed, 0, key);
    assert(settled(schema, v, changed, 0).0 == out);
    let w = choose|w: JsonView| out == (#[trigger] stripped(schema, w)).0;
    law_stripping_once_is_enough(schema, w);
    assert(stripped(schema, out) == (out, false));
    assert(settled(schema, out, false, 0) == (out, false));
}

} // verus!
