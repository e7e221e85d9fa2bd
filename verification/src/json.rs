//! JSON values.
//!
//! Objects keep their keys in insertion order. A number that is not an integer is held as
//! its shortest decimal text.
use crate::text;
use crate::text::same_text;
use serde_json::Value;
use vstd::prelude::*;

verus! {

/// A JSON number.
#[derive(Debug, PartialEq)]
pub enum Number {
    /// An integer that is not negative.
    PosInt(u64),
    /// A negative integer.
    NegInt(i64),
    /// Any other number, as its shortest decimal text.
    Float(String),
}

/// A JSON value.
#[derive(Debug, PartialEq)]
pub enum Json {
    Null,
    Bool(bool),
    Number(Number),
    String(String),
    Array(Vec<Json>),
    Object(JsonObject),
}

/// The members of a JSON object, in insertion order.
#[derive(Debug, PartialEq)]
pub struct JsonObject {
    pub entries: Vec<(String, Json)>,
}

/// What a [`Number`] stands for.
pub enum NumberView {
    PosInt(u64),
    NegInt(i64),
    Float(Seq<char>),
}

/// What a [`Json`] stands for.
#[verifier::ext_equal]
pub enum JsonView {
    Null,
    Bool(bool),
    Number(NumberView),
    String(Seq<char>),
    Array(Seq<JsonView>),
    Object(Seq<(Seq<char>, JsonView)>),
}

/// The members of an object, in order.
pub type Entries = Seq<(Seq<char>, JsonView)>;

impl View for Number {
    type V = NumberView;

    open spec fn view(&self) -> NumberView {
        match self {
            Number::PosInt(n) => NumberView::PosInt(*n),
            Number::NegInt(n) => NumberView::NegInt(*n),
            Number::Float(s) => NumberView::Float(s@),
        }
    }
}

impl View for Json {
    type V = JsonView;

    open spec fn view(&self) -> JsonView
        decreases self,
    {
        match self {
            Json::Null => JsonView::Null,
            Json::Bool(b) => JsonView::Bool(*b),
            Json::Number(n) => JsonView::Number(n@),
            Json::String(s) => JsonView::String(s@),
            Json::Array(a) => JsonView::Array(values_view(*a)),
            Json::Object(o) => JsonView::Object(o.view()),
        }
    }
}

/// The elements of an array, one by one.
pub proof fn lemma_values_view(a: Vec<Json>)
    ensures
        values_view(a) == text::views(a@),
{
    assert(values_view(a) =~= text::views(a@));
}

/// The elements of an array.
pub open spec fn values_view(a: Vec<Json>) -> Seq<JsonView>
    decreases a,
{
    Seq::new(a@.len(), |i: int| if 0 <= i < a@.len() { a@[i].view() } else { JsonView::Null })
}

impl View for JsonObject {
    type V = Entries;

    open spec fn view(&self) -> Entries
        decreases self,
    {
        Seq::new(
            self.entries@.len(),
            |i: int|
                if 0 <= i < self.entries@.len() {
                    (self.entries@[i].0@, self.entries@[i].1.view())
                } else {
                    (Seq::empty(), JsonView::Null)
                },
        )
    }
}

// ------------------------------------------------------------------ serde_json

/// A value as `serde_json` holds it.
#[verifier::external_type_specification]
#[verifier::external_body]
pub struct ExSerdeValue(serde_json::Value);

/// What `serde_json::from_str` makes of a text: the value, or the message of its error.
pub uninterp spec fn parsed(text: Seq<char>) -> Result<JsonView, Seq<char>>;

/// The compact text that `serde_json::to_string` gives of a value.
pub uninterp spec fn compact(v: JsonView) -> Seq<char>;

/// The indented text that `serde_json::to_string_pretty` gives of a value.
pub uninterp spec fn pretty(v: JsonView) -> Seq<char>;

/// Carries a `serde_json` value over, variant by variant. Nothing is stated of it on its own:
/// [`parse`] states what comes out of the call it serves.
#[verifier::external_body]
fn from_serde(v: Value) -> Json {
    match v {
        Value::Null => Json::Null,
        Value::Bool(b) => Json::Bool(b),
        Value::Number(n) => Json::Number(match (n.as_u64(), n.as_i64()) {
            (Some(u), _) => Number::PosInt(u),
            (None, Some(i)) => Number::NegInt(i),
            (None, None) => Number::Float(n.to_string()),
        }),
        Value::String(s) => Json::String(s),
        Value::Array(a) => Json::Array(a.into_iter().map(from_serde).collect()),
        Value::Object(o) => Json::Object(
            JsonObject { entries: o.into_iter().map(|(k, v)| (k, from_serde(v))).collect() },
        ),
    }
}

/// Carries a value over to `serde_json`, variant by variant. Nothing is stated of it on its
/// own: [`to_text`] and [`to_pretty_text`] state what comes out of the calls it serves.
#[verifier::external_body]
fn to_serde(v: &Json) -> Value {
    match v {
        Json::Null => Value::Null,
        Json::Bool(b) => Value::Bool(*b),
        Json::Number(n) => crate::number::to_serde(n),
        Json::String(s) => Value::String(s.clone()),
        Json::Array(a) => Value::Array(a.iter().map(to_serde).collect()),
        Json::Object(o) => Value::Object(
            o.entries.iter().map(|(k, v)| (k.clone(), to_serde(v))).collect(),
        ),
    }
}

/// `serde_json::from_str`: the value of a JSON text, or the message of the error. The outcome
/// depends on the text alone; it is named [`parsed`]. The objects of the value are maps of
/// `serde_json`, which hold no key twice.
#[verifier::external_body]
pub(crate) fn parse(text: &str) -> (r: Result<Json, String>)
    ensures
        match r {
            Ok(v) => parsed(text@) == Ok::<JsonView, Seq<char>>(v@) && distinct_within(v@),
            Err(e) => parsed(text@) == Err::<JsonView, Seq<char>>(e@),
        },
{
    serde_json::from_str::<serde_json::Value>(text).map(from_serde).map_err(|e| e.to_string())
}

/// How deep a value may nest to be read back from its text.
pub const READ_DEPTH: u64 = 100;

/// The value is read back from its text as it is: it holds no float, no key twice, and does not
/// nest deeper than `depth`.
pub open spec fn plain(v: JsonView, depth: nat) -> bool
    decreases v,
{
    match v {
        JsonView::Number(NumberView::Float(_)) => false,
        JsonView::Number(NumberView::NegInt(n)) => n < 0,
        JsonView::Array(items) => depth > 0 && forall|i: int|
            0 <= i < items.len() ==> plain(#[trigger] items[i], (depth - 1) as nat),
        JsonView::Object(o) => depth > 0 && distinct_keys(o) && forall|i: int|
            0 <= i < o.len() ==> plain((#[trigger] o[i]).1, (depth - 1) as nat),
        _ => true,
    }
}

/// The last member of an object holds nothing but blanks: which they are.
pub open spec fn last_blanks(v: JsonView) -> Option<Seq<char>> {
    match v {
        JsonView::Object(o) => if o.len() > 0 && distinct_keys(o) {
            match o.last().1 {
                JsonView::String(p) => if forall|i: int| 0 <= i < p.len() ==> #[trigger] p[i] == ' ' {
                    Some(p)
                } else {
                    None
                },
                _ => None,
            }
        } else {
            None
        },
        _ => None,
    }
}

/// The object with its last member empty.
pub open spec fn unpadded(v: JsonView) -> JsonView {
    match v {
        JsonView::Object(o) => JsonView::Object(
            o.drop_last().push((o.last().0, JsonView::String(Seq::empty()))),
        ),
        _ => v,
    }
}

/// A text with blanks put before its last two characters.
pub open spec fn padded(s: Seq<char>, blanks: Seq<char>) -> Seq<char> {
    s.take(s.len() - 2) + blanks + s.skip(s.len() - 2)
}

/// `serde_json::to_string`: the compact text of a value, named [`compact`]. The text is one line,
/// that of an object starts with a brace, a plain value is parsed back from it, and blanks in the
/// last member of an object stand as they are between its last quote and brace and the rest.
#[verifier::external_body]
pub(crate) fn to_text(v: &Json) -> (r: String)
    ensures
        r@ == compact(v@),
        !r@.contains('\n'),
        v@ is Object ==> r@.len() >= 2 && r@[0] == '{',
        plain(v@, READ_DEPTH as nat) ==> parsed(r@) is Ok && parsed(r@)->Ok_0 == v@,
        last_blanks(v@) is Some ==> r@ == padded(compact(unpadded(v@)), last_blanks(v@).unwrap()),
        last_blanks(v@) is Some ==> r@.len() == compact(unpadded(v@)).len() + last_blanks(
            v@,
        ).unwrap().len(),
{
    to_serde(v).to_string()
}

/// `serde_json::to_string_pretty`: the indented text of a value, named [`pretty`].
#[verifier::external_body]
pub(crate) fn to_pretty_text(v: &Json) -> (r: String)
    ensures
        r@ == pretty(v@),
{
    serde_json::to_string_pretty(&to_serde(v)).unwrap_or_default()
}

// ------------------------------------------------------------------ copies

impl Clone for Number {
    fn clone(&self) -> (r: Number)
        ensures
            r@ == self@,
    {
        match self {
            Number::PosInt(n) => Number::PosInt(*n),
            Number::NegInt(n) => Number::NegInt(*n),
            Number::Float(s) => Number::Float(s.clone()),
        }
    }
}

impl Clone for Json {
    fn clone(&self) -> (r: Json)
        ensures
            r@ == self@,
        decreases self,
    {
        match self {
            Json::Null => Json::Null,
            Json::Bool(b) => Json::Bool(*b),
            Json::Number(n) => Json::Number(n.clone()),
            Json::String(s) => Json::String(s.clone()),
            Json::Array(a) => {
                let mut out: Vec<Json> = Vec::new();
                let mut i: usize = 0;
                while i < a.len()
                    invariant
                        i <= a@.len(),
                        out@.len() == i,
                        forall|j: int| 0 <= j < i ==> out@[j]@ == a@[j]@,
                        *self == Json::Array(*a),
                    decreases a@.len() - i,
                {
                    proof {
                        assert(decreases_to!(*self => self->Array_0));
                        assert(decreases_to!(a@ => a@[i as int]));
                    }
                    out.push(a[i].clone());
                    i += 1;
                }
                proof {
                    lemma_values_view(out);
                    lemma_values_view(*a);
                    assert(text::views(out@) =~= text::views(a@));
                }
                Json::Array(out)
            },
            Json::Object(o) => Json::Object(o.clone()),
        }
    }
}

impl Clone for JsonObject {
    fn clone(&self) -> (r: JsonObject)
        ensures
            r@ == self@,
        decreases self,
    {
        let mut entries: Vec<(String, Json)> = Vec::new();
        let mut i: usize = 0;
        while i < self.entries.len()
            invariant
                i <= self.entries@.len(),
                entries@.len() == i,
                forall|j: int|
                    0 <= j < i ==> entries@[j].0@ == self.entries@[j].0@ && entries@[j].1@
                        == self.entries@[j].1@,
            decreases self.entries@.len() - i,
        {
            proof {
                assert(decreases_to!(self.entries@ => self.entries@[i as int]));
                assert(decreases_to!(self.entries@[i as int] => self.entries@[i as int].1));
            }
            entries.push((self.entries[i].0.clone(), self.entries[i].1.clone()));
            i += 1;
        }
        let r = JsonObject { entries };
        assert(r@ =~= self@);
        r
    }
}

// ------------------------------------------------------------------ members of an object

/// The index of the first member named `key` at or after `from`.
pub open spec fn find_key(o: Entries, key: Seq<char>, from: int) -> Option<int>
    decreases o.len() - from,
{
    if from < 0 || from >= o.len() {
        None
    } else if o[from].0 == key {
        Some(from)
    } else {
        find_key(o, key, from + 1)
    }
}

/// The value of the member named `key`.
pub open spec fn lookup(o: Entries, key: Seq<char>) -> Option<JsonView> {
    match find_key(o, key, 0) {
        Some(i) => Some(o[i].1),
        None => None,
    }
}

/// The object with the member `key` set to `value`: in place where it is there, else at the end.
pub open spec fn with_member(o: Entries, key: Seq<char>, value: JsonView) -> Entries {
    match find_key(o, key, 0) {
        Some(i) => o.update(i, (key, value)),
        None => o.push((key, value)),
    }
}

/// The object without the member `key`: the last member takes its place.
pub open spec fn without_member(o: Entries, key: Seq<char>) -> Entries {
    match find_key(o, key, 0) {
        Some(i) => if i == o.len() - 1 { o.drop_last() } else { o.update(i, o.last()).drop_last() },
        None => o,
    }
}

/// No two members have the same name.
pub open spec fn distinct_keys(o: Entries) -> bool {
    forall|i: int, j: int| 0 <= i < j < o.len() ==> #[trigger] o[i].0 != #[trigger] o[j].0
}

/// No object in a value has two members of the same name, at any depth.
pub open spec fn distinct_within(v: JsonView) -> bool
    decreases v,
{
    match v {
        JsonView::Array(a) => forall|i: int| 0 <= i < a.len() ==> distinct_within(#[trigger] a[i]),
        JsonView::Object(o) => distinct_keys(o) && forall|i: int|
            0 <= i < o.len() ==> distinct_within((#[trigger] o[i]).1),
        _ => true,
    }
}

/// A found index holds the key, and nothing before it does.
pub proof fn lemma_find_key(o: Entries, key: Seq<char>, from: int)
    requires
        0 <= from,
    ensures
        match find_key(o, key, from) {
            Some(i) => from <= i < o.len() && o[i].0 == key && forall|j: int|
                from <= j < i ==> #[trigger] o[j].0 != key,
            None => forall|j: int| from <= j < o.len() ==> #[trigger] o[j].0 != key,
        },
    decreases o.len() - from,
{
    if from < o.len() && o[from].0 != key {
        lemma_find_key(o, key, from + 1);
    }
}

impl JsonObject {
    /// The empty object.
    pub fn new() -> (r: JsonObject)
        ensures
            r@ == Entries::empty(),
    {
        let r = JsonObject { entries: Vec::new() };
        assert(r@ =~= Entries::empty());
        r
    }

    /// Whether there is no member.
    pub fn is_empty(&self) -> (r: bool)
        ensures
            r == (self@.len() == 0),
    {
        self.entries.len() == 0
    }

    /// The index of the first member named `key`.
    pub fn find(&self, key: &str) -> (r: Option<usize>)
        ensures
            match r {
                Some(i) => find_key(self@, key@, 0) == Some(i as int) && i < self.entries@.len(),
                None => find_key(self@, key@, 0) is None,
            },
    {
        let mut i: usize = 0;
        while i < self.entries.len()
            invariant
                i <= self.entries@.len(),
                find_key(self@, key@, 0) == find_key(self@, key@, i as int),
            decreases self.entries@.len() - i,
        {
            if same_text(self.entries[i].0.as_str(), key) {
                return Some(i);
            }
            i += 1;
        }
        None
    }

    /// The value of the member named `key`.
    pub fn get(&self, key: &str) -> (r: Option<&Json>)
        ensures
            match r {
                Some(v) => lookup(self@, key@) == Some(v@),
                None => lookup(self@, key@) is None,
            },
    {
        match self.find(key) {
            Some(i) => Some(&self.entries[i].1),
            None => None,
        }
    }

    /// Whether there is a member named `key`.
    pub fn contains_key(&self, key: &str) -> (r: bool)
        ensures
            r == (lookup(self@, key@) is Some),
    {
        self.find(key).is_some()
    }

    /// Sets the member `key`: in place where it is there, else at the end.
    pub fn insert(&mut self, key: String, value: Json)
        ensures
            final(self)@ == with_member(old(self)@, key@, value@),
    {
        let ghost before = self@;
        proof {
            lemma_find_key(before, key@, 0);
        }
        match self.find(key.as_str()) {
            Some(i) => {
                self.entries.set(i, (key, value));
            },
            None => {
                self.entries.push((key, value));
            },
        }
        assert(self@ =~= with_member(before, key@, value@));
    }

    /// Removes the member `key`; the last member takes its place.
    pub fn remove(&mut self, key: &str)
        ensures
            final(self)@ == without_member(old(self)@, key@),
    {
        let ghost before = self@;
        proof {
            lemma_find_key(before, key@, 0);
        }
        match self.find(key) {
            Some(i) => {
                self.entries.swap_remove(i);
            },
            None => {},
        }
        assert(self@ =~= without_member(before, key@));
    }
}

// ------------------------------------------------------------------ reading values

/// The member `key` of a value: `None` where the value is no object.
pub open spec fn member(v: JsonView, key: Seq<char>) -> Option<JsonView> {
    match v {
        JsonView::Object(o) => lookup(o, key),
        _ => None,
    }
}

/// The element `i` of a value: `None` where the value is no array or has no such element.
pub open spec fn element(v: JsonView, i: int) -> Option<JsonView> {
    match v {
        JsonView::Array(a) => if 0 <= i < a.len() { Some(a[i]) } else { None },
        _ => None,
    }
}

/// The text of a string value.
pub open spec fn text_of(v: Option<JsonView>) -> Option<Seq<char>> {
    match v {
        Some(JsonView::String(s)) => Some(s),
        _ => None,
    }
}

/// The value as an integer that is not negative.
pub open spec fn uint_of(v: Option<JsonView>) -> Option<u64> {
    match v {
        Some(JsonView::Number(NumberView::PosInt(n))) => Some(n),
        _ => None,
    }
}

/// The elements of an array value.
pub open spec fn array_of(v: Option<JsonView>) -> Option<Seq<JsonView>> {
    match v {
        Some(JsonView::Array(a)) => Some(a),
        _ => None,
    }
}

/// The members of an object value.
pub open spec fn object_of(v: Option<JsonView>) -> Option<Entries> {
    match v {
        Some(JsonView::Object(o)) => Some(o),
        _ => None,
    }
}

/// The text of an optional value, where it is a string.
pub fn as_text(v: Option<&Json>) -> (r: Option<&str>)
    ensures
        text::opt_view(r) == text_of(text::opt_view(v)),
{
    match v {
        Some(Json::String(s)) => Some(s.as_str()),
        _ => None,
    }
}

/// The integer of an optional value, where it is one and not negative.
pub fn as_uint(v: Option<&Json>) -> (r: Option<u64>)
    ensures
        r == uint_of(text::opt_view(v)),
{
    match v {
        Some(Json::Number(Number::PosInt(n))) => Some(*n),
        _ => None,
    }
}

/// The elements of an optional value, where it is an array.
pub fn as_array(v: Option<&Json>) -> (r: Option<&Vec<Json>>)
    ensures
        match r {
            Some(a) => array_of(text::opt_view(v)) == Some(text::views(a@)),
            None => array_of(text::opt_view(v)) is None,
        },
{
    match v {
        Some(Json::Array(a)) => {
            proof {
                lemma_values_view(*a);
            }
            Some(a)
        },
        _ => None,
    }
}

/// The members of an optional value, where it is an object.
pub fn as_object(v: Option<&Json>) -> (r: Option<&JsonObject>)
    ensures
        text::opt_view(r) == object_of(text::opt_view(v)),
{
    match v {
        Some(Json::Object(o)) => Some(o),
        _ => None,
    }
}

impl Json {
    /// The member `key`: `None` where the value is no object.
    pub fn get(&self, key: &str) -> (r: Option<&Json>)
        ensures
            text::opt_view(r) == member(self@, key@),
            r is Some ==> decreases_to!(*self => *r.unwrap()),
    {
        match self {
            Json::Object(o) => match o.find(key) {
                Some(i) => {
                    proof {
                        assert(decreases_to!(*self => self->Object_0));
                        assert(decreases_to!(*o => o.entries));
                        assert(decreases_to!(o.entries@ => o.entries@[i as int]));
                        assert(decreases_to!(o.entries@[i as int] => o.entries@[i as int].1));
                    }
                    Some(&o.entries[i].1)
                },
                None => None,
            },
            _ => None,
        }
    }

    /// The element `i`: `None` where the value is no array or has no such element.
    pub fn at(&self, i: usize) -> (r: Option<&Json>)
        ensures
            text::opt_view(r) == element(self@, i as int),
    {
        match self {
            Json::Array(a) => {
                proof {
                    lemma_values_view(*a);
                }
                if i < a.len() {
                    Some(&a[i])
                } else {
                    None
                }
            },
            _ => None,
        }
    }

    /// Whether the value is an object.
    pub fn is_object(&self) -> (r: bool)
        ensures
            r == (self@ is Object),
    {
        matches!(self, Json::Object(_))
    }

    /// Whether the value is `null`.
    pub fn is_null(&self) -> (r: bool)
        ensures
            r == (self@ is Null),
    {
        matches!(self, Json::Null)
    }
}

/// The name of a value's kind.
pub open spec fn kind_name(v: JsonView) -> Seq<char> {
    match v {
        JsonView::Null => "null"@,
        JsonView::Bool(_) => "boolean"@,
        JsonView::Number(NumberView::Float(_)) => "number"@,
        JsonView::Number(_) => "integer"@,
        JsonView::String(_) => "string"@,
        JsonView::Array(_) => "array"@,
        JsonView::Object(_) => "object"@,
    }
}

/// The name of a value's kind.
pub fn json_kind(value: &Json) -> (r: &'static str)
    ensures
        r@ == kind_name(value@),
{
    match value {
        Json::Null => "null",
        Json::Bool(_) => "boolean",
        Json::Number(Number::Float(_)) => "number",
        Json::Number(_) => "integer",
        Json::String(_) => "string",
        Json::Array(_) => "array",
        Json::Object(_) => "object",
    }
}

impl Json {
    /// The value of a JSON text, or the message of the error.
    pub fn from_text(text: &str) -> (r: Result<Json, String>)
        ensures
            match r {
                Ok(v) => parsed(text@) == Ok::<JsonView, Seq<char>>(v@) && distinct_within(v@),
                Err(e) => parsed(text@) == Err::<JsonView, Seq<char>>(e@),
            },
    {
        parse(text)
    }

    /// The compact text of the value.
    pub fn text(&self) -> (r: String)
        ensures
            r@ == compact(self@),
    {
        to_text(self)
    }
}

// ------------------------------------------------------------------ streamed arguments

/// Where a scan of a JSON text stands.
#[verifier::ext_equal]
pub struct ScanView {
    /// The brackets that close what is open, innermost last.
    pub closers: Seq<char>,
    /// Inside a string.
    pub in_string: bool,
    /// Just behind a backslash inside a string.
    pub escaped: bool,
}

/// The scan after one more character.
pub open spec fn scan_step(s: ScanView, c: char) -> ScanView {
    if s.in_string {
        if s.escaped {
            ScanView { escaped: false, ..s }
        } else if c == '\\' {
            ScanView { escaped: true, ..s }
        } else if c == '"' {
            ScanView { in_string: false, ..s }
        } else {
            s
        }
    } else if c == '"' {
        ScanView { in_string: true, ..s }
    } else if c == '{' {
        ScanView { closers: s.closers.push('}'), ..s }
    } else if c == '[' {
        ScanView { closers: s.closers.push(']'), ..s }
    } else if (c == '}' || c == ']') && s.closers.len() > 0 {
        ScanView { closers: s.closers.drop_last(), ..s }
    } else {
        s
    }
}

/// The scan of the first `n` characters.
pub open spec fn scanned(s: Seq<char>, n: int) -> ScanView
    decreases n,
{
    if n <= 0 {
        ScanView { closers: Seq::empty(), in_string: false, escaped: false }
    } else {
        scan_step(scanned(s, n - 1), s[n - 1])
    }
}

/// A truncated JSON text with its string ended: without the backslash that escapes nothing.
pub open spec fn string_ended(s: Seq<char>, scan: ScanView) -> Seq<char> {
    if scan.in_string {
        (if scan.escaped {
            s.drop_last()
        } else {
            s
        }).push('"')
    } else {
        s
    }
}

/// The text without a comma at its end.
pub open spec fn without_comma(s: Seq<char>) -> Seq<char> {
    if s.len() > 0 && s.last() == ',' {
        s.drop_last()
    } else {
        s
    }
}

/// The text with a value behind a colon at its end.
pub open spec fn with_value(s: Seq<char>) -> Seq<char> {
    if s.len() > 0 && s.last() == ':' {
        s + "null"@
    } else {
        s
    }
}

/// A truncated JSON text with its open strings, arrays and objects closed.
pub open spec fn completed(s: Seq<char>) -> Seq<char> {
    let scan = scanned(s, s.len() as int);
    let body = text::trim_end(text::Space::Unicode, string_ended(s, scan));
    with_value(without_comma(body)) + scan.closers.reverse()
}

/// Closes the open strings, arrays and objects of a truncated JSON text.
pub fn complete_partial_json(input: &str) -> (r: String)
    ensures
        r@ == completed(input@),
{
    let v = text::to_chars(input);
    let mut closers: Vec<char> = Vec::new();
    let mut in_string = false;
    let mut escaped = false;
    let mut i: usize = 0;
    assert(closers@ =~= scanned(v@, 0).closers);
    while i < v.len()
        invariant
            i <= v@.len(),
            (ScanView { closers: closers@, in_string, escaped }) == scanned(v@, i as int),
            escaped ==> in_string && i > 0,
        decreases v@.len() - i,
    {
        let c = v[i];
        if in_string {
            if escaped {
                escaped = false;
            } else if c == '\\' {
                escaped = true;
            } else if c == '"' {
                in_string = false;
            }
        } else if c == '"' {
            in_string = true;
        } else if c == '{' {
            closers.push('}');
        } else if c == '[' {
            closers.push(']');
        } else if c == '}' || c == ']' {
            closers.pop();
        }
        i += 1;
        assert(closers@ =~= scanned(v@, i as int).closers);
    }
    let ghost scan = scanned(v@, v@.len() as int);
    let mut out = v;
    if in_string {
        if escaped {
            out.pop();
        }
        out.push('"');
    }
    assert(out@ =~= string_ended(v@, scan));
    let ended = text::from_chars(&out);
    let trimmed = text::trim_end_text(text::Space::Unicode, ended.as_str());
    let mut out = text::to_chars(trimmed.as_str());
    let ghost body = out@;
    if out.len() > 0 && out[out.len() - 1] == ',' {
        out.pop();
    }
    assert(out@ =~= without_comma(body));
    let ends_with_colon = out.len() > 0 && out[out.len() - 1] == ':';
    let mut result = text::from_chars(&out);
    if ends_with_colon {
        result.append("null");
    }
    let ghost head = result@;
    let mut n: usize = closers.len();
    assert(closers@.reverse().take(0) =~= Seq::empty());
    while n > 0
        invariant
            n <= closers@.len(),
            result@ =~= head + closers@.reverse().take(closers@.len() - n),
        decreases n,
    {
        n -= 1;
        result.push(closers[n]);
    }
    assert(closers@.reverse().take(closers@.len() as int) =~= closers@.reverse());
    result
}

/// The members where the outcome of a parse is an object, else none.
pub open spec fn object_or_none(r: Result<JsonView, Seq<char>>) -> Option<Entries> {
    match r {
        Ok(JsonView::Object(o)) => Some(o),
        _ => None,
    }
}

/// The best object for a JSON text that may be incomplete.
pub open spec fn streamed(partial: Seq<char>) -> Entries {
    let trimmed = text::trim_start(text::Space::Unicode, partial);
    if trimmed.len() == 0 {
        Seq::empty()
    } else {
        match object_or_none(parsed(trimmed)) {
            Some(o) => o,
            None => match object_or_none(parsed(completed(trimmed))) {
                Some(o) => o,
                None => Seq::empty(),
            },
        }
    }
}

/// The best object for a JSON text that may be incomplete: as it is where it parses, else with
/// its open ends closed, else empty.
pub fn parse_streaming_json(partial: &str) -> (r: JsonObject)
    ensures
        r@ == streamed(partial@),
        distinct_within(JsonView::Object(r@)),
{
    let trimmed = text::trim_start_text(text::Space::Unicode, partial);
    if trimmed.as_str().is_empty() {
        return JsonObject::new();
    }
    match parse(trimmed.as_str()) {
        Ok(Json::Object(o)) => {
            return o;
        },
        _ => {},
    }
    let completed = complete_partial_json(trimmed.as_str());
    match parse(completed.as_str()) {
        Ok(Json::Object(o)) => o,
        _ => JsonObject::new(),
    }
}

/// The arguments that stand for a text that is no JSON object.
pub open spec fn error_arguments(error: Seq<char>, raw: Seq<char>) -> Entries {
    seq![
        ("__parseError"@, JsonView::String(error)),
        ("__rawJson"@, JsonView::String(raw)),
    ]
}

/// The arguments that the outcome of a parse gives.
pub open spec fn arguments_of(r: Result<JsonView, Seq<char>>, raw: Seq<char>) -> Entries {
    match r {
        Ok(JsonView::Object(o)) => o,
        Ok(other) => error_arguments("expected a JSON object, got "@ + kind_name(other), raw),
        Err(e) => error_arguments(e, raw),
    }
}

/// The final arguments of a completed tool call.
pub open spec fn final_arguments(raw: Seq<char>) -> Entries {
    let trimmed = text::trim(text::Space::Unicode, raw);
    if trimmed.len() == 0 {
        Seq::empty()
    } else {
        arguments_of(parsed(trimmed), raw)
    }
}

fn parse_error_args(error: &str, raw: &str) -> (r: JsonObject)
    ensures
        r@ == error_arguments(error@, raw@),
        distinct_within(JsonView::Object(r@)),
{
    proof {
        reveal_strlit("__parseError");
        reveal_strlit("__rawJson");
        assert("__parseError"@.len() == 12 && "__rawJson"@.len() == 9);
    }
    let mut entries: Vec<(String, Json)> = Vec::new();
    entries.push(("__parseError".to_owned(), Json::String(error.to_owned())));
    entries.push(("__rawJson".to_owned(), Json::String(raw.to_owned())));
    let r = JsonObject { entries };
    assert(r@ =~= error_arguments(error@, raw@));
    assert(distinct_within(r@[0].1) && distinct_within(r@[1].1));
    r
}

/// The arguments that the outcome of a parse gives: the object, or the two members that say
/// what is wrong with the text and what it was.
pub fn arguments_from(outcome: Result<Json, String>, raw: &str) -> (r: JsonObject)
    ensures
        match outcome {
            Ok(v) => r@ == arguments_of(Ok(v@), raw@) && (distinct_within(v@) ==> distinct_within(
                JsonView::Object(r@),
            )),
            Err(e) => r@ == arguments_of(Err(e@), raw@) && distinct_within(JsonView::Object(r@)),
        },
{
    match outcome {
        Ok(Json::Object(o)) => o,
        Ok(other) => {
            let error = text::concat("expected a JSON object, got ", json_kind(&other));
            parse_error_args(error.as_str(), raw)
        },
        Err(e) => parse_error_args(e.as_str(), raw),
    }
}

/// The final arguments of a completed tool call, parsed strictly. A text that is no JSON object
/// becomes the members `__parseError` and `__rawJson`, so that a tool never runs on guessed
/// arguments.
pub fn parse_final_arguments(raw: &str) -> (r: JsonObject)
    ensures
        r@ == final_arguments(raw@),
        distinct_within(JsonView::Object(r@)),
{
    let trimmed = text::trim_text(text::Space::Unicode, raw);
    if trimmed.as_str().is_empty() {
        return JsonObject::new();
    }
    arguments_from(parse(trimmed.as_str()), raw)
}

// ------------------------------------------------------------------ equality

/// Whether the text of a float is that of zero, of either sign.
pub open spec fn is_zero_text(s: Seq<char>) -> bool {
    s == "0.0"@ || s == "-0.0"@
}

/// Whether two numbers are equal: integers by value, floats by value.
pub open spec fn same_number(a: NumberView, b: NumberView) -> bool {
    match (a, b) {
        (NumberView::Float(x), NumberView::Float(y)) => x == y || (is_zero_text(x)
            && is_zero_text(y)),
        _ => a == b,
    }
}

/// Whether two values are equal; the order of an object's members does not matter.
pub open spec fn same_value(a: JsonView, b: JsonView) -> bool
    decreases a,
{
    match (a, b) {
        (JsonView::Number(x), JsonView::Number(y)) => same_number(x, y),
        (JsonView::Array(x), JsonView::Array(y)) => x.len() == y.len() && forall|i: int|
            0 <= i < x.len() ==> same_value(#[trigger] x[i], y[i]),
        (JsonView::Object(x), JsonView::Object(y)) => x.len() == y.len() && forall|i: int|
            0 <= i < x.len() ==> same_member(#[trigger] x[i], y),
        _ => a == b,
    }
}

/// Whether an object has an equal member of the same name.
pub open spec fn same_member(m: (Seq<char>, JsonView), y: Entries) -> bool
    decreases m,
{
    match lookup(y, m.0) {
        Some(v) => same_value(m.1, v),
        None => false,
    }
}

pub(crate) fn numbers_equal(a: &Number, b: &Number) -> (r: bool)
    ensures
        r == same_number(a@, b@),
{
    match (a, b) {
        (Number::PosInt(x), Number::PosInt(y)) => *x == *y,
        (Number::NegInt(x), Number::NegInt(y)) => *x == *y,
        (Number::Float(x), Number::Float(y)) => {
            same_text(x.as_str(), y.as_str()) || ((same_text(x.as_str(), "0.0") || same_text(
                x.as_str(),
                "-0.0",
            )) && (same_text(y.as_str(), "0.0") || same_text(y.as_str(), "-0.0")))
        },
        _ => false,
    }
}

/// Whether two values are equal; the order of an object's members does not matter.
pub fn values_equal(a: &Json, b: &Json) -> (r: bool)
    ensures
        r == same_value(a@, b@),
    decreases a,
{
    match (a, b) {
        (Json::Null, Json::Null) => true,
        (Json::Bool(x), Json::Bool(y)) => *x == *y,
        (Json::Number(x), Json::Number(y)) => numbers_equal(x, y),
        (Json::String(x), Json::String(y)) => same_text(x.as_str(), y.as_str()),
        (Json::Array(x), Json::Array(y)) => {
            proof {
                lemma_values_view(*x);
                lemma_values_view(*y);
            }
            if x.len() != y.len() {
                return false;
            }
            let mut i: usize = 0;
            while i < x.len()
                invariant
                    i <= x@.len(),
                    x@.len() == y@.len(),
                    *a == Json::Array(*x),
                    a@ == JsonView::Array(text::views(x@)),
                    b@ == JsonView::Array(text::views(y@)),
                    forall|j: int|
                        0 <= j < i ==> same_value(#[trigger] text::views(x@)[j], text::views(y@)[j]),
                decreases x@.len() - i,
            {
                proof {
                    assert(decreases_to!(*a => a->Array_0));
                    assert(decreases_to!(x@ => x@[i as int]));
                }
                if !values_equal(&x[i], &y[i]) {
                    assert(!same_value(text::views(x@)[i as int], text::views(y@)[i as int]));
                    return false;
                }
                i += 1;
            }
            true
        },
        (Json::Object(x), Json::Object(y)) => {
            assert(a@ == JsonView::Object(x@) && b@ == JsonView::Object(y@));
            if x.entries.len() != y.entries.len() {
                assert(x@.len() != y@.len());
                return false;
            }
            let mut i: usize = 0;
            while i < x.entries.len()
                invariant
                    i <= x.entries@.len(),
                    x.entries@.len() == y.entries@.len(),
                    *a == Json::Object(*x),
                    a@ == JsonView::Object(x@),
                    b@ == JsonView::Object(y@),
                    forall|j: int| 0 <= j < i ==> same_member(#[trigger] x@[j], y@),
                decreases x.entries@.len() - i,
            {
                proof {
                    assert(decreases_to!(*a => a->Object_0));
                    assert(decreases_to!(*x => x.entries));
                    assert(decreases_to!(x.entries@ => x.entries@[i as int]));
                    assert(decreases_to!(x.entries@[i as int] => x.entries@[i as int].1));
                }
                let same = match y.get(x.entries[i].0.as_str()) {
                    Some(v) => values_equal(&x.entries[i].1, v),
                    None => false,
                };
                if !same {
                    assert(!same_member(x@[i as int], y@));
                    return false;
                }
                i += 1;
            }
            true
        },
        _ => false,
    }
}

// ------------------------------------------------------------------ parts are smaller

/// A member is smaller than its value.
pub proof fn lemma_member_smaller(v: JsonView, key: Seq<char>)
    ensures
        match member(v, key) {
            Some(m) => decreases_to!(v => m),
            None => true,
        },
{
    match v {
        JsonView::Object(o) => {
            lemma_find_key(o, key, 0);
            match find_key(o, key, 0) {
                Some(i) => {
                    assert(decreases_to!(v => v->Object_0));
                    assert(decreases_to!(o => o[i]));
                    assert(decreases_to!(o[i] => o[i].1));
                },
                None => {},
            }
        },
        _ => {},
    }
}

// ------------------------------------------------------------------ building values

/// An object with one member.
pub fn object_1(a: &str, x: Json) -> (r: Json)
    ensures
        r@ == JsonView::Object(seq![(a@, x@)]),
{
    let mut entries: Vec<(String, Json)> = Vec::new();
    entries.push((a.to_owned(), x));
    let o = JsonObject { entries };
    assert(o@ =~= seq![(a@, x@)]);
    Json::Object(o)
}

/// An object with two members.
pub fn object_2(a: &str, x: Json, b: &str, y: Json) -> (r: Json)
    ensures
        r@ == JsonView::Object(seq![(a@, x@), (b@, y@)]),
{
    let mut entries: Vec<(String, Json)> = Vec::new();
    entries.push((a.to_owned(), x));
    entries.push((b.to_owned(), y));
    let o = JsonObject { entries };
    assert(o@ =~= seq![(a@, x@), (b@, y@)]);
    Json::Object(o)
}

/// An object with three members.
pub fn object_3(a: &str, x: Json, b: &str, y: Json, c: &str, z: Json) -> (r: Json)
    ensures
        r@ == JsonView::Object(seq![(a@, x@), (b@, y@), (c@, z@)]),
{
    let mut entries: Vec<(String, Json)> = Vec::new();
    entries.push((a.to_owned(), x));
    entries.push((b.to_owned(), y));
    entries.push((c.to_owned(), z));
    let o = JsonObject { entries };
    assert(o@ =~= seq![(a@, x@), (b@, y@), (c@, z@)]);
    Json::Object(o)
}

/// A member that was set reads back as what was set, the other members stay, and the names stay
/// distinct.
pub proof fn law_set_members_read_back(
    o: Entries,
    key: Seq<char>,
    value: JsonView,
    other: Seq<char>,
)
    requires
        distinct_keys(o),
    ensures
        distinct_keys(with_member(o, key, value)),
        lookup(with_member(o, key, value), key) == Some(value),
        other != key ==> lookup(with_member(o, key, value), other) == lookup(o, other),
{
    let n = with_member(o, key, value);
    lemma_find_key(o, key, 0);
    lemma_find_key(n, key, 0);
    lemma_find_key(o, other, 0);
    lemma_find_key(n, other, 0);
    if find_key(o, key, 0) is None {
        assert(n[o.len() as int].0 == key);
    } else {
        assert(n[find_key(o, key, 0).unwrap()].0 == key);
    }
    if other != key && find_key(o, other, 0) is Some {
        assert(n[find_key(o, other, 0).unwrap()] == o[find_key(o, other, 0).unwrap()]);
    }
    if other != key && find_key(n, other, 0) is Some {
        assert(n[find_key(n, other, 0).unwrap()] == o[find_key(n, other, 0).unwrap()]);
    }
}

/// A member that was removed is gone, and the names stay distinct.
pub proof fn law_removed_members_are_gone(o: Entries, key: Seq<char>)
    requires
        distinct_keys(o),
    ensures
        distinct_keys(without_member(o, key)),
        lookup(without_member(o, key), key) is None,
{
    let n = without_member(o, key);
    lemma_find_key(o, key, 0);
    lemma_find_key(n, key, 0);
}

} // verus!
