//! YAML frontmatter of Markdown texts.
use crate::js;
use crate::json;
use crate::json::{Entries, Json, JsonObject, JsonView};
use crate::text;
use crate::text::{is_at, slice_string, split_text, to_chars, Space};
use crate::yaml;
use crate::yaml::parse_yaml;
use vstd::prelude::*;

verus! {

/// What happens with frontmatter that is no YAML.
#[derive(Clone, Copy, Debug, PartialEq, Eq, Structural)]
pub enum FailureLevel {
    /// It is read line by line.
    Off,
    /// It is read line by line, with a warning.
    Warn,
    /// The error is returned.
    Fatal,
}

/// How frontmatter is read.
#[derive(Debug)]
pub struct FrontmatterOptions {
    /// Where the text came from, for messages.
    pub source: Option<String>,
    /// The members to start with.
    pub fallback: JsonObject,
    /// Whether `\r\n` and `\r` become `\n`.
    pub normalize: bool,
    pub level: FailureLevel,
    /// Whether comments go, tabs become blanks and ambiguous plain scalars are quoted.
    pub repair: bool,
    /// Whether keys stay as they are instead of turning into camel case.
    pub raw_keys: bool,
}

/// What [`FrontmatterOptions`] stand for.
#[verifier::ext_equal]
pub struct FrontmatterOptionsView {
    pub source: Option<Seq<char>>,
    pub fallback: Entries,
    pub normalize: bool,
    pub level: FailureLevel,
    pub repair: bool,
    pub raw_keys: bool,
}

impl View for FrontmatterOptions {
    type V = FrontmatterOptionsView;

    open spec fn view(&self) -> FrontmatterOptionsView {
        FrontmatterOptionsView {
            source: text::opt_view(self.source),
            fallback: self.fallback@,
            normalize: self.normalize,
            level: self.level,
            repair: self.repair,
            raw_keys: self.raw_keys,
        }
    }
}

/// The options that hold where none are given.
pub open spec fn default_options() -> FrontmatterOptionsView {
    FrontmatterOptionsView {
        source: None,
        fallback: Seq::empty(),
        normalize: true,
        level: FailureLevel::Warn,
        repair: true,
        raw_keys: false,
    }
}

impl Default for FrontmatterOptions {
    fn default() -> (r: FrontmatterOptions)
        ensures
            r@ == default_options(),
    {
        FrontmatterOptions {
            source: None,
            fallback: JsonObject::new(),
            normalize: true,
            level: FailureLevel::Warn,
            repair: true,
            raw_keys: false,
        }
    }
}

/// The members of the frontmatter and the text behind it.
#[derive(Debug, PartialEq)]
pub struct Frontmatter {
    pub frontmatter: JsonObject,
    pub body: String,
    /// What was wrong with frontmatter that had to be read line by line.
    pub warning: Option<String>,
}

/// What a [`Frontmatter`] stands for.
#[verifier::ext_equal]
pub struct FrontmatterView {
    pub frontmatter: Entries,
    pub body: Seq<char>,
    pub warning: Option<Seq<char>>,
}

impl View for Frontmatter {
    type V = FrontmatterView;

    open spec fn view(&self) -> FrontmatterView {
        FrontmatterView {
            frontmatter: self.frontmatter@,
            body: self.body@,
            warning: text::opt_view(self.warning),
        }
    }
}

// ------------------------------------------------------------------ where it stands

/// A text with `\n` for every line end.
pub open spec fn with_line_feeds(s: Seq<char>) -> Seq<char> {
    text::replaced(text::replaced(s, "\r\n"@, "\n"@), "\r"@, "\n"@)
}

fn line_feeds(s: &str) -> (r: String)
    ensures
        r@ == with_line_feeds(s@),
{
    proof {
        reveal_strlit("\r\n");
        reveal_strlit("\r");
        assert("\r\n"@.len() == 2 && "\r"@.len() == 1);
    }
    let first = text::replace_text(s, "\r\n", "\n");
    text::replace_text(&first, "\r", "\n")
}

/// The text from `i` on without its comments.
pub open spec fn uncommented_from(s: Seq<char>, i: int) -> Seq<char>
    decreases s.len() - i,
    via uncommented_ends
{
    if i < 0 || i >= s.len() {
        Seq::empty()
    } else if text::stands_at(s, i, "<!--"@) {
        match text::find_text(s, "-->"@, i + 4) {
            Some(j) => uncommented_from(s, j + 3),
            None => s.skip(i),
        }
    } else {
        seq![s[i]] + uncommented_from(s, i + 1)
    }
}

#[via_fn]
proof fn uncommented_ends(s: Seq<char>, i: int) {
    reveal_strlit("-->");
    assert("-->"@.len() == 3);
    if 0 <= i {
        text::lemma_find_text(s, "-->"@, i + 4);
    }
}

/// A text without its comments.
pub open spec fn uncommented(s: Seq<char>) -> Seq<char> {
    uncommented_from(s, 0)
}

fn without_comments(s: &str) -> (r: String)
    ensures
        r@ == uncommented(s@),
{
    proof {
        reveal_strlit("<!--");
        reveal_strlit("-->");
        assert("<!--"@.len() == 4 && "-->"@.len() == 3);
    }
    let v = to_chars(s);
    let n: usize = v.len();
    let mut out: Vec<char> = Vec::new();
    let mut i: usize = 0;
    assert(out@ + uncommented_from(v@, 0) =~= uncommented(v@));
    while i < n
        invariant
            i <= n,
            n == v@.len(),
            v@ == s@,
            "<!--"@.len() == 4,
            "-->"@.len() == 3,
            out@ + uncommented_from(v@, i as int) == uncommented(s@),
        decreases n - i,
    {
        if is_at(&v, i, "<!--") {
            proof {
                text::lemma_find_text(v@, "-->"@, i as int + 4);
            }
            match text::find_text_at(&v, "-->", i + 4) {
                Some(j) => {
                    i = j + 3;
                },
                None => {
                    let mut all = text::from_chars(&out);
                    let rest = slice_string(&v, i, n);
                    assert(rest@ =~= v@.skip(i as int));
                    all.append(&rest);
                    return all;
                },
            }
        } else {
            assert(out@ + uncommented_from(v@, i as int) =~= out@.push(v@[i as int])
                + uncommented_from(v@, i as int + 1));
            out.push(v[i]);
            i += 1;
        }
    }
    assert(out@ + uncommented_from(v@, i as int) =~= out@);
    text::from_chars(&out)
}

/// The text whose frontmatter is looked for.
pub open spec fn prepared(content: Seq<char>, normalize: bool, repair: bool) -> Seq<char> {
    let lines = if normalize { with_line_feeds(content) } else { content };
    if normalize && repair {
        uncommented(lines)
    } else {
        lines
    }
}

/// Where the line starts that ends the frontmatter: its line feed.
pub open spec fn frontmatter_end(s: Seq<char>) -> Option<int> {
    if text::stands_at(s, 0, "---"@) {
        text::find_text(s, "\n---"@, 3)
    } else {
        None
    }
}

/// The frontmatter that ends at `end`: what stands behind the dashes and one more character.
pub open spec fn metadata_of(s: Seq<char>, end: int) -> Seq<char> {
    if end >= 4 {
        s.subrange(4, end)
    } else {
        Seq::empty()
    }
}

/// The text behind frontmatter that ends at `end`.
pub open spec fn body_of(s: Seq<char>, end: int) -> Seq<char> {
    text::trim(Space::Js, s.skip(end + 4))
}

/// A text and, where it has frontmatter, that.
#[derive(Debug, PartialEq)]
pub struct SplitText {
    pub metadata: Option<String>,
    pub body: String,
}

/// The frontmatter of a text, where it has any, and the rest.
pub open spec fn parts_of(content: Seq<char>, normalize: bool, repair: bool) -> (
    Option<Seq<char>>,
    Seq<char>,
) {
    let s = prepared(content, normalize, repair);
    match frontmatter_end(s) {
        Some(end) => (Some(metadata_of(s, end)), body_of(s, end)),
        None => (None, s),
    }
}

/// The frontmatter of a text, where it has any, and the rest.
pub fn split_frontmatter(content: &str, normalize: bool, repair: bool) -> (r: SplitText)
    ensures
        (text::opt_view(r.metadata), r.body@) == parts_of(content@, normalize, repair),
{
    proof {
        reveal_strlit("---");
        reveal_strlit("\n---");
        assert("---"@.len() == 3 && "\n---"@.len() == 4);
    }
    let lines = if normalize { line_feeds(content) } else { content.to_string() };
    let s = if normalize && repair { without_comments(&lines) } else { lines };
    let v = to_chars(&s);
    let n: usize = v.len();
    if !is_at(&v, 0, "---") {
        return SplitText { metadata: None, body: s };
    }
    proof {
        text::lemma_find_text(v@, "\n---"@, 3);
    }
    match text::find_text_at(&v, "\n---", 3) {
        None => SplitText { metadata: None, body: s },
        Some(end) => {
            let metadata = if end >= 4 {
                slice_string(&v, 4, end)
            } else {
                let none = String::new();
                assert(none@ =~= Seq::empty());
                none
            };
            let rest = slice_string(&v, end + 4, n);
            assert(rest@ =~= s@.skip(end as int + 4));
            SplitText { metadata: Some(metadata), body: js::trim(&rest) }
        },
    }
}

// ------------------------------------------------------------------ keys

/// A lower case letter of ASCII.
pub open spec fn is_lower(c: char) -> bool {
    'a' <= c && c <= 'z'
}

/// The name from `i` on, with every `-` and letter turned into the capital letter.
pub open spec fn camel_from(s: Seq<char>, i: int) -> Seq<char>
    decreases s.len() - i,
{
    if i < 0 || i >= s.len() {
        Seq::empty()
    } else if s[i] == '-' && i + 1 < s.len() && is_lower(s[i + 1]) {
        seq![text::upper_char(s[i + 1])] + camel_from(s, i + 2)
    } else {
        seq![s[i]] + camel_from(s, i + 1)
    }
}

/// A name in camel case.
pub open spec fn camel(s: Seq<char>) -> Seq<char> {
    camel_from(s, 0)
}

fn upper_letter(c: char) -> (r: char)
    requires
        is_lower(c),
    ensures
        r == text::upper_char(c),
{
    ((c as u8) - 32) as char
}

/// A name in camel case.
pub fn kebab_to_camel(key: &str) -> (r: String)
    ensures
        r@ == camel(key@),
{
    let v = to_chars(key);
    let n: usize = v.len();
    let mut out: Vec<char> = Vec::new();
    let mut i: usize = 0;
    assert(out@ + camel_from(v@, 0) =~= camel(v@));
    while i < n
        invariant
            i <= n,
            n == v@.len(),
            out@ + camel_from(v@, i as int) == camel(v@),
        decreases n - i,
    {
        let ghost before = out@;
        if v[i] == '-' && i + 1 < n && 'a' <= v[i + 1] && v[i + 1] <= 'z' {
            let c = v[i + 1];
            out.push(upper_letter(c));
            assert(before + camel_from(v@, i as int) =~= out@ + camel_from(v@, i as int + 2));
            i += 2;
        } else {
            out.push(v[i]);
            assert(before + camel_from(v@, i as int) =~= out@ + camel_from(v@, i as int + 1));
            i += 1;
        }
    }
    assert(out@ + camel_from(v@, i as int) =~= out@);
    text::from_chars(&out)
}

/// The members set one after the other.
pub open spec fn set_all(o: Entries, more: Entries) -> Entries
    decreases more.len(),
{
    if more.len() == 0 {
        o
    } else {
        json::with_member(set_all(o, more.drop_last()), more.last().0, more.last().1)
    }
}

/// A value with the names of its members in camel case.
pub open spec fn camel_value(v: JsonView) -> JsonView
    decreases v, 1nat,
{
    match v {
        JsonView::Array(items) => JsonView::Array(camel_items(items)),
        JsonView::Object(o) => JsonView::Object(set_all(Seq::empty(), camel_members(o))),
        _ => v,
    }
}

/// The values with the names of their members in camel case.
pub open spec fn camel_items(items: Seq<JsonView>) -> Seq<JsonView>
    decreases items, 0nat,
{
    Seq::new(
        items.len(),
        |i: int|
            if 0 <= i < items.len() {
                camel_value(items[i])
            } else {
                JsonView::Null
            },
    )
}

/// The members with their names in camel case.
pub open spec fn camel_members(o: Entries) -> Entries
    decreases o, 0nat,
{
    Seq::new(
        o.len(),
        |i: int|
            if 0 <= i < o.len() {
                (camel(o[i].0), camel_value(o[i].1))
            } else {
                (Seq::empty(), JsonView::Null)
            },
    )
}

/// A value with the names of its members in camel case.
pub fn normalize_frontmatter_keys(v: &Json) -> (r: Json)
    ensures
        r@ == camel_value(v@),
    decreases v, 1nat,
{
    match v {
        Json::Array(items) => {
            let r = normalize_items(items);
            proof {
                json::lemma_values_view(*items);
                json::lemma_values_view(r);
            }
            Json::Array(r)
        },
        Json::Object(o) => Json::Object(normalize_members(o)),
        _ => v.clone(),
    }
}

fn normalize_items(items: &Vec<Json>) -> (r: Vec<Json>)
    ensures
        text::views(r@) == camel_items(text::views(items@)),
    decreases items, 0nat,
{
    let mut out: Vec<Json> = Vec::new();
    let mut i: usize = 0;
    while i < items.len()
        invariant
            i <= items@.len(),
            out@.len() == i,
            forall|j: int| 0 <= j < i ==> (#[trigger] out@[j])@ == camel_value(items@[j]@),
        decreases items@.len() - i,
    {
        assert(decreases_to!(items => items@[i as int]));
        out.push(normalize_frontmatter_keys(&items[i]));
        i += 1;
    }
    assert(text::views(out@) =~= camel_items(text::views(items@)));
    out
}

fn normalize_members(o: &JsonObject) -> (r: JsonObject)
    ensures
        r@ == set_all(Seq::empty(), camel_members(o@)),
    decreases o, 0nat,
{
    let ghost all = camel_members(o@);
    let mut out = JsonObject::new();
    let mut i: usize = 0;
    assert(all.take(0) =~= Entries::empty());
    while i < o.entries.len()
        invariant
            i <= o.entries@.len(),
            all == camel_members(o@),
            all.len() == o.entries@.len(),
            out@ == set_all(Seq::empty(), all.take(i as int)),
        decreases o.entries@.len() - i,
    {
        proof {
            assert(all.take(i as int + 1).drop_last() =~= all.take(i as int));
            assert(all.take(i as int + 1).last() == all[i as int]);
            assert(o@[i as int] == (o.entries@[i as int].0@, o.entries@[i as int].1@));
            assert(decreases_to!(o => o.entries@[i as int].1));
        }
        let name = kebab_to_camel(&o.entries[i].0);
        let value = normalize_frontmatter_keys(&o.entries[i].1);
        out.insert(name, value);
        i += 1;
    }
    assert(all.take(i as int) =~= all);
    out
}

/// The members as they are handed out.
pub open spec fn finalized(o: Entries, raw_keys: bool) -> Entries {
    if raw_keys {
        o
    } else {
        set_all(Seq::empty(), camel_members(o))
    }
}

fn finalize(o: JsonObject, raw_keys: bool) -> (r: JsonObject)
    ensures
        r@ == finalized(o@, raw_keys),
{
    if raw_keys {
        o
    } else {
        normalize_members(&o)
    }
}

/// The members that were read, set on those to start with.
pub fn with_loaded(options: &FrontmatterOptions, loaded: &JsonObject) -> (r: JsonObject)
    ensures
        r@ == finalized(set_all(options@.fallback, loaded@), options@.raw_keys),
{
    let ghost all = loaded@;
    let mut out = options.fallback.clone();
    let ghost before = out@;
    let mut i: usize = 0;
    assert(all.take(0) =~= Entries::empty());
    while i < loaded.entries.len()
        invariant
            i <= loaded.entries@.len(),
            all == loaded@,
            out@ == set_all(before, all.take(i as int)),
        decreases loaded.entries@.len() - i,
    {
        proof {
            assert(all.take(i as int + 1).drop_last() =~= all.take(i as int));
            assert(all.take(i as int + 1).last() == all[i as int]);
        }
        out.insert(loaded.entries[i].0.clone(), loaded.entries[i].1.clone());
        i += 1;
    }
    assert(all.take(i as int) =~= all);
    finalize(out, options.raw_keys)
}

// ------------------------------------------------------------------ lines

/// A character that ends a line.
pub open spec fn ends_line(c: char) -> bool {
    c == '\n' || c == '\r' || c == '\u{2028}' || c == '\u{2029}'
}

/// No character ends a line.
pub open spec fn on_one_line(s: Seq<char>) -> bool {
    forall|i: int| 0 <= i < s.len() ==> !ends_line(#[trigger] s[i])
}

/// A letter of ASCII or `_`.
pub open spec fn starts_word(c: char) -> bool {
    ('A' <= c && c <= 'Z') || ('a' <= c && c <= 'z') || c == '_'
}

/// A letter or digit of ASCII, `_` or `-`.
pub open spec fn in_word(c: char) -> bool {
    starts_word(c) || ('0' <= c && c <= '9') || c == '-'
}

/// The first index from `i` on where no blank stands.
pub open spec fn blanks_end(s: Seq<char>, i: int) -> int
    decreases s.len() - i,
{
    if 0 <= i < s.len() && text::is_space(Space::Js, s[i]) {
        blanks_end(s, i + 1)
    } else {
        i
    }
}

/// The first index from `i` on where a word ends.
pub open spec fn word_end(s: Seq<char>, i: int) -> int
    decreases s.len() - i,
{
    if 0 <= i < s.len() && in_word(s[i]) {
        word_end(s, i + 1)
    } else {
        i
    }
}

fn one_line(v: &Vec<char>, from: usize) -> (r: bool)
    requires
        from <= v@.len(),
    ensures
        r == on_one_line(v@.skip(from as int)),
{
    let mut i: usize = from;
    let ghost rest = v@.skip(from as int);
    while i < v.len()
        invariant
            from <= i <= v@.len(),
            rest == v@.skip(from as int),
            forall|j: int| 0 <= j < i - from ==> !ends_line(#[trigger] rest[j]),
        decreases v@.len() - i,
    {
        let c = v[i];
        if c == '\n' || c == '\r' || c == '\u{2028}' || c == '\u{2029}' {
            assert(ends_line(rest[i - from]));
            return false;
        }
        i += 1;
    }
    true
}

fn skip_blanks(v: &Vec<char>, from: usize) -> (r: usize)
    requires
        from <= v@.len(),
    ensures
        r == blanks_end(v@, from as int),
        from <= r <= v@.len(),
{
    let mut i: usize = from;
    while i < v.len() && js::is_space(v[i])
        invariant
            from <= i <= v@.len(),
            blanks_end(v@, from as int) == blanks_end(v@, i as int),
        decreases v@.len() - i,
    {
        i += 1;
    }
    i
}

fn is_word_char(c: char) -> (r: bool)
    ensures
        r == in_word(c),
{
    ('A' <= c && c <= 'Z') || ('a' <= c && c <= 'z') || c == '_' || ('0' <= c && c <= '9') || c
        == '-'
}

fn skip_word(v: &Vec<char>, from: usize) -> (r: usize)
    requires
        from <= v@.len(),
    ensures
        r == word_end(v@, from as int),
        from <= r <= v@.len(),
{
    let mut i: usize = from;
    while i < v.len() && is_word_char(v[i])
        invariant
            from <= i <= v@.len(),
            word_end(v@, from as int) == word_end(v@, i as int),
        decreases v@.len() - i,
    {
        i += 1;
    }
    i
}

/// Where the value of a `key: value` line starts and ends; nothing where the line is none.
pub open spec fn plain_scalar(line: Seq<char>) -> Option<(int, int)> {
    let a = blanks_end(line, 0);
    let b = word_end(line, a + 1);
    let c = blanks_end(line, b + 1);
    let value = text::trim_end(Space::Js, line.skip(c));
    if a < line.len() && starts_word(line[a]) && b < line.len() && line[b] == ':' && b + 1 < c
        && c < line.len() && on_one_line(value) {
        Some((c, c + value.len()))
    } else {
        None
    }
}

/// A character that a quoted or structured value starts with.
pub open spec fn starts_structure(c: char) -> bool {
    c == '"' || c == '\'' || c == '[' || c == '{' || c == '|' || c == '>' || c == '!' || c == '&'
        || c == '*' || c == '#'
}

/// Whether a plain value holds a colon and a blank.
pub open spec fn is_ambiguous(value: Seq<char>) -> bool {
    text::find_text(value, ": "@, 0) is Some && !starts_structure(value[0])
}

/// The line with its ambiguous plain value in quotes; nothing where it has none.
pub open spec fn quoted_line(line: Seq<char>) -> Option<Seq<char>> {
    match plain_scalar(line) {
        Some((c, d)) => {
            let value = line.subrange(c, d);
            if is_ambiguous(value) {
                Some(line.take(c) + json::compact(JsonView::String(value)) + line.skip(d))
            } else {
                None
            }
        },
        None => None,
    }
}

/// The line with its ambiguous plain value, if any, in quotes.
pub open spec fn requoted(line: Seq<char>) -> Seq<char> {
    match quoted_line(line) {
        Some(q) => q,
        None => line,
    }
}

/// Whether any line has an ambiguous plain value.
pub open spec fn any_ambiguous(lines: Seq<Seq<char>>) -> bool {
    exists|i: int| 0 <= i < lines.len() && quoted_line(#[trigger] lines[i]) is Some
}

/// The text with its ambiguous plain values in quotes; nothing where it has none.
pub open spec fn quoted(metadata: Seq<char>) -> Option<Seq<char>> {
    let lines = text::split(metadata, '\n');
    if any_ambiguous(lines) {
        Some(text::join(lines.map_values(|l: Seq<char>| requoted(l)), seq!['\n']))
    } else {
        None
    }
}

fn quote_line(line: &str) -> (r: Option<String>)
    ensures
        text::opt_view(r) == quoted_line(line@),
{
    proof {
        reveal_strlit(": ");
        assert(": "@.len() == 2);
    }
    let v = to_chars(line);
    let n: usize = v.len();
    let a: usize = skip_blanks(&v, 0);
    if a >= n {
        return None;
    }
    let first = v[a];
    if !(('A' <= first && first <= 'Z') || ('a' <= first && first <= 'z') || first == '_') {
        return None;
    }
    let b: usize = skip_word(&v, a + 1);
    if b >= n || v[b] != ':' {
        return None;
    }
    let c: usize = skip_blanks(&v, b + 1);
    if c <= b + 1 || c >= n {
        return None;
    }
    let rest = slice_string(&v, c, n);
    assert(rest@ =~= line@.skip(c as int));
    let value = js::trim_end(&rest);
    proof {
        text::lemma_trim_end(Space::Js, rest@);
    }
    let w = to_chars(&value);
    let m: usize = w.len();
    assert(w@.skip(0) =~= w@);
    if !one_line(&w, 0) {
        return None;
    }
    let d: usize = c + m;
    assert(value@ =~= line@.subrange(c as int, d as int));
    if text::find_text_at(&w, ": ", 0).is_none() {
        return None;
    }
    proof {
        text::lemma_find_text(w@, ": "@, 0);
    }
    let c0 = w[0];
    if c0 == '"' || c0 == '\'' || c0 == '[' || c0 == '{' || c0 == '|' || c0 == '>' || c0 == '!' || c0
        == '&' || c0 == '*' || c0 == '#' {
        return None;
    }
    let mut out = slice_string(&v, 0, c);
    assert(out@ =~= line@.take(c as int));
    let held = Json::String(value);
    out.append(&json::to_text(&held));
    let tail = slice_string(&v, d, n);
    assert(tail@ =~= line@.skip(d as int));
    out.append(&tail);
    Some(out)
}

/// The text with its ambiguous plain values in quotes; nothing where it has none.
pub fn quote_ambiguous_plain_scalars(metadata: &str) -> (r: Option<String>)
    ensures
        text::opt_view(r) == quoted(metadata@),
{
    proof {
        reveal_strlit("\n");
        assert("\n"@ =~= seq!['\n']);
    }
    let lines = split_text(metadata, '\n');
    let ghost all = text::split(metadata@, '\n');
    let ghost done = all.map_values(|l: Seq<char>| requoted(l));
    let mut out: Vec<String> = Vec::new();
    let mut changed = false;
    let mut i: usize = 0;
    while i < lines.len()
        invariant
            i <= lines@.len(),
            text::views(lines@) == all,
            done == all.map_values(|l: Seq<char>| requoted(l)),
            text::views(out@) == done.take(i as int),
            changed == (exists|j: int| 0 <= j < i && quoted_line(#[trigger] all[j]) is Some),
        decreases lines@.len() - i,
    {
        let ghost before = out@;
        assert(all[i as int] == lines@[i as int]@);
        match quote_line(&lines[i]) {
            Some(q) => {
                changed = true;
                assert(quoted_line(all[i as int]) is Some);
                out.push(q);
            },
            None => {
                out.push(lines[i].clone());
            },
        }
        proof {
            assert(text::views(out@) =~= text::views(before).push(done[i as int]));
            assert(done.take(i as int + 1) =~= done.take(i as int).push(done[i as int]));
        }
        i += 1;
    }
    assert(done.take(i as int) =~= done);
    if changed {
        Some(text::join_strings(&out, "\n"))
    } else {
        assert(!any_ambiguous(all));
        None
    }
}

/// The name and the raw value of a `key: value` line; nothing where the line is none.
pub open spec fn fallback_parts(line: Seq<char>) -> Option<(Seq<char>, Seq<char>)> {
    let b = word_end(line, 0);
    let c = blanks_end(line, b + 1);
    if b > 0 && b < line.len() && line[b] == ':' && on_one_line(line.skip(c)) {
        Some((line.take(b), text::trim(Space::Js, line.skip(c))))
    } else {
        None
    }
}

fn split_fallback(line: &str) -> (r: Option<(String, String)>)
    ensures
        match r {
            Some((k, v)) => fallback_parts(line@) == Some((k@, v@)),
            None => fallback_parts(line@) is None,
        },
{
    let v = to_chars(line);
    let n: usize = v.len();
    let b: usize = skip_word(&v, 0);
    if b == 0 || b >= n || v[b] != ':' {
        return None;
    }
    let c: usize = skip_blanks(&v, b + 1);
    if !one_line(&v, c) {
        return None;
    }
    let key = slice_string(&v, 0, b);
    let rest = slice_string(&v, c, n);
    assert(key@ =~= line@.take(b as int));
    assert(rest@ =~= line@.skip(c as int));
    Some((key, js::trim(&rest)))
}

/// The value of a line, given what its text alone reads as: a text where that is nothing or
/// holds members.
pub open spec fn line_value(raw: Seq<char>, read: Result<JsonView, Seq<char>>) -> JsonView {
    match read {
        Ok(v) => if raw.len() > 0 && !(v is Null) && !(v is Object) {
            v
        } else {
            JsonView::String(raw)
        },
        Err(_) => JsonView::String(raw),
    }
}

/// The outcome of a reading, by what it stands for.
pub open spec fn outcome(r: Result<Json, String>) -> Result<JsonView, Seq<char>> {
    match r {
        Ok(v) => Ok(v@),
        Err(e) => Err(e@),
    }
}

/// The value of a line, given what its text alone reads as.
pub fn fallback_value(raw: &str, read: Result<Json, String>) -> (r: Json)
    ensures
        r@ == line_value(raw@, outcome(read)),
{
    match read {
        Ok(v) => if to_chars(raw).len() > 0 && !v.is_null() && !v.is_object() {
            v
        } else {
            Json::String(raw.to_string())
        },
        Err(_) => Json::String(raw.to_string()),
    }
}

/// What a text reads as.
pub open spec fn read_yaml(source: Seq<char>) -> Result<JsonView, Seq<char>> {
    yaml::yaml_value(yaml::yaml_stream(source))
}

/// The members with those of the lines.
pub open spec fn with_lines(o: Entries, lines: Seq<Seq<char>>) -> Entries
    decreases lines.len(),
{
    if lines.len() == 0 {
        o
    } else {
        let have = with_lines(o, lines.drop_last());
        match fallback_parts(lines.last()) {
            Some((key, raw)) => json::with_member(have, key, line_value(raw, read_yaml(raw))),
            None => have,
        }
    }
}

fn read_lines(start: &JsonObject, metadata: &str) -> (r: JsonObject)
    ensures
        r@ == with_lines(start@, text::split(metadata@, '\n')),
{
    let lines = split_text(metadata, '\n');
    let ghost all = text::split(metadata@, '\n');
    let mut out = start.clone();
    let mut i: usize = 0;
    assert(all.take(0) =~= Seq::<Seq<char>>::empty());
    while i < lines.len()
        invariant
            i <= lines@.len(),
            text::views(lines@) == all,
            out@ == with_lines(start@, all.take(i as int)),
        decreases lines@.len() - i,
    {
        proof {
            assert(all.take(i as int + 1).drop_last() =~= all.take(i as int));
            assert(all.take(i as int + 1).last() == lines@[i as int]@);
        }
        match split_fallback(&lines[i]) {
            Some((key, raw)) => {
                let read = parse_yaml(&raw);
                let value = fallback_value(&raw, read);
                out.insert(key, value);
            },
            None => {},
        }
        i += 1;
    }
    assert(all.take(i as int) =~= all);
    out
}

// ------------------------------------------------------------------ reading

/// The members that a reading gave: none where it is no mapping.
pub open spec fn record_of(read: Result<JsonView, Seq<char>>) -> Result<Entries, Seq<char>> {
    match read {
        Ok(JsonView::Object(m)) => Ok(m),
        Ok(_) => Ok(Seq::empty()),
        Err(e) => Err(e),
    }
}

/// The members that a reading gave: none where it is no mapping.
pub fn loaded_record(read: Result<Json, String>) -> (r: Result<JsonObject, String>)
    ensures
        match r {
            Ok(o) => record_of(outcome(read)) == Ok::<Entries, Seq<char>>(o@),
            Err(e) => record_of(outcome(read)) == Err::<Entries, Seq<char>>(e@),
        },
{
    match read {
        Ok(Json::Object(m)) => Ok(m),
        Ok(_) => Ok(JsonObject::new()),
        Err(e) => Err(e),
    }
}

/// The text with two blanks for each tab.
pub open spec fn untabbed(s: Seq<char>) -> Seq<char> {
    text::replaced(s, "\t"@, "  "@)
}

fn parse_yaml_record(metadata: &str, repair_tabs: bool) -> (r: Result<JsonObject, String>)
    ensures
        ({
            let source = if repair_tabs { untabbed(metadata@) } else { metadata@ };
            match r {
                Ok(o) => record_of(read_yaml(source)) == Ok::<Entries, Seq<char>>(o@),
                Err(e) => record_of(read_yaml(source)) == Err::<Entries, Seq<char>>(e@),
            }
        }),
{
    proof {
        reveal_strlit("\t");
        assert("\t"@.len() == 1);
    }
    let source = if repair_tabs {
        text::replace_text(metadata, "\t", "  ")
    } else {
        metadata.to_string()
    };
    loaded_record(parse_yaml(&source))
}

/// The characters from `i` on whose code units fit into `room`; a character that fits only by
/// half is replaced.
pub open spec fn head_from(s: Seq<char>, i: int, room: int) -> Seq<char>
    decreases s.len() - i,
{
    if i < 0 || i >= s.len() || room <= 0 {
        Seq::empty()
    } else if (s[i] as int) < 0x10000 {
        seq![s[i]] + head_from(s, i + 1, room - 1)
    } else if room == 1 {
        seq!['\u{FFFD}']
    } else {
        seq![s[i]] + head_from(s, i + 1, room - 2)
    }
}

/// A text of at most sixty-four code units: a longer one is cut, and an ellipsis stands last.
pub open spec fn shortened(s: Seq<char>) -> Seq<char> {
    if js::utf16(s).len() <= 64 {
        s
    } else {
        head_from(s, 0, 63) + seq!['…']
    }
}

fn code(c: char) -> (r: u32)
    ensures
        r as int == c as int,
{
    c as u32
}

fn shorten(s: &str) -> (r: String)
    ensures
        r@ == shortened(s@),
{
    if js::encode_utf16(s).len() <= 64 {
        return s.to_string();
    }
    let v = to_chars(s);
    let n: usize = v.len();
    let mut out: Vec<char> = Vec::new();
    let mut i: usize = 0;
    let mut room: usize = 63;
    assert(out@ + head_from(v@, 0, 63) =~= head_from(v@, 0, 63));
    while i < n && room > 0
        invariant
            i <= n,
            n == v@.len(),
            room <= 63,
            out@ + head_from(v@, i as int, room as int) == head_from(v@, 0, 63),
        decreases n - i,
    {
        let ghost before = out@;
        let c = v[i];
        if code(c) < 0x10000 {
            out.push(c);
            assert(head_from(v@, i as int, room as int) == seq![c] + head_from(
                v@,
                i as int + 1,
                room as int - 1,
            ));
            assert(before + head_from(v@, i as int, room as int) =~= out@ + head_from(
                v@,
                i as int + 1,
                room as int - 1,
            ));
            room -= 1;
        } else if room == 1 {
            out.push('\u{FFFD}');
            assert(before + head_from(v@, i as int, room as int) =~= out@ + head_from(
                v@,
                i as int + 1,
                0,
            ));
            room = 0;
        } else {
            out.push(c);
            assert(head_from(v@, i as int, room as int) == seq![c] + head_from(
                v@,
                i as int + 1,
                room as int - 2,
            ));
            assert(before + head_from(v@, i as int, room as int) =~= out@ + head_from(
                v@,
                i as int + 1,
                room as int - 2,
            ));
            room -= 2;
        }
        i += 1;
    }
    assert(out@ + head_from(v@, i as int, room as int) =~= out@);
    out.push('…');
    assert(out@ =~= head_from(v@, 0, 63) + seq!['…']);
    text::from_chars(&out)
}

/// What is wrong with frontmatter that is no YAML.
pub open spec fn failure(content: Seq<char>, source: Option<Seq<char>>, error: Seq<char>) -> Seq<
    char,
> {
    let named = match source {
        Some(s) => s,
        None => "Inline '"@ + shortened(content) + "'"@,
    };
    "Failed to parse YAML frontmatter ("@ + named + "): "@ + error
}

/// What is wrong with frontmatter that is no YAML.
pub fn failure_message(content: &str, source: &Option<String>, error: &str) -> (r: String)
    ensures
        r@ == failure(content@, text::opt_view(*source), error@),
{
    let named = match source {
        Some(s) => s.clone(),
        None => {
            let mut named = "Inline '".to_string();
            named.append(&shorten(content));
            named.append("'");
            named
        },
    };
    let mut out = "Failed to parse YAML frontmatter (".to_string();
    out.append(&named);
    out.append("): ");
    out.append(error);
    out
}

/// Frontmatter that is no YAML, read line by line where that is wanted.
pub open spec fn failed(
    content: Seq<char>,
    metadata: Seq<char>,
    body: Seq<char>,
    error: Seq<char>,
    o: FrontmatterOptionsView,
) -> Result<FrontmatterView, Seq<char>> {
    let message = failure(content, o.source, error);
    if o.level == FailureLevel::Fatal {
        Err(message)
    } else {
        Ok(
            FrontmatterView {
                frontmatter: finalized(
                    with_lines(o.fallback, text::split(metadata, '\n')),
                    o.raw_keys,
                ),
                body,
                warning: if o.level == FailureLevel::Warn { Some(message) } else { None },
            },
        )
    }
}

/// Frontmatter that is YAML.
pub open spec fn read(body: Seq<char>, loaded: Entries, o: FrontmatterOptionsView) -> FrontmatterView {
    FrontmatterView {
        frontmatter: finalized(set_all(o.fallback, loaded), o.raw_keys),
        body,
        warning: None,
    }
}

/// The frontmatter between the dashes of a text.
pub open spec fn frontmatter_between(
    content: Seq<char>,
    metadata: Seq<char>,
    body: Seq<char>,
    o: FrontmatterOptionsView,
) -> Result<FrontmatterView, Seq<char>> {
    let source = if o.repair { untabbed(metadata) } else { metadata };
    match record_of(read_yaml(source)) {
        Ok(loaded) => Ok(read(body, loaded, o)),
        Err(error) => {
            let again = if o.repair { quoted(metadata) } else { None };
            match again {
                Some(q) => match record_of(read_yaml(untabbed(q))) {
                    Ok(loaded) => Ok(read(body, loaded, o)),
                    Err(_) => failed(content, metadata, body, error, o),
                },
                None => failed(content, metadata, body, error, o),
            }
        },
    }
}

/// The frontmatter of a text, and the text behind it.
pub open spec fn frontmatter_of(content: Seq<char>, o: FrontmatterOptionsView) -> Result<
    FrontmatterView,
    Seq<char>,
> {
    let parts = parts_of(content, o.normalize, o.repair);
    match parts.0 {
        None => Ok(FrontmatterView { frontmatter: o.fallback, body: parts.1, warning: None }),
        Some(metadata) => frontmatter_between(content, metadata, parts.1, o),
    }
}

fn fail(
    content: &str,
    metadata: &str,
    body: String,
    error: &str,
    options: &FrontmatterOptions,
) -> (r: Result<Frontmatter, String>)
    ensures
        match r {
            Ok(f) => failed(content@, metadata@, body@, error@, options@) == Ok::<
                FrontmatterView,
                Seq<char>,
            >(f@),
            Err(e) => failed(content@, metadata@, body@, error@, options@) == Err::<
                FrontmatterView,
                Seq<char>,
            >(e@),
        },
{
    let message = failure_message(content, &options.source, error);
    if options.level == FailureLevel::Fatal {
        return Err(message);
    }
    let o = read_lines(&options.fallback, metadata);
    let warning = if options.level == FailureLevel::Warn { Some(message) } else { None };
    Ok(Frontmatter { frontmatter: finalize(o, options.raw_keys), body, warning })
}

/// The frontmatter of a text, and the text behind it.
pub fn parse_frontmatter(content: &str, options: &FrontmatterOptions) -> (r: Result<
    Frontmatter,
    String,
>)
    ensures
        match r {
            Ok(f) => frontmatter_of(content@, options@) == Ok::<FrontmatterView, Seq<char>>(f@),
            Err(e) => frontmatter_of(content@, options@) == Err::<FrontmatterView, Seq<char>>(e@),
        },
{
    let parts = split_frontmatter(content, options.normalize, options.repair);
    let metadata = match parts.metadata {
        None => {
            return Ok(
                Frontmatter {
                    frontmatter: options.fallback.clone(),
                    body: parts.body,
                    warning: None,
                },
            );
        },
        Some(m) => m,
    };
    match parse_yaml_record(&metadata, options.repair) {
        Ok(loaded) => Ok(
            Frontmatter {
                frontmatter: with_loaded(options, &loaded),
                body: parts.body,
                warning: None,
            },
        ),
        Err(error) => {
            let again = if options.repair {
                quote_ambiguous_plain_scalars(&metadata)
            } else {
                None
            };
            match again {
                Some(q) => match parse_yaml_record(&q, true) {
                    Ok(loaded) => Ok(
                        Frontmatter {
                            frontmatter: with_loaded(options, &loaded),
                            body: parts.body,
                            warning: None,
                        },
                    ),
                    Err(_) => fail(content, &metadata, parts.body, &error, options),
                },
                None => fail(content, &metadata, parts.body, &error, options),
            }
        },
    }
}

// ------------------------------------------------------------------ laws

/// Text without frontmatter is the whole body, with the members to start with, whatever the
/// other options say.
pub proof fn law_no_frontmatter_no_change(content: Seq<char>, o: FrontmatterOptionsView)
    requires
        !o.normalize,
        !text::stands_at(content, 0, "---"@),
    ensures
        frontmatter_of(content, o) == Ok::<FrontmatterView, Seq<char>>(
            FrontmatterView { frontmatter: o.fallback, body: content, warning: None },
        ),
{
}

/// Only a fatal failure is an error: with any other level, every text has its members.
pub proof fn law_only_fatal_failures_are_errors(content: Seq<char>, o: FrontmatterOptionsView)
    requires
        o.level != FailureLevel::Fatal,
    ensures
        frontmatter_of(content, o) is Ok,
{
}

} // verus!
