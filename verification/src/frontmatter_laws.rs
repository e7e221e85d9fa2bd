//! What is read as the frontmatter of a text, and how it is repaired.
use crate::frontmatter;
use crate::frontmatter::FrontmatterOptionsView;
use crate::json;
use crate::json::{Entries, JsonView};
use crate::text;
use crate::text::Space;
use vstd::prelude::*;

verus! {

/// Frontmatter stands between a first line of dashes and the next line that starts with them; the
/// body is what follows, without the space around it.
pub proof fn law_frontmatter_stands_between_dashes(metadata: Seq<char>, rest: Seq<char>)
    requires
        text::find_text("---\n"@ + metadata + "\n---"@ + rest, "\n---"@, 3) == Some(
            4 + metadata.len() as int,
        ),
    ensures
        frontmatter::parts_of("---\n"@ + metadata + "\n---"@ + rest, false, false) == (
            Some(metadata),
            text::trim(Space::Js, rest),
        ),
{
    reveal_strlit("---\n");
    reveal_strlit("\n---");
    reveal_strlit("---");
    let s = "---\n"@ + metadata + "\n---"@ + rest;
    let end = 4 + metadata.len() as int;
    assert("---\n"@.len() == 4 && "\n---"@.len() == 4 && "---"@.len() == 3);
    assert(s.subrange(0, 3) =~= "---"@);
    assert(s.subrange(4, end) =~= metadata);
    assert(s.skip(end + 4) =~= rest);
}

/// A text that does not start with dashes has no frontmatter.
pub proof fn law_no_dashes_no_frontmatter(s: Seq<char>)
    requires
        s.len() < 3 || s[0] != '-',
    ensures
        frontmatter::parts_of(s, false, false) == (None::<Seq<char>>, s),
{
    reveal_strlit("---");
    assert("---"@.len() == 3 && "---"@[0] == '-');
    if text::stands_at(s, 0, "---"@) {
        assert(s.subrange(0, 3)[0] == s[0]);
    }
}

proof fn lemma_no_returns(s: Seq<char>, i: int)
    requires
        0 <= i,
    ensures
        !text::replaced_from(s, seq!['\r'], seq!['\n'], i).contains('\r'),
    decreases s.len() - i,
{
    let p = seq!['\r'];
    let with = seq!['\n'];
    let out = text::replaced_from(s, p, with, i);
    if i < s.len() {
        lemma_no_returns(s, i + 1);
        let rest = text::replaced_from(s, p, with, i + 1);
        assert(s.subrange(i, i + 1) =~= seq![s[i]]);
        assert(text::stands_at(s, i, p) <==> s[i] == '\r') by {
            if text::stands_at(s, i, p) {
                assert(s.subrange(i, i + 1)[0] == p[0]);
            }
        }
        assert forall|k: int| 0 <= k < out.len() implies #[trigger] out[k] != '\r' by {
            if k > 0 {
                assert(out[k] == rest[k - 1]);
            }
        }
    }
}

/// Where line ends are made the same, no carriage return is left.
pub proof fn law_line_ends_are_made_the_same(s: Seq<char>)
    ensures
        !frontmatter::with_line_feeds(s).contains('\r'),
{
    reveal_strlit("\r");
    reveal_strlit("\n");
    assert("\r"@ =~= seq!['\r']);
    assert("\n"@ =~= seq!['\n']);
    lemma_no_returns(text::replaced(s, "\r\n"@, "\n"@), 0);
}

proof fn lemma_uncommented(s: Seq<char>, i: int, j: int)
    requires
        0 <= i <= j <= s.len(),
        forall|k: int| i <= k < j ==> (#[trigger] s[k]) != '<',
    ensures
        frontmatter::uncommented_from(s, i) == s.subrange(i, j) + frontmatter::uncommented_from(
            s,
            j,
        ),
    decreases j - i,
{
    if i < j {
        reveal_strlit("<!--");
        assert("<!--"@.len() == 4 && "<!--"@[0] == '<');
        if text::stands_at(s, i, "<!--"@) {
            assert(s.subrange(i, i + 4)[0] == s[i]);
        }
        lemma_uncommented(s, i + 1, j);
        assert(s.subrange(i, j) =~= seq![s[i]] + s.subrange(i + 1, j));
        assert(seq![s[i]] + (s.subrange(i + 1, j) + frontmatter::uncommented_from(s, j))
            =~= s.subrange(i, j) + frontmatter::uncommented_from(s, j));
    } else {
        assert(s.subrange(i, j) + frontmatter::uncommented_from(s, j)
            =~= frontmatter::uncommented_from(s, j));
    }
}

proof fn lemma_one_comment(s: Seq<char>, i: int, j: int)
    requires
        0 <= i,
        i + 4 <= j,
        j + 3 <= s.len(),
        text::stands_at(s, i, "<!--"@),
        text::stands_at(s, j, "-->"@),
        forall|k: int| 0 <= k < i ==> (#[trigger] s[k]) != '<',
        forall|k: int| i + 4 <= k < j ==> (#[trigger] s[k]) != '-',
        forall|k: int| j + 3 <= k < s.len() ==> (#[trigger] s[k]) != '<',
    ensures
        frontmatter::uncommented(s) == s.subrange(0, i) + s.subrange(j + 3, s.len() as int),
{
    reveal_strlit("-->");
    let close = "-->"@;
    assert(close.len() == 3 && close[0] == '-');
    let n = s.len() as int;
    lemma_uncommented(s, 0, i);
    text::lemma_find_text(s, close, i + 4);
    let found = text::find_text(s, close, i + 4);
    if found is Some && found.unwrap() < j {
        let f = found.unwrap();
        assert(s.subrange(f, f + 3)[0] == s[f]);
    }
    assert(found == Some(j));
    lemma_uncommented(s, j + 3, n);
    assert(frontmatter::uncommented_from(s, n) =~= Seq::empty());
    let tail = s.subrange(j + 3, n);
    assert(tail + Seq::<char>::empty() =~= tail);
}

/// A comment is taken out with its marks; the text around it stays.
pub proof fn law_comments_are_taken_out(before: Seq<char>, comment: Seq<char>, after: Seq<char>)
    requires
        !before.contains('<'),
        !after.contains('<'),
        !comment.contains('-'),
    ensures
        frontmatter::uncommented(before + "<!--"@ + comment + "-->"@ + after) == before + after,
{
    reveal_strlit("<!--");
    reveal_strlit("-->");
    let open = "<!--"@;
    let close = "-->"@;
    let s = before + open + comment + close + after;
    let i = before.len() as int;
    let j = i + 4 + comment.len();
    let n = s.len() as int;
    assert(open.len() == 4 && close.len() == 3);
    assert forall|k: int| 0 <= k < i implies (#[trigger] s[k]) != '<' by {
        assert(s[k] == before[k]);
    }
    assert forall|k: int| i + 4 <= k < j implies (#[trigger] s[k]) != '-' by {
        assert(s[k] == comment[k - i - 4]);
    }
    assert forall|k: int| j + 3 <= k < n implies (#[trigger] s[k]) != '<' by {
        assert(s[k] == after[k - j - 3]);
    }
    assert(s.subrange(i, i + 4) =~= open);
    assert(s.subrange(j, j + 3) =~= close);
    lemma_one_comment(s, i, j);
    assert(s.subrange(0, i) =~= before);
    assert(s.subrange(j + 3, n) =~= after);
}

proof fn lemma_camel(s: Seq<char>, i: int, j: int)
    requires
        0 <= i <= j <= s.len(),
        forall|k: int| i <= k < j ==> (#[trigger] s[k]) != '-',
    ensures
        frontmatter::camel_from(s, i) == s.subrange(i, j) + frontmatter::camel_from(s, j),
    decreases j - i,
{
    if i < j {
        lemma_camel(s, i + 1, j);
        assert(s.subrange(i, j) =~= seq![s[i]] + s.subrange(i + 1, j));
        assert(seq![s[i]] + (s.subrange(i + 1, j) + frontmatter::camel_from(s, j)) =~= s.subrange(
            i,
            j,
        ) + frontmatter::camel_from(s, j));
    } else {
        assert(s.subrange(i, j) + frontmatter::camel_from(s, j) =~= frontmatter::camel_from(s, j));
    }
}

/// A name without hyphens stays; at a hyphen the small letter behind it becomes a capital, and the
/// hyphen is gone.
pub proof fn law_names_are_put_in_camel_case(word: Seq<char>, c: char, rest: Seq<char>)
    requires
        !word.contains('-'),
        !rest.contains('-'),
        'a' <= c && c <= 'z',
    ensures
        frontmatter::camel(word) == word,
        frontmatter::camel(word + seq!['-', c] + rest) == word + seq![text::upper_char(c)] + rest,
{
    let s = word + seq!['-', c] + rest;
    let n = word.len() as int;
    let m = s.len() as int;
    lemma_camel(word, 0, n);
    assert(word.subrange(0, n) =~= word);
    assert(frontmatter::camel_from(word, n) =~= Seq::empty());
    assert(word + Seq::<char>::empty() =~= word);
    assert forall|k: int| 0 <= k < n implies (#[trigger] s[k]) != '-' by {
        assert(s[k] == word[k]);
    }
    lemma_camel(s, 0, n);
    assert(s.subrange(0, n) =~= word);
    assert(s[n] == '-' && s[n + 1] == c);
    assert forall|k: int| n + 2 <= k < m implies (#[trigger] s[k]) != '-' by {
        assert(s[k] == rest[k - n - 2]);
    }
    lemma_camel(s, n + 2, m);
    assert(s.subrange(n + 2, m) =~= rest);
    assert(frontmatter::camel_from(s, m) =~= Seq::empty());
    assert(rest + Seq::<char>::empty() =~= rest);
    assert(word + (seq![text::upper_char(c)] + rest) =~= word + seq![text::upper_char(c)] + rest);
}

/// Frontmatter that can be read gives its members, over those that are given for want of any; the
/// body is handed on, and nothing is warned of. Only text that cannot be read is tried again in
/// quotes, where repairs are wanted.
pub proof fn law_what_is_read_between_the_dashes(
    content: Seq<char>,
    metadata: Seq<char>,
    body: Seq<char>,
    o: FrontmatterOptionsView,
)
    requires
        o.raw_keys,
    ensures
        ({
            let source = if o.repair {
                text::replaced(metadata, "\t"@, "  "@)
            } else {
                metadata
            };
            let read = frontmatter::read_yaml(source);
            let out = frontmatter::frontmatter_between(content, metadata, body, o);
            &&& read matches Ok(JsonView::Object(m)) ==> (out matches Ok(f) && f.body == body
                && f.warning is None && f.frontmatter == frontmatter::set_all(o.fallback, m))
            &&& read is Ok && !(read matches Ok(JsonView::Object(_))) ==> (out matches Ok(f)
                && f.body == body && f.warning is None && f.frontmatter == o.fallback)
            &&& read is Err && !o.repair ==> (out is Err <==> o.level is Fatal)
            &&& out matches Ok(f) ==> f.body == body
            &&& read is Err && !o.repair && o.level is Warn ==> (out matches Ok(f) && f.warning
                is Some)
            &&& read is Ok ==> out is Ok
        }),
        frontmatter::set_all(o.fallback, Seq::empty()) == o.fallback,
{
    assert(frontmatter::set_all(o.fallback, Seq::empty()) =~= o.fallback);
}

proof fn lemma_distinct(o: Entries, more: Entries)
    requires
        json::distinct_keys(o),
    ensures
        json::distinct_keys(frontmatter::set_all(o, more)),
    decreases more.len(),
{
    if more.len() > 0 {
        lemma_distinct(o, more.drop_last());
        json::law_set_members_read_back(
            frontmatter::set_all(o, more.drop_last()),
            more.last().0,
            more.last().1,
            more.last().0,
        );
    }
}

/// Members are set one after the other: the last one of a name counts, and what is not set stays.
pub proof fn law_members_are_set_in_order(
    o: Entries,
    more: Entries,
    name: Seq<char>,
    value: JsonView,
    other: Seq<char>,
)
    requires
        json::distinct_keys(o),
        other != name,
    ensures
        json::lookup(frontmatter::set_all(o, more.push((name, value))), name) == Some(value),
        json::lookup(frontmatter::set_all(o, more.push((name, value))), other) == json::lookup(
            frontmatter::set_all(o, more),
            other,
        ),
{
    assert(more.push((name, value)).drop_last() =~= more);
    lemma_distinct(o, more);
    json::law_set_members_read_back(frontmatter::set_all(o, more), name, value, other);
}

proof fn lemma_word(s: Seq<char>, i: int, n: int)
    requires
        0 <= i <= n < s.len(),
        forall|k: int| i <= k < n ==> frontmatter::in_word(#[trigger] s[k]),
        !frontmatter::in_word(s[n]),
    ensures
        frontmatter::word_end(s, i) == n,
    decreases n - i,
{
    if i < n {
        assert(frontmatter::in_word(s[i]));
        lemma_word(s, i + 1, n);
    }
}

/// A word that may stand before a colon.
pub open spec fn is_key(key: Seq<char>) -> bool {
    &&& key.len() > 0
    &&& frontmatter::starts_word(key[0])
    &&& forall|k: int| 0 <= k < key.len() ==> frontmatter::in_word(#[trigger] key[k])
}

/// Line by line, a name and a colon give the text behind them as a member.
pub proof fn law_lines_are_read_one_by_one(key: Seq<char>, value: Seq<char>)
    requires
        is_key(key),
        frontmatter::on_one_line(value),
        value.len() > 0 && !text::is_space(Space::Js, value[0]),
    ensures
        frontmatter::fallback_parts(key + seq![':', ' '] + value) == Some(
            (key, text::trim(Space::Js, value)),
        ),
{
    let line = key + seq![':', ' '] + value;
    let n = key.len() as int;
    assert(line[n] == ':' && line[n + 1] == ' ');
    assert forall|k: int| 0 <= k < n implies frontmatter::in_word(#[trigger] line[k]) by {
        assert(line[k] == key[k]);
    }
    lemma_word(line, 0, n);
    assert(text::is_space(Space::Js, ' '));
    assert(line[n + 2] == value[0]);
    reveal_with_fuel(frontmatter::blanks_end, 3);
    assert(frontmatter::blanks_end(line, n + 1) == n + 2);
    assert(line.skip(n + 2) =~= value);
    assert(line.take(n) =~= key);
}

/// A value that holds a colon and a blank is put in quotes, so that it can be read as a text; a
/// value that is quoted or structured already is left alone.
pub proof fn law_ambiguous_values_are_quoted(key: Seq<char>, value: Seq<char>)
    requires
        is_key(key),
        frontmatter::on_one_line(value),
        value.len() > 0 && !text::is_space(Space::Js, value[0]),
        text::trim_end(Space::Js, value) == value,
    ensures
        ({
            let line = key + seq![':', ' '] + value;
            let ambiguous = text::find_text(value, ": "@, 0) is Some && value[0] != '"' && value[0]
                != '\'' && value[0] != '[' && value[0] != '{' && value[0] != '|' && value[0] != '>'
                && value[0] != '!' && value[0] != '&' && value[0] != '*' && value[0] != '#';
            &&& ambiguous ==> frontmatter::requoted(line) == key + seq![':', ' '] + json::compact(
                JsonView::String(value),
            )
            &&& !ambiguous ==> frontmatter::requoted(line) == line
        }),
{
    let line = key + seq![':', ' '] + value;
    let n = key.len() as int;
    assert(line[n] == ':' && line[n + 1] == ' ');
    assert(line[0] == key[0]);
    assert(frontmatter::in_word(key[0]));
    assert(!text::is_space(Space::Js, line[0]));
    assert(frontmatter::blanks_end(line, 0) == 0);
    assert forall|k: int| 1 <= k < n implies frontmatter::in_word(#[trigger] line[k]) by {
        assert(line[k] == key[k]);
    }
    lemma_word(line, 1, n);
    assert(text::is_space(Space::Js, ' '));
    assert(line[n + 2] == value[0]);
    reveal_with_fuel(frontmatter::blanks_end, 3);
    assert(frontmatter::blanks_end(line, n + 1) == n + 2);
    assert(line.skip(n + 2) =~= value);
    let d = line.len() as int;
    assert(line.subrange(n + 2, d) =~= value);
    assert(line.take(n + 2) =~= key + seq![':', ' ']);
    assert(line.skip(d) =~= Seq::empty());
    let q = json::compact(JsonView::String(value));
    assert(key + seq![':', ' '] + q + Seq::<char>::empty() =~= key + seq![':', ' '] + q);
}

/// Members are handed out under their names in camel case, at every depth, unless their names are
/// wanted as they are.
pub proof fn law_how_members_are_handed_out(o: Entries, name: Seq<char>, value: JsonView)
    ensures
        frontmatter::finalized(o, true) == o,
        json::lookup(frontmatter::finalized(o.push((name, value)), false), frontmatter::camel(name))
            == Some(frontmatter::camel_value(value)),
        !(value is Array) && !(value is Object) ==> frontmatter::camel_value(value) == value,
        value matches JsonView::Array(items) ==> frontmatter::camel_value(value) == JsonView::Array(
            Seq::new(items.len(), |i: int| frontmatter::camel_value(items[i])),
        ),
{
    let all = frontmatter::camel_members(o.push((name, value)));
    let have = frontmatter::camel_members(o);
    let last = (frontmatter::camel(name), frontmatter::camel_value(value));
    assert(all =~= have.push(last));
    let none = Seq::<(Seq<char>, JsonView)>::empty();
    assert(json::distinct_keys(none));
    let other = frontmatter::camel(name).push('x');
    assert(other.len() != frontmatter::camel(name).len());
    law_members_are_set_in_order(none, have, last.0, last.1, other);
    match value {
        JsonView::Array(items) => {
            assert(frontmatter::camel_items(items) =~= Seq::new(
                items.len(),
                |i: int| frontmatter::camel_value(items[i]),
            ));
        },
        _ => {},
    }
}

/// What cannot be read is told of with where it stands: its source, or its start.
pub proof fn law_what_is_told_of_unreadable_frontmatter(
    content: Seq<char>,
    source: Seq<char>,
    e: Seq<char>,
)
    ensures
        frontmatter::failure(content, Some(source), e) == "Failed to parse YAML frontmatter ("@
            + source + "): "@ + e,
        frontmatter::failure(content, None, e) == "Failed to parse YAML frontmatter ("@ + (
        "Inline '"@ + frontmatter::shortened(content) + "'"@) + "): "@ + e,
{
}

/// The text of a line is read for what it spells, unless it spells nothing or holds members: then it
/// is a text.
pub proof fn law_what_a_line_is_read_as(raw: Seq<char>, read: Result<JsonView, Seq<char>>)
    ensures
        ({
            let v = frontmatter::line_value(raw, read);
            &&& read is Err ==> v == JsonView::String(raw)
            &&& raw.len() == 0 ==> v == JsonView::String(raw)
            &&& read matches Ok(x) ==> (x is Null || x is Object) ==> v == JsonView::String(raw)
            &&& read matches Ok(x) ==> (raw.len() > 0 && !(x is Null) && !(x is Object)) ==> v == x
        }),
{
}

} // verus!
