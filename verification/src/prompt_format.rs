//! Normalizing prompt text: mixed XML, Markdown and template source.
use crate::prompt_symbols;
use crate::text;
use crate::text::{
    find_text_at, from_chars, is_at, is_blank, join_strings, slice_string, split_text, to_chars,
    trim_end_text, trim_start_text, trim_text, Space,
};
use vstd::prelude::*;

verus! {

/// Which side of rendering a text stands on.
#[derive(Clone, Copy, Debug, PartialEq, Eq, Structural)]
pub enum RenderPhase {
    /// Source: blank lines before a closing block tag are dropped too.
    PreRender,
    /// Rendered text.
    PostRender,
}

/// How a text is normalized.
#[derive(Clone, Copy, Debug, PartialEq, Eq, Structural)]
pub struct FormatOptions {
    pub render_phase: RenderPhase,
    pub replace_ascii_symbols: bool,
    pub normalize_rfc2119: bool,
}

impl Default for FormatOptions {
    /// Rendered text, nothing replaced.
    fn default() -> (r: FormatOptions)
        ensures
            r == plain_options(),
    {
        FormatOptions {
            render_phase: RenderPhase::PostRender,
            replace_ascii_symbols: false,
            normalize_rfc2119: false,
        }
    }
}

impl FormatOptions {
    /// The options for prompt sources.
    pub fn prompt_source() -> (r: FormatOptions)
        ensures
            r.render_phase == RenderPhase::PreRender,
            r.replace_ascii_symbols,
            r.normalize_rfc2119,
    {
        FormatOptions {
            render_phase: RenderPhase::PreRender,
            replace_ascii_symbols: true,
            normalize_rfc2119: true,
        }
    }
}

/// Rendered text, nothing replaced.
pub open spec fn plain_options() -> FormatOptions {
    FormatOptions {
        render_phase: RenderPhase::PostRender,
        replace_ascii_symbols: false,
        normalize_rfc2119: false,
    }
}

// ------------------------------------------------------------------ symbols

/// The arrow, the ellipsis or the comparison that is spelled out in ASCII at an index: the symbol,
/// and how many characters spell it.
pub open spec fn symbol_at(s: Seq<char>, i: int) -> Option<(char, int)> {
    if text::stands_at(s, i, "..."@) {
        Some(('…', 3))
    } else if text::stands_at(s, i, "<->"@) {
        Some(('↔', 3))
    } else if text::stands_at(s, i, "->"@) {
        Some(('→', 2))
    } else if text::stands_at(s, i, "<-"@) {
        Some(('←', 2))
    } else if text::stands_at(s, i, "!="@) {
        Some(('≠', 2))
    } else if text::stands_at(s, i, "<="@) {
        Some(('≤', 2))
    } else if text::stands_at(s, i, ">="@) {
        Some(('≥', 2))
    } else {
        None
    }
}

/// The text from an index on with its symbols.
pub open spec fn symbols_from(s: Seq<char>, i: int) -> Seq<char>
    decreases
        if i < s.len() {
            s.len() - i
        } else {
            0
        },
{
    if i < 0 || i >= s.len() {
        Seq::empty()
    } else {
        match symbol_at(s, i) {
            Some((c, n)) => if n > 0 {
                seq![c] + symbols_from(s, i + n)
            } else {
                Seq::empty()
            },
            None => seq![s[i]] + symbols_from(s, i + 1),
        }
    }
}

/// The text with its symbols.
pub open spec fn with_symbols(s: Seq<char>) -> Seq<char> {
    symbols_from(s, 0)
}

fn find_symbol(v: &Vec<char>, i: usize) -> (r: Option<(char, usize)>)
    ensures
        match r {
            Some(p) => symbol_at(v@, i as int) == Some((p.0, p.1 as int)) && 2 <= p.1 <= 3 && i
                + p.1 <= v@.len(),
            None => symbol_at(v@, i as int) is None,
        },
{
    proof {
        reveal_strlit("...");
        reveal_strlit("<->");
        reveal_strlit("->");
        reveal_strlit("<-");
        reveal_strlit("!=");
        reveal_strlit("<=");
        reveal_strlit(">=");
    }
    if is_at(v, i, "...") {
        Some(('…', 3))
    } else if is_at(v, i, "<->") {
        Some(('↔', 3))
    } else if is_at(v, i, "->") {
        Some(('→', 2))
    } else if is_at(v, i, "<-") {
        Some(('←', 2))
    } else if is_at(v, i, "!=") {
        Some(('≠', 2))
    } else if is_at(v, i, "<=") {
        Some(('≤', 2))
    } else if is_at(v, i, ">=") {
        Some(('≥', 2))
    } else {
        None
    }
}

fn replace_ascii(v: &Vec<char>) -> (r: String)
    ensures
        r@ == with_symbols(v@),
{
    let mut out = String::new();
    let n: usize = v.len();
    let mut i: usize = 0;
    assert(out@ + symbols_from(v@, 0) =~= with_symbols(v@));
    while i < n
        invariant
            n == v@.len(),
            i <= n,
            out@ + symbols_from(v@, i as int) == with_symbols(v@),
        decreases n - i,
    {
        match find_symbol(v, i) {
            Some(p) => {
                assert(out@ + symbols_from(v@, i as int) =~= out@.push(p.0) + symbols_from(
                    v@,
                    i + p.1,
                ));
                out.push(p.0);
                i += p.1;
            },
            None => {
                assert(out@ + symbols_from(v@, i as int) =~= out@.push(v@[i as int])
                    + symbols_from(v@, i as int + 1));
                out.push(v[i]);
                i += 1;
            },
        }
    }
    assert(out@ + symbols_from(v@, i as int) =~= out@);
    out
}

/// A line from an index on with its symbols, HTML comments left alone; and whether a comment is
/// open at its end.
pub open spec fn uncommented_from(line: Seq<char>, i: int, comment: bool) -> (Seq<char>, bool)
    decreases
        if i < line.len() {
            line.len() - i
        } else {
            0
        },
{
    if i < 0 || i >= line.len() {
        (Seq::empty(), comment)
    } else if comment {
        match text::find_text(line, "-->"@, i) {
            Some(close) => if i <= close {
                let rest = uncommented_from(line, close + 3, false);
                (line.subrange(i, close + 3) + rest.0, rest.1)
            } else {
                (Seq::empty(), comment)
            },
            None => (line.subrange(i, line.len() as int), true),
        }
    } else {
        match text::find_text(line, "<!--"@, i) {
            Some(open) => match text::find_text(line, "-->"@, open + 4) {
                Some(close) => if i <= open < close {
                    let rest = uncommented_from(line, close + 3, false);
                    (
                        with_symbols(line.subrange(i, open)) + line.subrange(open, close + 3)
                            + rest.0,
                        rest.1,
                    )
                } else {
                    (Seq::empty(), comment)
                },
                None => (
                    with_symbols(line.subrange(i, open)) + line.subrange(open, line.len() as int),
                    true,
                ),
            },
            None => (with_symbols(line.subrange(i, line.len() as int)), false),
        }
    }
}

fn part(v: &Vec<char>, from: usize, to: usize) -> (r: Vec<char>)
    requires
        from <= to <= v@.len(),
    ensures
        r@ == v@.subrange(from as int, to as int),
{
    let s = slice_string(v, from, to);
    to_chars(s.as_str())
}

fn replace_ascii_outside_comments(line: &str, in_comment: bool) -> (r: (String, bool))
    ensures
        r.0@ == uncommented_from(line@, 0, in_comment).0,
        r.1 == uncommented_from(line@, 0, in_comment).1,
{
    proof {
        reveal_strlit("-->");
        reveal_strlit("<!--");
    }
    let v = to_chars(line);
    let n: usize = v.len();
    let mut out = String::new();
    let mut comment = in_comment;
    let mut i: usize = 0;
    assert(out@ + uncommented_from(v@, 0, comment).0 =~= uncommented_from(v@, 0, in_comment).0);
    while i < n
        invariant
            v@ == line@,
            n == v@.len(),
            i <= n,
            "-->"@.len() == 3,
            "<!--"@.len() == 4,
            out@ + uncommented_from(v@, i as int, comment).0 == uncommented_from(
                v@,
                0,
                in_comment,
            ).0,
            uncommented_from(v@, i as int, comment).1 == uncommented_from(v@, 0, in_comment).1,
        decreases n - i,
    {
        let ghost before = out@;
        let ghost here = uncommented_from(v@, i as int, comment).0;
        if comment {
            match find_text_at(&v, "-->", i) {
                Some(close) => {
                    out.append(slice_string(&v, i, close + 3).as_str());
                    assert(before + here =~= out@ + uncommented_from(v@, close + 3, false).0);
                    i = close + 3;
                    comment = false;
                },
                None => {
                    out.append(slice_string(&v, i, n).as_str());
                    return (out, true);
                },
            }
        } else {
            match find_text_at(&v, "<!--", i) {
                Some(open) => {
                    out.append(replace_ascii(&part(&v, i, open)).as_str());
                    match find_text_at(&v, "-->", open + 4) {
                        Some(close) => {
                            out.append(slice_string(&v, open, close + 3).as_str());
                            assert(before + here =~= out@ + uncommented_from(
                                v@,
                                close + 3,
                                false,
                            ).0);
                            i = close + 3;
                        },
                        None => {
                            out.append(slice_string(&v, open, n).as_str());
                            assert(before + here =~= out@);
                            return (out, true);
                        },
                    }
                },
                None => {
                    out.append(replace_ascii(&part(&v, i, n)).as_str());
                    return (out, false);
                },
            }
        }
    }
    assert(out@ + uncommented_from(v@, i as int, comment).0 =~= out@);
    (out, comment)
}

// ------------------------------------------------------------------ requirement words

/// The emphasized requirement word at an index.
pub open spec fn bold_at(s: Seq<char>, i: int) -> Option<Seq<char>> {
    if text::stands_at(s, i, "**MUST NOT**"@) {
        Some("MUST NOT"@)
    } else if text::stands_at(s, i, "**SHOULD NOT**"@) {
        Some("SHOULD NOT"@)
    } else if text::stands_at(s, i, "**RECOMMENDED**"@) {
        Some("RECOMMENDED"@)
    } else if text::stands_at(s, i, "**REQUIRED**"@) {
        Some("REQUIRED"@)
    } else if text::stands_at(s, i, "**OPTIONAL**"@) {
        Some("OPTIONAL"@)
    } else if text::stands_at(s, i, "**SHOULD**"@) {
        Some("SHOULD"@)
    } else if text::stands_at(s, i, "**MUST**"@) {
        Some("MUST"@)
    } else if text::stands_at(s, i, "**MAY**"@) {
        Some("MAY"@)
    } else if text::stands_at(s, i, "**NEVER**"@) {
        Some("NEVER"@)
    } else if text::stands_at(s, i, "**AVOID**"@) {
        Some("AVOID"@)
    } else {
        None
    }
}

/// The text from an index on, its requirement words without emphasis.
pub open spec fn unbold_from(s: Seq<char>, i: int) -> Seq<char>
    decreases
        if i < s.len() {
            s.len() - i
        } else {
            0
        },
{
    if i < 0 || i >= s.len() {
        Seq::empty()
    } else {
        match bold_at(s, i) {
            Some(word) => word + unbold_from(s, i + word.len() + 4),
            None => seq![s[i]] + unbold_from(s, i + 1),
        }
    }
}

fn find_bold(v: &Vec<char>, i: usize) -> (r: Option<&'static str>)
    ensures
        match r {
            Some(w) => bold_at(v@, i as int) == Some(w@) && i + w@.len() + 4 <= v@.len(),
            None => bold_at(v@, i as int) is None,
        },
{
    proof {
        lemma_bold_lengths();
    }
    if is_at(v, i, "**MUST NOT**") {
        Some("MUST NOT")
    } else if is_at(v, i, "**SHOULD NOT**") {
        Some("SHOULD NOT")
    } else if is_at(v, i, "**RECOMMENDED**") {
        Some("RECOMMENDED")
    } else if is_at(v, i, "**REQUIRED**") {
        Some("REQUIRED")
    } else if is_at(v, i, "**OPTIONAL**") {
        Some("OPTIONAL")
    } else if is_at(v, i, "**SHOULD**") {
        Some("SHOULD")
    } else if is_at(v, i, "**MUST**") {
        Some("MUST")
    } else if is_at(v, i, "**MAY**") {
        Some("MAY")
    } else if is_at(v, i, "**NEVER**") {
        Some("NEVER")
    } else if is_at(v, i, "**AVOID**") {
        Some("AVOID")
    } else {
        None
    }
}

proof fn lemma_bold_lengths()
    ensures
        "**MUST NOT**"@.len() == "MUST NOT"@.len() + 4,
        "**SHOULD NOT**"@.len() == "SHOULD NOT"@.len() + 4,
        "**RECOMMENDED**"@.len() == "RECOMMENDED"@.len() + 4,
        "**REQUIRED**"@.len() == "REQUIRED"@.len() + 4,
        "**OPTIONAL**"@.len() == "OPTIONAL"@.len() + 4,
        "**SHOULD**"@.len() == "SHOULD"@.len() + 4,
        "**MUST**"@.len() == "MUST"@.len() + 4,
        "**MAY**"@.len() == "MAY"@.len() + 4,
        "**NEVER**"@.len() == "NEVER"@.len() + 4,
        "**AVOID**"@.len() == "AVOID"@.len() + 4,
{
    reveal_strlit("**MUST NOT**");
    reveal_strlit("**SHOULD NOT**");
    reveal_strlit("**RECOMMENDED**");
    reveal_strlit("**REQUIRED**");
    reveal_strlit("**OPTIONAL**");
    reveal_strlit("**SHOULD**");
    reveal_strlit("**MUST**");
    reveal_strlit("**MAY**");
    reveal_strlit("**NEVER**");
    reveal_strlit("**AVOID**");
    reveal_strlit("MUST NOT");
    reveal_strlit("SHOULD NOT");
    reveal_strlit("RECOMMENDED");
    reveal_strlit("REQUIRED");
    reveal_strlit("OPTIONAL");
    reveal_strlit("SHOULD");
    reveal_strlit("MUST");
    reveal_strlit("MAY");
    reveal_strlit("NEVER");
    reveal_strlit("AVOID");
}

fn unbold(s: &str) -> (r: String)
    ensures
        r@ == unbold_from(s@, 0),
{
    let v = to_chars(s);
    let n: usize = v.len();
    let mut out = String::new();
    let mut i: usize = 0;
    assert(out@ + unbold_from(v@, 0) =~= unbold_from(v@, 0));
    while i < n
        invariant
            v@ == s@,
            n == v@.len(),
            i <= n,
            out@ + unbold_from(v@, i as int) == unbold_from(v@, 0),
        decreases n - i,
    {
        match find_bold(&v, i) {
            Some(word) => {
                assert(out@ + unbold_from(v@, i as int) =~= out@ + word@ + unbold_from(
                    v@,
                    i + word@.len() + 4,
                ));
                out.append(word);
                let w = to_chars(word);
                let k: usize = w.len();
                i += k + 4;
            },
            None => {
                assert(out@ + unbold_from(v@, i as int) =~= out@.push(v@[i as int]) + unbold_from(
                    v@,
                    i as int + 1,
                ));
                out.push(v[i]);
                i += 1;
            },
        }
    }
    assert(out@ + unbold_from(v@, i as int) =~= out@);
    out
}

/// The character at an index is part of a word.
pub open spec fn is_word_at(s: Seq<char>, i: int) -> bool {
    0 <= i < s.len() && ({
        let c = s[i];
        ('a' <= c && c <= 'z') || ('A' <= c && c <= 'Z') || ('0' <= c && c <= '9') || c == '_'
    })
}

/// The text from an index on with the word `needle` replaced.
pub open spec fn reworded_from(s: Seq<char>, needle: Seq<char>, with: Seq<char>, i: int) -> Seq<char>
    decreases s.len() - i,
{
    if i < 0 || i >= s.len() {
        Seq::empty()
    } else if needle.len() > 0 && text::stands_at(s, i, needle) && !is_word_at(s, i - 1)
        && !is_word_at(s, i + needle.len()) {
        with + reworded_from(s, needle, with, i + needle.len())
    } else {
        seq![s[i]] + reworded_from(s, needle, with, i + 1)
    }
}

fn is_word(v: &Vec<char>, i: usize) -> (r: bool)
    ensures
        r == is_word_at(v@, i as int),
{
    if i < v.len() {
        let c = v[i];
        ('a' <= c && c <= 'z') || ('A' <= c && c <= 'Z') || ('0' <= c && c <= '9') || c == '_'
    } else {
        false
    }
}

fn replace_word(s: &str, needle: &str, with: &str) -> (r: String)
    requires
        needle@.len() > 0,
    ensures
        r@ == reworded_from(s@, needle@, with@, 0),
{
    let v = to_chars(s);
    let n: usize = v.len();
    let k: usize = to_chars(needle).len();
    let mut out = String::new();
    let mut i: usize = 0;
    assert(out@ + reworded_from(v@, needle@, with@, 0) =~= reworded_from(v@, needle@, with@, 0));
    while i < n
        invariant
            v@ == s@,
            n == v@.len(),
            k == needle@.len(),
            k > 0,
            i <= n,
            out@ + reworded_from(v@, needle@, with@, i as int) == reworded_from(
                v@,
                needle@,
                with@,
                0,
            ),
        decreases n - i,
    {
        let ghost here = reworded_from(v@, needle@, with@, i as int);
        let starts = i == 0 || !is_word(&v, i - 1);
        if starts && is_at(&v, i, needle) && !is_word(&v, i + k) {
            assert(out@ + here =~= out@ + with@ + reworded_from(v@, needle@, with@, i + k));
            out.append(with);
            i += k;
        } else {
            assert(out@ + here =~= out@.push(v@[i as int]) + reworded_from(
                v@,
                needle@,
                with@,
                i as int + 1,
            ));
            out.push(v[i]);
            i += 1;
        }
    }
    assert(out@ + reworded_from(v@, needle@, with@, i as int) =~= out@);
    out
}

/// A stretch without inline code, its requirement words plain.
pub open spec fn plain_words(s: Seq<char>) -> Seq<char> {
    reworded_from(
        reworded_from(unbold_from(s, 0), "MUST NOT"@, "NEVER"@, 0),
        "SHOULD NOT"@,
        "AVOID"@,
        0,
    )
}

/// The stretches of a line, those outside inline code with plain requirement words.
pub open spec fn plain_stretches(parts: Seq<Seq<char>>) -> Seq<Seq<char>> {
    Seq::new(
        parts.len(),
        |i: int|
            if i % 2 == 0 {
                plain_words(parts[i])
            } else {
                parts[i]
            },
    )
}

/// A line whose requirement words are plain outside inline code.
pub open spec fn requirement_line(line: Seq<char>) -> Seq<char> {
    text::join(plain_stretches(text::split(line, '`')), "`"@)
}

fn apply_rfc2119(s: &str) -> (r: String)
    ensures
        r@ == plain_words(s@),
{
    proof {
        reveal_strlit("MUST NOT");
        reveal_strlit("SHOULD NOT");
    }
    let a = unbold(s);
    let b = replace_word(a.as_str(), "MUST NOT", "NEVER");
    replace_word(b.as_str(), "SHOULD NOT", "AVOID")
}

fn normalize_rfc2119(line: &str) -> (r: String)
    ensures
        r@ == requirement_line(line@),
{
    let parts = split_text(line, '`');
    let mut out: Vec<String> = Vec::new();
    let mut i: usize = 0;
    while i < parts.len()
        invariant
            i <= parts@.len(),
            out@.len() == i,
            forall|j: int|
                0 <= j < i ==> (#[trigger] out@[j])@ == (if j % 2 == 0 {
                    plain_words(parts@[j]@)
                } else {
                    parts@[j]@
                }),
        decreases parts@.len() - i,
    {
        if i % 2 == 0 {
            out.push(apply_rfc2119(parts[i].as_str()));
        } else {
            out.push(parts[i].clone());
        }
        i += 1;
    }
    assert(text::views(out@) =~= plain_stretches(text::views(parts@)));
    join_strings(&out, "`")
}

// ------------------------------------------------------------------ tags and tables

/// A character of a tag's name.
pub open spec fn is_tag_char(c: char) -> bool {
    ('a' <= c && c <= 'z') || c == '-' || c == '_'
}

/// The text is one closing tag, such as `</name>`.
pub open spec fn is_closing_tag(s: Seq<char>) -> bool {
    &&& s.len() >= 4
    &&& s[0] == '<'
    &&& s[1] == '/'
    &&& s.last() == '>'
    &&& forall|i: int| 2 <= i < s.len() - 1 ==> is_tag_char(#[trigger] s[i])
}

fn closing_tag(v: &Vec<char>, from: usize) -> (r: bool)
    requires
        from <= v@.len(),
    ensures
        r == is_closing_tag(v@.subrange(from as int, v@.len() as int)),
{
    let n: usize = v.len();
    let ghost t = v@.subrange(from as int, n as int);
    if n - from < 4 || v[from] != '<' || v[from + 1] != '/' || v[n - 1] != '>' {
        return false;
    }
    let mut i: usize = from + 2;
    while i < n - 1
        invariant
            from + 2 <= i <= n - 1,
            n == v@.len(),
            t == v@.subrange(from as int, n as int),
            forall|j: int| 2 <= j < i - from ==> is_tag_char(#[trigger] t[j]),
        decreases n - i,
    {
        let c = v[i];
        if !(('a' <= c && c <= 'z') || c == '-' || c == '_') {
            assert(!is_tag_char(t[i - from]));
            return false;
        }
        i += 1;
    }
    true
}

/// What stands between the bars of a table line.
pub open spec fn between_bars(s: Seq<char>) -> Option<Seq<char>> {
    if s.len() >= 2 && s[0] == '|' && s.last() == '|' {
        Some(s.subrange(1, s.len() - 1))
    } else {
        None
    }
}

/// A character of a table's separator line.
pub open spec fn is_rule_char(c: char) -> bool {
    c == '-' || c == ':' || c == '|' || text::is_space(Space::Js, c)
}

/// The text is the separator line of a table.
pub open spec fn is_table_sep(s: Seq<char>) -> bool {
    match between_bars(s) {
        Some(inner) => inner.len() > 0 && forall|i: int|
            0 <= i < inner.len() ==> is_rule_char(#[trigger] inner[i]),
        None => false,
    }
}

/// A character that ends a line.
pub open spec fn ends_line(c: char) -> bool {
    c == '\n' || c == '\r' || c == '\u{2028}' || c == '\u{2029}'
}

/// Nothing in the text ends a line.
pub open spec fn is_one_line(s: Seq<char>) -> bool {
    forall|i: int| 0 <= i < s.len() ==> !ends_line(#[trigger] s[i])
}

/// The text is a line of a table.
pub open spec fn is_table_row(s: Seq<char>) -> bool {
    match between_bars(s) {
        Some(inner) => is_one_line(inner),
        None => false,
    }
}

/// The cells without the white space around them.
pub open spec fn trimmed_all(cells: Seq<Seq<char>>) -> Seq<Seq<char>> {
    cells.map_values(|c: Seq<char>| text::trim(Space::Js, c))
}

/// A line of a table with no white space around its cells.
pub open spec fn compact_row(s: Seq<char>) -> Seq<char> {
    text::join(trimmed_all(text::split(s, '|')), "|"@)
}

/// The shortest separator cell of the same alignment.
pub open spec fn rule_of(cell: Seq<char>) -> Seq<char> {
    if cell[0] == ':' && cell.last() == ':' {
        ":---:"@
    } else if cell[0] == ':' {
        ":---"@
    } else if cell.last() == ':' {
        "---:"@
    } else {
        "---"@
    }
}

/// The shortest separator cells, empty cells left out.
pub open spec fn rules_of(cells: Seq<Seq<char>>) -> Seq<Seq<char>>
    decreases cells.len(),
{
    if cells.len() == 0 {
        Seq::empty()
    } else {
        let cell = text::trim(Space::Js, cells.last());
        if cell.len() == 0 {
            rules_of(cells.drop_last())
        } else {
            rules_of(cells.drop_last()).push(rule_of(cell))
        }
    }
}

/// The shortest separator line of the same alignments.
pub open spec fn compact_sep(s: Seq<char>) -> Seq<char> {
    "|"@ + text::join(rules_of(text::split(s, '|')), "|"@) + "|"@
}

fn table_sep(v: &Vec<char>) -> (r: bool)
    ensures
        r == is_table_sep(v@),
{
    let n: usize = v.len();
    if n < 2 || v[0] != '|' || v[n - 1] != '|' {
        return false;
    }
    let ghost inner = v@.subrange(1, n - 1);
    let mut i: usize = 1;
    while i < n - 1
        invariant
            1 <= i <= n - 1,
            n == v@.len(),
            inner == v@.subrange(1, n - 1),
            between_bars(v@) == Some(inner),
            forall|j: int| 0 <= j < i - 1 ==> is_rule_char(#[trigger] inner[j]),
        decreases n - i,
    {
        let c = v[i];
        if !(c == '-' || c == ':' || c == '|' || text::is_space_char(Space::Js, c)) {
            assert(!is_rule_char(inner[i - 1]));
            return false;
        }
        i += 1;
    }
    n > 2
}

fn table_row(v: &Vec<char>) -> (r: bool)
    ensures
        r == is_table_row(v@),
{
    let n: usize = v.len();
    if n < 2 || v[0] != '|' || v[n - 1] != '|' {
        return false;
    }
    let ghost inner = v@.subrange(1, n - 1);
    let mut i: usize = 1;
    while i < n - 1
        invariant
            1 <= i <= n - 1,
            n == v@.len(),
            inner == v@.subrange(1, n - 1),
            between_bars(v@) == Some(inner),
            forall|j: int| 0 <= j < i - 1 ==> !ends_line(#[trigger] inner[j]),
        decreases n - i,
    {
        let c = v[i];
        if c == '\n' || c == '\r' || c == '\u{2028}' || c == '\u{2029}' {
            let ghost k: int = i - 1;
            assert(0 <= k < inner.len() && ends_line(inner[k]));
            assert(!is_one_line(inner));
            return false;
        }
        i += 1;
    }
    true
}

fn compact_table_row(s: &str) -> (r: String)
    ensures
        r@ == compact_row(s@),
{
    let cells = split_text(s, '|');
    let mut out: Vec<String> = Vec::new();
    let mut i: usize = 0;
    while i < cells.len()
        invariant
            i <= cells@.len(),
            out@.len() == i,
            forall|j: int|
                0 <= j < i ==> (#[trigger] out@[j])@ == text::trim(Space::Js, cells@[j]@),
        decreases cells@.len() - i,
    {
        out.push(trim_text(Space::Js, cells[i].as_str()));
        i += 1;
    }
    assert(text::views(out@) =~= trimmed_all(text::views(cells@)));
    join_strings(&out, "|")
}

fn rule_cell(cell: &str) -> (r: &'static str)
    requires
        cell@.len() > 0,
    ensures
        r@ == rule_of(cell@),
{
    let v = to_chars(cell);
    let n: usize = v.len();
    let left = v[0] == ':';
    let right = v[n - 1] == ':';
    if left && right {
        ":---:"
    } else if left {
        ":---"
    } else if right {
        "---:"
    } else {
        "---"
    }
}

fn compact_table_sep(s: &str) -> (r: String)
    ensures
        r@ == compact_sep(s@),
{
    let cells = split_text(s, '|');
    let ghost all = text::views(cells@);
    let mut out: Vec<String> = Vec::new();
    let mut i: usize = 0;
    assert(text::views(out@) =~= rules_of(all.take(0)));
    while i < cells.len()
        invariant
            i <= cells@.len(),
            all == text::views(cells@),
            text::views(out@) == rules_of(all.take(i as int)),
        decreases cells@.len() - i,
    {
        assert(all.take(i as int + 1).drop_last() =~= all.take(i as int));
        let cell = trim_text(Space::Js, cells[i].as_str());
        let filled = to_chars(cell.as_str()).len() > 0;
        if filled {
            let rule = rule_cell(cell.as_str()).to_owned();
            proof {
                text::lemma_views_push(out@, rule);
            }
            out.push(rule);
        }
        i += 1;
    }
    assert(all.take(i as int) =~= all);
    let mut r = String::new();
    r.append("|");
    r.append(join_strings(&out, "|").as_str());
    r.append("|");
    assert(r@ =~= compact_sep(s@));
    r
}

// ------------------------------------------------------------------ lines

/// The first index from `i` on where no blank or tab stands.
pub open spec fn tabs_until(line: Seq<char>, i: int) -> int
    decreases line.len() - i,
{
    if 0 <= i < line.len() && (line[i] == ' ' || line[i] == '\t') {
        tabs_until(line, i + 1)
    } else {
        i
    }
}

/// Where the text of a line starts: after blanks and tabs, and after any white space where the
/// first other character is not ASCII.
pub open spec fn indent_of(line: Seq<char>) -> int {
    let s = tabs_until(line, 0);
    if s < line.len() && line[s] as u32 >= 128 {
        line.len() - text::trim_start(Space::Js, line).len()
    } else {
        s
    }
}

proof fn lemma_tabs_until(line: Seq<char>, i: int)
    requires
        0 <= i <= line.len(),
    ensures
        i <= tabs_until(line, i) <= line.len(),
    decreases line.len() - i,
{
    if i < line.len() && (line[i] == ' ' || line[i] == '\t') {
        lemma_tabs_until(line, i + 1);
    }
}

proof fn lemma_trim_start_shorter(s: Seq<char>)
    ensures
        text::trim_start(Space::Js, s).len() <= s.len(),
    decreases s.len(),
{
    text::lemma_trim_start(Space::Js, s);
}

fn indent(line: &str, v: &Vec<char>) -> (r: usize)
    requires
        v@ == line@,
    ensures
        r == indent_of(v@),
        r <= v@.len(),
{
    let n: usize = v.len();
    let mut s: usize = 0;
    while s < n && (v[s] == ' ' || v[s] == '\t')
        invariant
            s <= n,
            n == v@.len(),
            tabs_until(v@, 0) == tabs_until(v@, s as int),
        decreases n - s,
    {
        s += 1;
    }
    if s < n && v[s] as u32 >= 128 {
        let rest = to_chars(trim_start_text(Space::Js, line).as_str());
        proof {
            lemma_trim_start_shorter(line@);
        }
        n - rest.len()
    } else {
        s
    }
}

/// A line that opens or closes a code block.
pub open spec fn is_fence(line: Seq<char>) -> bool {
    text::stands_at(line, indent_of(line), "```"@) || text::stands_at(
        line,
        indent_of(line),
        "~~~"@,
    )
}

fn fence(line: &str) -> (r: bool)
    ensures
        r == is_fence(line@),
{
    let v = to_chars(line);
    let s: usize = indent(line, &v);
    is_at(&v, s, "```") || is_at(&v, s, "~~~")
}

/// A line outside code, and what is known of it.
pub struct LineView {
    pub line: Seq<char>,
    pub indent: int,
    /// It is a closing tag, or closes a block of the template.
    pub closing: bool,
    /// An HTML comment is open after it.
    pub comment: bool,
}

/// A line with its table compacted.
pub open spec fn compacted(line: Seq<char>) -> Seq<char> {
    let s = indent_of(line);
    let t = line.subrange(s, line.len() as int);
    if is_table_sep(t) {
        line.take(s) + compact_sep(t)
    } else if is_table_row(t) {
        line.take(s) + compact_row(t)
    } else {
        line
    }
}

/// A line outside code as it is written.
pub open spec fn treated(line: Seq<char>, comment: bool, options: FormatOptions) -> LineView {
    let replaced = if options.replace_ascii_symbols {
        uncommented_from(line, 0, comment)
    } else {
        (line, comment)
    };
    let s = indent_of(replaced.0);
    let tabled = compacted(replaced.0);
    let written = if options.normalize_rfc2119 {
        requirement_line(tabled)
    } else {
        tabled
    };
    LineView {
        line: written,
        indent: s,
        closing: is_closing_tag(replaced.0.subrange(s, replaced.0.len() as int)) || (
        options.render_phase == RenderPhase::PreRender && s < replaced.0.len() && replaced.0[s]
            == '{' && text::stands_at(written, s, "{{/"@)),
        comment: replaced.1,
    }
}

fn compact_table(line: &str) -> (r: String)
    ensures
        r@ == compacted(line@),
{
    let v = to_chars(line);
    let n: usize = v.len();
    let s: usize = indent(line, &v);
    let t = part(&v, s, n);
    let head = slice_string(&v, 0, s);
    assert(line@.take(s as int) =~= v@.subrange(0, s as int));
    if table_sep(&t) {
        text::concat(head.as_str(), compact_table_sep(from_chars(&t).as_str()).as_str())
    } else if table_row(&t) {
        text::concat(head.as_str(), compact_table_row(from_chars(&t).as_str()).as_str())
    } else {
        line.to_owned()
    }
}

/// A line outside code, as [`LineView`] says.
struct Line {
    line: String,
    indent: usize,
    closing: bool,
    comment: bool,
}

fn treat(line: &str, comment: bool, options: FormatOptions) -> (r: Line)
    ensures
        r.line@ == treated(line@, comment, options).line,
        r.indent == treated(line@, comment, options).indent,
        r.closing == treated(line@, comment, options).closing,
        r.comment == treated(line@, comment, options).comment,
{
    let replaced = if options.replace_ascii_symbols {
        replace_ascii_outside_comments(line, comment)
    } else {
        (line.to_owned(), comment)
    };
    let v = to_chars(replaced.0.as_str());
    let s: usize = indent(replaced.0.as_str(), &v);
    let tabled = compact_table(replaced.0.as_str());
    let written = if options.normalize_rfc2119 {
        normalize_rfc2119(tabled.as_str())
    } else {
        tabled
    };
    let tag = closing_tag(&v, s);
    let block = options.render_phase == RenderPhase::PreRender && s < v.len() && v[s] == '{'
        && is_at(&to_chars(written.as_str()), s, "{{/");
    Line { line: written, indent: s, closing: tag || block, comment: replaced.1 }
}

/// The lines without the blank ones at their end.
pub open spec fn without_blanks(lines: Seq<Seq<char>>) -> Seq<Seq<char>>
    decreases lines.len(),
{
    if lines.len() > 0 && lines.last().len() == 0 {
        without_blanks(lines.drop_last())
    } else {
        lines
    }
}

fn no_chars(s: &String) -> (r: bool)
    ensures
        r == (s@.len() == 0),
{
    to_chars(s.as_str()).len() == 0
}

fn pop_blanks(lines: &mut Vec<String>)
    ensures
        text::views(final(lines)@) == without_blanks(text::views(old(lines)@)),
{
    let ghost all = text::views(lines@);
    let mut n: usize = lines.len();
    while n > 0 && no_chars(&lines[n - 1])
        invariant
            n == lines@.len(),
            without_blanks(all) == without_blanks(text::views(lines@)),
        decreases n,
    {
        let ghost before = lines@;
        let last = lines.pop();
        assert(text::views(before).last() == before[n - 1]@);
        assert(text::views(lines@) =~= text::views(before).drop_last());
        n -= 1;
    }
    assert(n > 0 ==> text::views(lines@).last() == lines@[n - 1]@);
}

/// A line holds nothing but white space.
pub open spec fn blank(line: Seq<char>) -> bool {
    text::all_space(Space::Js, line)
}

/// The first line from `i` on that is not blank.
pub open spec fn after_blanks(lines: Seq<Seq<char>>, i: int) -> int
    decreases lines.len() - i,
{
    if 0 <= i < lines.len() && blank(lines[i]) {
        after_blanks(lines, i + 1)
    } else {
        i
    }
}

proof fn lemma_after_blanks(lines: Seq<Seq<char>>, i: int)
    requires
        0 <= i <= lines.len(),
    ensures
        i <= after_blanks(lines, i) <= lines.len(),
    decreases lines.len() - i,
{
    if i < lines.len() && blank(lines[i]) {
        lemma_after_blanks(lines, i + 1);
    }
}

/// What was written so far.
pub struct FormatView {
    pub result: Seq<Seq<char>>,
    /// A code block is open.
    pub code: bool,
    /// An HTML comment is open.
    pub comment: bool,
}

/// One line is read: what was written after it, and the line to read next. Code is kept as it is;
/// of a run of blank lines nothing stays, of a single one the line, unless it would come first.
pub open spec fn format_step(
    lines: Seq<Seq<char>>,
    i: int,
    st: FormatView,
    options: FormatOptions,
) -> (int, FormatView) {
    let line = text::trim_end(Space::Js, lines[i]);
    if is_fence(line) {
        (i + 1, FormatView { result: st.result.push(line), code: !st.code, ..st })
    } else if st.code {
        (i + 1, FormatView { result: st.result.push(line), ..st })
    } else {
        let t = treated(line, st.comment, options);
        let kept = FormatView { comment: t.comment, ..st };
        if t.indent >= t.line.len() && (i + 1 >= lines.len() || blank(lines[i + 1])) {
            (
                after_blanks(lines, i + 1),
                FormatView { result: without_blanks(st.result), ..kept },
            )
        } else if t.indent >= t.line.len() && (st.result.len() == 0 || st.result.last().len()
            == 0) {
            (i + 1, kept)
        } else {
            let before = if t.closing {
                without_blanks(st.result)
            } else {
                st.result
            };
            (i + 1, FormatView { result: before.push(t.line), ..kept })
        }
    }
}

/// What is written of the lines from `i` on.
pub open spec fn format_from(
    lines: Seq<Seq<char>>,
    i: int,
    st: FormatView,
    options: FormatOptions,
) -> Seq<Seq<char>>
    decreases
        if i < lines.len() {
            lines.len() - i
        } else {
            0
        },
    via format_from_ends
{
    if 0 <= i < lines.len() {
        let next = format_step(lines, i, st, options);
        format_from(lines, next.0, next.1, options)
    } else {
        st.result
    }
}

#[via_fn]
proof fn format_from_ends(lines: Seq<Seq<char>>, i: int, st: FormatView, options: FormatOptions) {
    if 0 <= i < lines.len() {
        lemma_after_blanks(lines, i + 1);
    }
}

/// Nothing is written yet.
pub open spec fn format_start() -> FormatView {
    FormatView { result: Seq::empty(), code: false, comment: false }
}

/// The lines of a normalized text.
pub open spec fn formatted_lines(content: Seq<char>, options: FormatOptions) -> Seq<Seq<char>> {
    without_blanks(format_from(text::split(content, '\n'), 0, format_start(), options))
}

/// A normalized text.
pub open spec fn formatted(content: Seq<char>, options: FormatOptions) -> Seq<char> {
    text::join(formatted_lines(content, options), "\n"@)
}

struct Written {
    result: Vec<String>,
    code: bool,
    comment: bool,
}

impl View for Written {
    type V = FormatView;

    closed spec fn view(&self) -> FormatView {
        FormatView { result: text::views(self.result@), code: self.code, comment: self.comment }
    }
}

impl Written {
    fn write(&mut self, line: String)
        ensures
            final(self)@ == (FormatView { result: old(self)@.result.push(line@), ..old(self)@ }),
    {
        proof {
            text::lemma_views_push(self.result@, line);
        }
        self.result.push(line);
    }

    fn step(&mut self, lines: &Vec<String>, i: usize, options: FormatOptions) -> (next: usize)
        requires
            i < lines@.len(),
        ensures
            ({
                let s = format_step(text::views(lines@), i as int, old(self)@, options);
                next == s.0 && final(self)@ == s.1
            }),
            i < next <= lines@.len(),
    {
        let n: usize = lines.len();
        let ghost all = text::views(lines@);
        let ghost st = self@;
        let line = trim_end_text(Space::Js, lines[i].as_str());
        if fence(line.as_str()) {
            self.write(line);
            self.code = !self.code;
            i + 1
        } else if self.code {
            self.write(line);
            i + 1
        } else {
            let t = treat(line.as_str(), self.comment, options);
            self.comment = t.comment;
            let empty = t.indent >= to_chars(t.line.as_str()).len();
            if empty && (i + 1 >= n || is_blank(Space::Js, lines[i + 1].as_str())) {
                pop_blanks(&mut self.result);
                proof {
                    lemma_after_blanks(all, i as int + 1);
                }
                let mut j: usize = i + 1;
                while j < n && is_blank(Space::Js, lines[j].as_str())
                    invariant
                        i < j <= n,
                        n == lines@.len(),
                        all == text::views(lines@),
                        after_blanks(all, i as int + 1) == after_blanks(all, j as int),
                    decreases n - j,
                {
                    assert(all[j as int] == lines@[j as int]@);
                    j += 1;
                }
                assert(j < n ==> all[j as int] == lines@[j as int]@);
                j
            } else {
                let m: usize = self.result.len();
                assert(m > 0 ==> st.result.last() == self.result@[m - 1]@);
                if empty && (m == 0 || no_chars(&self.result[m - 1])) {
                    i + 1
                } else {
                    if t.closing {
                        pop_blanks(&mut self.result);
                    }
                    self.write(t.line);
                    i + 1
                }
            }
        }
    }
}

/// Normalizes a text: line ends are trimmed, code is kept as it is, ASCII symbols outside HTML
/// comments and requirement words outside inline code are replaced where asked, tables are
/// compacted, runs of blank lines and blank lines before a closing tag are dropped.
pub fn format(content: &str, options: FormatOptions) -> (r: String)
    ensures
        r@ == formatted(content@, options),
{
    let lines = split_text(content, '\n');
    let n: usize = lines.len();
    let ghost all = text::views(lines@);
    let mut w = Written { result: Vec::new(), code: false, comment: false };
    assert(w@.result =~= format_start().result);
    let mut i: usize = 0;
    while i < n
        invariant
            i <= n,
            n == lines@.len(),
            all == text::views(lines@),
            format_from(all, 0, format_start(), options) == format_from(all, i as int, w@, options),
        decreases n - i,
    {
        i = w.step(&lines, i, options);
    }
    let mut result = w.result;
    pop_blanks(&mut result);
    join_strings(&result, "\n")
}

// ------------------------------------------------------------------ what holds of every text

proof fn lemma_without_blanks(lines: Seq<Seq<char>>)
    ensures
        without_blanks(lines).len() <= lines.len(),
        without_blanks(lines) == lines.take(without_blanks(lines).len() as int),
        without_blanks(lines).len() > 0 ==> without_blanks(lines).last().len() > 0,
        lines.len() > 0 && lines[0].len() > 0 ==> without_blanks(lines).len() > 0,
    decreases lines.len(),
{
    if lines.len() > 0 && lines.last().len() == 0 {
        lemma_without_blanks(lines.drop_last());
        let kept = without_blanks(lines.drop_last());
        assert(lines.drop_last().take(kept.len() as int) =~= lines.take(kept.len() as int));
    } else {
        assert(lines.take(lines.len() as int) =~= lines);
    }
}

/// The first written line shows something, and code is open only after a line.
pub open spec fn starts_well(st: FormatView) -> bool {
    &&& st.code ==> st.result.len() > 0
    &&& st.result.len() > 0 ==> st.result[0].len() > 0
}

proof fn lemma_step_starts_well(
    lines: Seq<Seq<char>>,
    i: int,
    st: FormatView,
    options: FormatOptions,
)
    requires
        starts_well(st),
        0 <= i < lines.len(),
    ensures
        starts_well(format_step(lines, i, st, options).1),
        i < format_step(lines, i, st, options).0 <= lines.len(),
{
    lemma_without_blanks(st.result);
    lemma_after_blanks(lines, i + 1);
    let line = text::trim_end(Space::Js, lines[i]);
    reveal_strlit("```");
    reveal_strlit("~~~");
    let t = treated(line, st.comment, options);
    lemma_tabs_until(line, 0);
    lemma_treated_indent(line, st.comment, options);
}

proof fn lemma_treated_indent(line: Seq<char>, comment: bool, options: FormatOptions)
    ensures
        treated(line, comment, options).indent >= 0,
{
    let replaced = if options.replace_ascii_symbols {
        uncommented_from(line, 0, comment)
    } else {
        (line, comment)
    };
    lemma_tabs_until(replaced.0, 0);
    lemma_trim_start_shorter(replaced.0);
}

proof fn lemma_format_starts_well(
    lines: Seq<Seq<char>>,
    i: int,
    st: FormatView,
    options: FormatOptions,
)
    requires
        starts_well(st),
        0 <= i <= lines.len(),
    ensures
        ({
            let r = format_from(lines, i, st, options);
            r.len() > 0 ==> r[0].len() > 0
        }),
    decreases lines.len() - i,
{
    if i < lines.len() {
        lemma_step_starts_well(lines, i, st, options);
        let next = format_step(lines, i, st, options);
        lemma_format_starts_well(lines, next.0, next.1, options);
    }
}

/// A normalized text starts and ends with a line that shows something.
pub proof fn law_no_blank_lines_at_the_ends(content: Seq<char>, options: FormatOptions)
    ensures
        ({
            let r = formatted_lines(content, options);
            r.len() > 0 ==> r[0].len() > 0 && r.last().len() > 0
        }),
{
    let lines = text::split(content, '\n');
    lemma_format_starts_well(lines, 0, format_start(), options);
    lemma_without_blanks(format_from(lines, 0, format_start(), options));
}

/// Inside a code block every line is kept, but for white space at its end; only a fence line
/// closes the block.
pub proof fn law_code_is_kept(lines: Seq<Seq<char>>, i: int, st: FormatView, options: FormatOptions)
    requires
        st.code,
        0 <= i < lines.len(),
    ensures
        ({
            let line = text::trim_end(Space::Js, lines[i]);
            let next = format_step(lines, i, st, options);
            &&& next.0 == i + 1
            &&& next.1.result == st.result.push(line)
            &&& next.1.code == !is_fence(line)
        }),
{
}

/// A stretch of inline code keeps its requirement words.
pub proof fn law_inline_code_is_kept(line: Seq<char>, i: int)
    requires
        0 <= i < text::split(line, '`').len(),
        i % 2 == 1,
    ensures
        plain_stretches(text::split(line, '`'))[i] == text::split(line, '`')[i],
{
}

// ------------------------------------------------------------------ formatting twice

/// Every character meets a condition.
spec fn every(s: Seq<char>, p: spec_fn(char) -> bool) -> bool {
    forall|i: int| 0 <= i < s.len() ==> p(#[trigger] s[i])
}

/// Every character of every piece meets a condition.
spec fn every_in(pieces: Seq<Seq<char>>, p: spec_fn(char) -> bool) -> bool {
    forall|k: int| 0 <= k < pieces.len() ==> every(#[trigger] pieces[k], p)
}

proof fn lemma_every_joined(pieces: Seq<Seq<char>>, p: spec_fn(char) -> bool)
    requires
        p('|'),
    ensures
        every(text::join(pieces, seq!['|']), p) <==> every_in(pieces, p),
    decreases pieces.len(),
{
    if pieces.len() == 1 {
        assert(text::join(pieces, seq!['|']) == pieces[0]);
    } else if pieces.len() > 1 {
        let init = pieces.drop_last();
        let head = text::join(init, seq!['|']);
        let all = text::join(pieces, seq!['|']);
        let last = pieces[pieces.len() - 1];
        lemma_every_joined(init, p);
        assert(all == head + seq!['|'] + last);
        if every(all, p) {
            assert forall|i: int| 0 <= i < head.len() implies p(#[trigger] head[i]) by {
                assert(all[i] == head[i]);
            }
            assert forall|i: int| 0 <= i < last.len() implies p(#[trigger] last[i]) by {
                assert(all[head.len() + 1 + i] == last[i]);
            }
            assert forall|k: int| 0 <= k < pieces.len() implies every(#[trigger] pieces[k], p) by {
                if k < init.len() {
                    assert(init[k] == pieces[k]);
                }
            }
        }
        if every_in(pieces, p) {
            assert forall|k: int| 0 <= k < init.len() implies every(#[trigger] init[k], p) by {
                assert(init[k] == pieces[k]);
            }
            assert(every(last, p));
        }
    }
}

proof fn lemma_every_trimmed(s: Seq<char>, p: spec_fn(char) -> bool)
    ensures
        every(s, p) ==> every(text::trim(Space::Js, s), p),
        (forall|c: char| text::is_space(Space::Js, c) ==> #[trigger] p(c)) && every(
            text::trim(Space::Js, s),
            p,
        ) ==> every(s, p),
        text::trim(Space::Js, s).len() <= s.len(),
{
    let a = text::trim_start(Space::Js, s);
    let b = text::trim_end(Space::Js, a);
    text::lemma_trim_start(Space::Js, s);
    text::lemma_trim_end(Space::Js, a);
    let lead = s.len() - a.len();
    if every(s, p) {
        assert forall|i: int| 0 <= i < b.len() implies p(#[trigger] b[i]) by {
            assert(b[i] == a[i]);
            assert(a[i] == s[lead + i]);
        }
    }
    if (forall|c: char| text::is_space(Space::Js, c) ==> #[trigger] p(c)) && every(b, p) {
        assert forall|i: int| 0 <= i < s.len() implies p(#[trigger] s[i]) by {
            if i < lead {
                assert(s.take(lead)[i] == s[i]);
            } else if i - lead < b.len() {
                assert(b[i - lead] == s[i]);
            } else {
                assert(a.skip(b.len() as int)[i - lead - b.len()] == s[i]);
            }
        }
    }
}

proof fn lemma_join_shorter(a: Seq<Seq<char>>, b: Seq<Seq<char>>)
    requires
        a.len() == b.len(),
        forall|k: int| 0 <= k < a.len() ==> (#[trigger] a[k]).len() <= b[k].len(),
    ensures
        text::join(a, seq!['|']).len() <= text::join(b, seq!['|']).len(),
    decreases a.len(),
{
    if a.len() > 1 {
        assert forall|k: int| 0 <= k < a.drop_last().len() implies (#[trigger] a.drop_last()[k]).len()
            <= b.drop_last()[k].len() by {
            assert(a[k].len() <= b[k].len());
        }
        lemma_join_shorter(a.drop_last(), b.drop_last());
        assert(a[a.len() - 1].len() <= b[a.len() - 1].len());
    }
}

/// What stands between bars splits into pieces of which the first and the last are empty.
proof fn lemma_barred_pieces(t: Seq<char>)
    requires
        between_bars(t) is Some,
    ensures
        ({
            let ps = text::split(t, '|');
            &&& ps.len() >= 3
            &&& ps[0].len() == 0
            &&& ps.last().len() == 0
            &&& text::pieces_without(ps, '|')
            &&& text::join(ps, seq!['|']) == t
        }),
{
    let ps = text::split(t, '|');
    let bar = seq!['|'];
    text::law_split_pieces_join(t, '|');
    text::lemma_split_without(t, '|');
    text::lemma_split_from_nonempty(t, '|', 0);
    if ps.len() == 1 {
        assert(ps[0][0] == '|');
        assert(ps[0].contains('|'));
    }
    let rest = ps.skip(1);
    assert(seq![ps[0]] + rest =~= ps);
    text::lemma_join_first(ps[0], rest, bar);
    if ps[0].len() > 0 {
        assert(t[0] == ps[0][0]);
        assert(ps[0].contains('|'));
    }
    let head = text::join(ps.drop_last(), bar);
    assert(t == head + bar + ps.last());
    if ps.last().len() > 0 {
        assert(t.last() == ps.last().last());
        assert(ps[ps.len() - 1].contains('|'));
    }
    if ps.len() == 2 {
        assert(ps.drop_last().len() == 1);
        assert(head == ps[0]);
    }
}

/// Pieces of which the first and the last are empty stand between bars.
proof fn lemma_pieces_barred(ps: Seq<Seq<char>>)
    requires
        ps.len() >= 3,
        ps[0].len() == 0,
        ps.last().len() == 0,
    ensures
        between_bars(text::join(ps, seq!['|'])) is Some,
{
    let bar = seq!['|'];
    let t = text::join(ps, bar);
    let rest = ps.skip(1);
    assert(seq![ps[0]] + rest =~= ps);
    text::lemma_join_first(ps[0], rest, bar);
    assert(t[0] == '|');
    let head = text::join(ps.drop_last(), bar);
    assert(t == head + bar + ps.last());
    assert(t.last() == '|');
    assert(rest.drop_last().len() >= 1);
    assert(text::join(rest, bar) == text::join(rest.drop_last(), bar) + bar + rest.last());
}

proof fn lemma_trimmed_pieces(ps: Seq<Seq<char>>)
    requires
        text::pieces_without(ps, '|'),
    ensures
        text::pieces_without(trimmed_all(ps), '|'),
        trimmed_all(trimmed_all(ps)) == trimmed_all(ps),
{
    let ts = trimmed_all(ps);
    assert forall|k: int| 0 <= k < ts.len() implies !(#[trigger] ts[k]).contains('|') by {
        let p = |c: char| c != '|';
        assert(!ps[k].contains('|'));
        assert(every(ps[k], p)) by {
            assert forall|i: int| 0 <= i < ps[k].len() implies p(#[trigger] ps[k][i]) by {
                if ps[k][i] == '|' {
                    assert(ps[k].contains('|'));
                }
            }
        }
        lemma_every_trimmed(ps[k], p);
        if ts[k].contains('|') {
            let i = choose|i: int| 0 <= i < ts[k].len() && ts[k][i] == '|';
            assert(p(ts[k][i]));
        }
    }
    assert forall|k: int| 0 <= k < ts.len() implies #[trigger] trimmed_all(ts)[k] == ts[k] by {
        text::law_trimming_once_is_enough(Space::Js, ps[k]);
    }
    assert(trimmed_all(ts) =~= ts);
}

/// A table line that was compacted is one, and compacting it again changes nothing.
proof fn lemma_row_once(t: Seq<char>)
    requires
        between_bars(t) is Some,
    ensures
        between_bars(compact_row(t)) is Some,
        compact_row(compact_row(t)) == compact_row(t),
        is_table_sep(compact_row(t)) ==> is_table_sep(t),
        is_table_row(t) ==> is_table_row(compact_row(t)),
{
    reveal_strlit("|");
    assert("|"@ =~= seq!['|']);
    let ps = text::split(t, '|');
    let ts = trimmed_all(ps);
    let u = compact_row(t);
    lemma_barred_pieces(t);
    lemma_trimmed_pieces(ps);
    lemma_every_trimmed(ps[0], |c: char| true);
    lemma_every_trimmed(ps.last(), |c: char| true);
    lemma_pieces_barred(ts);
    text::law_joined_pieces_split(ts, '|');
    assert(u == text::join(ts, seq!['|']));
    if is_table_sep(u) {
        let p = |c: char| is_rule_char(c);
        assert(every(u, p)) by {
            let inner = between_bars(u).unwrap();
            assert forall|i: int| 0 <= i < u.len() implies p(#[trigger] u[i]) by {
                if 0 < i < u.len() - 1 {
                    assert(inner[i - 1] == u[i]);
                }
            }
        }
        lemma_every_joined(ts, p);
        assert forall|k: int| 0 <= k < ps.len() implies every(#[trigger] ps[k], p) by {
            assert(every(ts[k], p));
            lemma_every_trimmed(ps[k], p);
        }
        lemma_every_joined(ps, p);
        assert forall|k: int| 0 <= k < ts.len() implies (#[trigger] ts[k]).len() <= ps[k].len() by {
            lemma_every_trimmed(ps[k], p);
        }
        lemma_join_shorter(ts, ps);
        let inner = between_bars(t).unwrap();
        assert forall|i: int| 0 <= i < inner.len() implies is_rule_char(#[trigger] inner[i]) by {
            assert(p(t[i + 1]));
        }
    }
    if is_table_row(t) {
        let q = |c: char| !ends_line(c);
        assert(every(t, q)) by {
            let inner = between_bars(t).unwrap();
            assert forall|i: int| 0 <= i < t.len() implies q(#[trigger] t[i]) by {
                if 0 < i < t.len() - 1 {
                    assert(inner[i - 1] == t[i]);
                }
            }
        }
        lemma_every_joined(ps, q);
        assert forall|k: int| 0 <= k < ts.len() implies every(#[trigger] ts[k], q) by {
            assert(every(ps[k], q));
            lemma_every_trimmed(ps[k], q);
        }
        lemma_every_joined(ts, q);
        let inner = between_bars(u).unwrap();
        assert forall|i: int| 0 <= i < inner.len() implies !ends_line(#[trigger] inner[i]) by {
            assert(q(u[i + 1]));
        }
    }
}

/// A separator cell in its shortest form.
spec fn is_rule(cell: Seq<char>) -> bool {
    cell == ":---:"@ || cell == ":---"@ || cell == "---:"@ || cell == "---"@
}

proof fn lemma_rule(cell: Seq<char>)
    requires
        is_rule(cell),
    ensures
        cell.len() > 0,
        text::trim(Space::Js, cell) == cell,
        rule_of(cell) == cell,
        !cell.contains('|'),
        forall|i: int| 0 <= i < cell.len() ==> (#[trigger] cell[i] == '-' || cell[i] == ':'),
{
    reveal_strlit(":---:");
    reveal_strlit(":---");
    reveal_strlit("---:");
    reveal_strlit("---");
    assert(!text::is_space(Space::Js, cell[0]));
    assert(!text::is_space(Space::Js, cell.last()));
    assert(text::trim_start(Space::Js, cell) == cell);
    assert(text::trim_end(Space::Js, cell) == cell);
}

proof fn lemma_rules(cells: Seq<Seq<char>>)
    ensures
        forall|k: int| 0 <= k < rules_of(cells).len() ==> is_rule(#[trigger] rules_of(cells)[k]),
    decreases cells.len(),
{
    if cells.len() > 0 {
        let before = rules_of(cells.drop_last());
        lemma_rules(cells.drop_last());
        assert forall|k: int| 0 <= k < rules_of(cells).len() implies is_rule(
            #[trigger] rules_of(cells)[k],
        ) by {
            if k < before.len() {
                assert(rules_of(cells)[k] == before[k]);
            }
        }
    }
}

proof fn lemma_rules_again(rules: Seq<Seq<char>>)
    requires
        forall|k: int| 0 <= k < rules.len() ==> is_rule(#[trigger] rules[k]),
    ensures
        rules_of(seq![Seq::<char>::empty()] + rules) == rules,
    decreases rules.len(),
{
    let nothing = Seq::<char>::empty();
    let all = seq![nothing] + rules;
    assert(text::trim_start(Space::Js, nothing) == nothing);
    assert(text::trim(Space::Js, nothing) =~= nothing);
    if rules.len() == 0 {
        assert(all.drop_last() =~= Seq::<Seq<char>>::empty());
        assert(all.last() == nothing);
        assert(rules_of(all.drop_last()) =~= Seq::<Seq<char>>::empty());
        assert(rules_of(all) =~= rules);
    } else {
        let init = rules.drop_last();
        assert forall|k: int| 0 <= k < init.len() implies is_rule(#[trigger] init[k]) by {
            assert(init[k] == rules[k]);
        }
        lemma_rules_again(init);
        assert(all.drop_last() =~= seq![nothing] + init);
        assert(all.last() == rules[rules.len() - 1]);
        lemma_rule(rules[rules.len() - 1]);
        assert(rules_of(all) =~= rules);
    }
}

/// A separator line that was compacted stands between bars, and is kept by compacting.
proof fn lemma_sep_once(t: Seq<char>)
    ensures
        between_bars(compact_sep(t)) is Some,
        is_table_row(compact_sep(t)),
        is_table_sep(compact_sep(t)) ==> compact_sep(compact_sep(t)) == compact_sep(t),
        !is_table_sep(compact_sep(t)) ==> compact_row(compact_sep(t)) == compact_sep(t),
{
    reveal_strlit("|");
    assert("|"@ =~= seq!['|']);
    let bar = seq!['|'];
    let nothing = Seq::<char>::empty();
    let rules = rules_of(text::split(t, '|'));
    let u = compact_sep(t);
    lemma_rules(text::split(t, '|'));
    let p = |c: char| c == '-' || c == ':' || c == '|';
    assert forall|k: int| 0 <= k < rules.len() implies every(#[trigger] rules[k], p) by {
        lemma_rule(rules[k]);
        assert forall|i: int| 0 <= i < rules[k].len() implies p(#[trigger] rules[k][i]) by {}
    }
    lemma_every_joined(rules, p);
    let middle = text::join(rules, bar);
    assert(u == bar + middle + bar);
    assert(u[0] == '|' && u.last() == '|');
    let inner = between_bars(u).unwrap();
    assert(inner =~= middle);
    let dash = seq![nothing] + rules;
    let ps = dash.push(nothing);
    if rules.len() == 0 {
        let two = seq![nothing, nothing, nothing];
        reveal_with_fuel(text::join, 4);
        assert(two.drop_last() =~= seq![nothing, nothing]);
        assert(seq![nothing, nothing].drop_last() =~= seq![nothing]);
        assert(text::join(two, bar) =~= u);
        text::law_joined_pieces_split(two, '|');
        assert(text::trim_start(Space::Js, nothing) == nothing);
        assert(text::trim(Space::Js, nothing) =~= nothing);
        assert(trimmed_all(two) =~= two);
        assert(inner.len() == 0);
    } else {
        text::lemma_join_first(nothing, rules, bar);
        assert(ps.drop_last() =~= dash);
        assert(text::join(ps, bar) == text::join(dash, bar) + bar + nothing);
        assert(text::join(ps, bar) =~= u);
        assert forall|k: int| 0 <= k < ps.len() implies !(#[trigger] ps[k]).contains('|') by {
            if 0 < k < ps.len() - 1 {
                assert(ps[k] == rules[k - 1]);
                lemma_rule(rules[k - 1]);
            }
        }
        text::law_joined_pieces_split(ps, '|');
        lemma_rules_again(rules);
        assert(text::trim_start(Space::Js, nothing) == nothing);
        assert(text::trim(Space::Js, nothing) =~= nothing);
        assert(ps.last() == nothing);
        assert(rules_of(ps) == rules_of(ps.drop_last()));
        assert(rules_of(ps) == rules);
        lemma_rule(rules[0]);
        let rest = rules.skip(1);
        assert(seq![rules[0]] + rest =~= rules);
        if rest.len() > 0 {
            text::lemma_join_first(rules[0], rest, bar);
        } else {
            assert(middle == rules[0]);
        }
        assert(middle.len() > 0);
        assert forall|i: int| 0 <= i < inner.len() implies is_rule_char(#[trigger] inner[i]) by {
            assert(p(middle[i]));
        }
        assert(is_table_sep(u));
    }
    assert forall|i: int| 0 <= i < inner.len() implies !ends_line(#[trigger] inner[i]) by {
        assert(p(middle[i]));
    }
}

proof fn lemma_tabs_are(line: Seq<char>, i: int)
    requires
        0 <= i <= line.len(),
    ensures
        ({
            let r = tabs_until(line, i);
            &&& i <= r <= line.len()
            &&& forall|k: int| i <= k < r ==> (#[trigger] line[k] == ' ' || line[k] == '\t')
            &&& r < line.len() ==> line[r] != ' ' && line[r] != '\t'
        }),
    decreases line.len() - i,
{
    if i < line.len() && (line[i] == ' ' || line[i] == '\t') {
        lemma_tabs_are(line, i + 1);
    }
}

/// Where the text of a line starts: what stands before it is white space, and it does not go on.
proof fn lemma_indent(line: Seq<char>)
    ensures
        0 <= indent_of(line) <= line.len(),
        text::all_space(Space::Js, line.take(indent_of(line))),
        line.len() > 0 && !text::is_space(Space::Js, line.last()) ==> indent_of(line) < line.len(),
{
    lemma_tabs_are(line, 0);
    text::lemma_trim_start(Space::Js, line);
    let s = indent_of(line);
    if s == line.len() && line.len() > 0 {
        assert(line.take(s)[line.len() - 1] == line.last());
    }
}

proof fn lemma_same_indent(line: Seq<char>, m: Seq<char>)
    requires
        indent_of(line) < line.len(),
        indent_of(line) < m.len(),
        (line[indent_of(line)] as u32) < 128,
        !text::is_space(Space::Js, line[indent_of(line)]),
        m[indent_of(line)] == line[indent_of(line)],
        m.take(indent_of(line)) == line.take(indent_of(line)),
    ensures
        indent_of(m) == indent_of(line),
{
    let s = indent_of(line);
    lemma_indent(line);
    lemma_tabs_are(line, 0);
    lemma_tabs_are(m, 0);
    let q = tabs_until(line, 0);
    let r = tabs_until(m, 0);
    assert forall|k: int| 0 <= k < s implies #[trigger] m[k] == line[k] by {
        assert(m.take(s)[k] == line.take(s)[k]);
    }
    text::lemma_trim_start(Space::Js, line);
    text::lemma_trim_start(Space::Js, m);
    assert(q <= s) by {
        if q > s {
            assert(line[s] == ' ' || line[s] == '\t');
        }
    }
    assert(r <= s) by {
        if r > s {
            assert(m[s] == ' ' || m[s] == '\t');
        }
    }
    assert(q == r) by {
        if q < r {
            assert(m[q] == line[q]);
        } else if r < q {
            assert(m[r] == line[r]);
        }
    }
    if q < s {
        assert(m[q] == line[q]);
        let a = m.len() - text::trim_start(Space::Js, m).len();
        if a < s {
            assert(text::trim_start(Space::Js, m)[0] == m[a]);
            assert(line.take(s)[a] == m[a]);
        } else if a > s {
            assert(m.take(a)[s] == m[s]);
        }
    }
}

/// Options that leave requirement words as they are.
spec fn keeps_words(options: FormatOptions) -> bool {
    !options.normalize_rfc2119
}

/// Whether blank lines before the line go, once its symbols are replaced.
spec fn closes(line: Seq<char>, options: FormatOptions) -> bool {
    let kept = FormatOptions {
        render_phase: options.render_phase,
        replace_ascii_symbols: false,
        normalize_rfc2119: false,
    };
    treated(line, false, kept).closing
}

/// A line with its symbols replaced, where the options ask for it, and whether a comment is open
/// after it.
spec fn replaced(line: Seq<char>, comment: bool, options: FormatOptions) -> (Seq<char>, bool) {
    if options.replace_ascii_symbols {
        uncommented_from(line, 0, comment)
    } else {
        (line, comment)
    }
}

proof fn lemma_barred_line(line: Seq<char>, options: FormatOptions)
    requires
        keeps_words(options),
        indent_of(line) < line.len(),
        line[indent_of(line)] == '|',
    ensures
        !is_fence(line),
        !closes(line, options),
{
    reveal_strlit("```");
    reveal_strlit("~~~");
    lemma_indent(line);
    let s = indent_of(line);
    assert(line.subrange(s, line.len() as int)[0] == '|');
}

/// A line that was compacted is kept by compacting, is trimmed where the line was, and is of the
/// same kind.
proof fn lemma_compacted_once(line: Seq<char>, options: FormatOptions)
    requires
        keeps_words(options),
        text::trim_end(Space::Js, line) == line,
    ensures
        compacted(compacted(line)) == compacted(line),
        text::trim_end(Space::Js, compacted(line)) == compacted(line),
        compacted(line).len() == 0 <==> line.len() == 0,
        line.len() > 0 ==> indent_of(line) < compacted(line).len(),
        !line.contains('\n') ==> !compacted(line).contains('\n'),
        is_fence(compacted(line)) == is_fence(line),
        closes(compacted(line), options) == closes(line, options),
{
    let s = indent_of(line);
    let t = line.subrange(s, line.len() as int);
    let m = compacted(line);
    lemma_indent(line);
    text::lemma_trim_end(Space::Js, line);
    if is_table_sep(t) || is_table_row(t) {
        let u = if is_table_sep(t) {
            compact_sep(t)
        } else {
            compact_row(t)
        };
        lemma_sep_once(t);
        lemma_row_once(t);
        assert(t[0] == '|');
        assert(line[s] == '|');
        assert(u[0] == '|' && u.last() == '|' && u.len() >= 2);
        assert(m == line.take(s) + u);
        assert(m.take(s) =~= line.take(s));
        assert(m[s] == '|');
        lemma_same_indent(line, m);
        assert(m.subrange(s, m.len() as int) =~= u);
        assert(m.last() == '|');
        lemma_barred_line(line, options);
        lemma_barred_line(m, options);
        assert(is_table_row(u));
        assert(compacted(m) =~= m);
        if !line.contains('\n') && m.contains('\n') {
            let i = choose|i: int| 0 <= i < m.len() && m[i] == '\n';
            if i < s {
                assert(line[i] == '\n');
            } else {
                assert(m[i] == u[i - s]);
                assert(between_bars(u).unwrap()[i - s - 1] == '\n');
            }
        }
    }
}

/// Replacing symbols makes no line a fence.
proof fn lemma_no_new_fence(line: Seq<char>, comment: bool)
    requires
        is_fence(uncommented_from(line, 0, comment).0),
    ensures
        is_fence(line),
{
    reveal_strlit("```");
    reveal_strlit("~~~");
    let u = uncommented_from(line, 0, comment).0;
    let s = indent_of(u);
    let mark = u.subrange(s, s + 3);
    lemma_indent(u);
    assert forall|k: int| 0 <= k < s + 3 implies {
        let c = #[trigger] u[k];
        !prompt_symbols::is_part(c) && !prompt_symbols::is_sign(c)
    } by {
        if k < s {
            assert(u.take(s)[k] == u[k]);
        } else {
            assert(mark[k - s] == u[k]);
        }
    }
    prompt_symbols::lemma_replaced_start(line, comment, s + 3);
    assert forall|k: int| 0 <= k < s + 3 implies #[trigger] line[k] == u[k] by {
        assert(line.take(s + 3)[k] == u.take(s + 3)[k]);
    }
    assert(mark[0] == u[s]);
    assert(line.take(s) =~= u.take(s));
    lemma_same_indent(u, line);
    assert(line.subrange(s, s + 3) =~= mark);
}

/// A settled line is settled once its table is compacted.
proof fn lemma_compacted_settled(line: Seq<char>, before: bool, after: bool)
    requires
        prompt_symbols::settled(line, before, after),
    ensures
        prompt_symbols::settled(compacted(line), before, after),
{
    let s = indent_of(line);
    let t = line.subrange(s, line.len() as int);
    lemma_indent(line);
    assert(line =~= line.take(s) + t);
    prompt_symbols::lemma_settled_behind(line.take(s), t, before, after);
    if is_table_sep(t) {
        let m = compact_sep(t);
        let inner = between_bars(t).unwrap();
        assert forall|k: int| 0 <= k < t.len() implies #[trigger] t[k] == '-'
            || !prompt_symbols::is_part(t[k]) by {
            if 0 < k < t.len() - 1 {
                assert(inner[k - 1] == t[k]);
            }
        }
        prompt_symbols::lemma_dashes_are_settled(t, before);
        lemma_sep_holds_dashes(t);
        prompt_symbols::lemma_dashes_are_settled(m, before);
        prompt_symbols::lemma_settled_behind(line.take(s), m, before, after);
    } else if is_table_row(t) {
        prompt_symbols::lemma_settled_row(t, before, after);
        prompt_symbols::lemma_settled_behind(line.take(s), compact_row(t), before, after);
    }
}

proof fn lemma_sep_holds_dashes(t: Seq<char>)
    ensures
        forall|k: int|
            0 <= k < compact_sep(t).len() ==> #[trigger] compact_sep(t)[k] == '-'
                || !prompt_symbols::is_part(compact_sep(t)[k]),
{
    reveal_strlit("|");
    assert("|"@ =~= seq!['|']);
    let bar = seq!['|'];
    let rules = rules_of(text::split(t, '|'));
    let u = compact_sep(t);
    let middle = text::join(rules, bar);
    let p = |c: char| c == '-' || c == ':' || c == '|';
    lemma_rules(text::split(t, '|'));
    assert forall|k: int| 0 <= k < rules.len() implies every(#[trigger] rules[k], p) by {
        lemma_rule(rules[k]);
        assert forall|i: int| 0 <= i < rules[k].len() implies p(#[trigger] rules[k][i]) by {}
    }
    lemma_every_joined(rules, p);
    assert(u == bar + middle + bar);
    assert forall|k: int| 0 <= k < u.len() implies #[trigger] u[k] == '-'
        || !prompt_symbols::is_part(u[k]) by {
        if 0 < k < u.len() - 1 {
            assert(u[k] == middle[k - 1]);
            assert(p(middle[k - 1]));
        }
    }
}

/// A line outside code, as it is written, is kept when it is written again.
proof fn lemma_treated_once(line: Seq<char>, comment: bool, options: FormatOptions)
    requires
        keeps_words(options),
        text::trim_end(Space::Js, line) == line,
        !line.contains('\n'),
        !is_fence(line),
    ensures
        ({
            let t = treated(line, comment, options);
            let w = t.line;
            &&& replaced(w, comment, options) == (w, t.comment)
            &&& compacted(w) == w
            &&& text::trim_end(Space::Js, w) == w
            &&& w.len() == 0 <==> line.len() == 0
            &&& line.len() > 0 ==> t.indent < w.len()
            &&& line.len() == 0 ==> t.comment == comment
            &&& !w.contains('\n')
            &&& !is_fence(w)
            &&& closes(w, options) == t.closing
        }),
{
    let u = replaced(line, comment, options);
    let w = compacted(u.0);
    text::lemma_trim_end(Space::Js, line);
    if options.replace_ascii_symbols {
        prompt_symbols::lemma_replaced(line, comment);
        if line.len() > 0 {
            assert(!text::is_space(Space::Js, u.0.last()));
        }
        if u.0.contains('\n') {
            let k = choose|k: int| 0 <= k < u.0.len() && u.0[k] == '\n';
            assert(line.contains(u.0[k]));
        }
        if is_fence(u.0) {
            lemma_no_new_fence(line, comment);
        }
        lemma_compacted_settled(u.0, comment, u.1);
    }
    lemma_compacted_once(u.0, options);
    lemma_indent(u.0);
}

/// Whether a code block is open before the line at an index.
spec fn code_before(lines: Seq<Seq<char>>, i: int) -> bool
    decreases i,
{
    if i <= 0 {
        false
    } else {
        code_before(lines, i - 1) != is_fence(lines[i - 1])
    }
}

/// Whether a comment is open before the line at an index.
spec fn comment_before(lines: Seq<Seq<char>>, i: int, options: FormatOptions) -> bool
    decreases i,
{
    if i <= 0 {
        false
    } else {
        let before = comment_before(lines, i - 1, options);
        if code_before(lines, i - 1) || is_fence(lines[i - 1]) {
            before
        } else {
            replaced(lines[i - 1], before, options).1
        }
    }
}

/// A line stands as formatting leaves it: trimmed, its symbols replaced, its table compacted, and,
/// where it is blank outside code, alone between lines that show something, the next of which
/// closes nothing.
spec fn stands_well(lines: Seq<Seq<char>>, i: int, options: FormatOptions) -> bool {
    let line = lines[i];
    &&& text::trim_end(Space::Js, line) == line
    &&& !line.contains('\n')
    &&& !code_before(lines, i) && !is_fence(line) ==> {
        &&& compacted(line) == line
        &&& replaced(line, comment_before(lines, i, options), options).0 == line
    }
    &&& !code_before(lines, i) && line.len() == 0 ==> {
        &&& i > 0
        &&& lines[i - 1].len() > 0
        &&& i + 1 < lines.len() ==> lines[i + 1].len() > 0 && (is_fence(lines[i + 1]) || !closes(
            lines[i + 1],
            options,
        ))
    }
}

spec fn all_stand_well(lines: Seq<Seq<char>>, options: FormatOptions) -> bool {
    forall|i: int| 0 <= i < lines.len() ==> #[trigger] stands_well(lines, i, options)
}

proof fn lemma_state_of_prefix(
    lines: Seq<Seq<char>>,
    more: Seq<Seq<char>>,
    i: int,
    options: FormatOptions,
)
    requires
        0 <= i <= lines.len() <= more.len(),
        more.take(lines.len() as int) == lines,
    ensures
        code_before(more, i) == code_before(lines, i),
        comment_before(more, i, options) == comment_before(lines, i, options),
    decreases i,
{
    if i > 0 {
        lemma_state_of_prefix(lines, more, i - 1, options);
        assert(more.take(lines.len() as int)[i - 1] == more[i - 1]);
    }
}

proof fn lemma_prefix_stands_well(lines: Seq<Seq<char>>, n: int, options: FormatOptions)
    requires
        0 <= n <= lines.len(),
        all_stand_well(lines, options),
    ensures
        all_stand_well(lines.take(n), options),
        code_before(lines.take(n), n) == code_before(lines, n),
        comment_before(lines.take(n), n, options) == comment_before(lines, n, options),
{
    let t = lines.take(n);
    lemma_state_of_prefix(t, lines, n, options);
    assert forall|i: int| 0 <= i < t.len() implies #[trigger] stands_well(t, i, options) by {
        assert(stands_well(lines, i, options));
        lemma_state_of_prefix(t, lines, i, options);
    }
}

proof fn lemma_empty_is_plain(options: FormatOptions)
    requires
        keeps_words(options),
    ensures
        !is_fence(Seq::<char>::empty()),
        !closes(Seq::<char>::empty(), options),
        compacted(Seq::<char>::empty()) == Seq::<char>::empty(),
        replaced(Seq::<char>::empty(), false, options) == (Seq::<char>::empty(), false),
        replaced(Seq::<char>::empty(), true, options) == (Seq::<char>::empty(), true),
{
    reveal_strlit("```");
    reveal_strlit("~~~");
    lemma_indent(Seq::<char>::empty());
}

/// One more line that stands well.
proof fn lemma_one_more_stands_well(
    lines: Seq<Seq<char>>,
    line: Seq<char>,
    options: FormatOptions,
)
    requires
        keeps_words(options),
        all_stand_well(lines, options),
        text::trim_end(Space::Js, line) == line,
        !line.contains('\n'),
        !code_before(lines, lines.len() as int) && !is_fence(line) ==> compacted(line) == line
            && replaced(
            line,
            comment_before(lines, lines.len() as int, options),
            options,
        ).0 == line,
        !code_before(lines, lines.len() as int) && line.len() == 0 ==> lines.len() > 0
            && lines.last().len() > 0,
        !code_before(lines, lines.len() as int) && lines.len() > 0 && lines.last().len() == 0
            ==> line.len() > 0 && (is_fence(line) || !closes(line, options)),
    ensures
        all_stand_well(lines.push(line), options),
        code_before(lines.push(line), lines.len() as int + 1) == (code_before(
            lines,
            lines.len() as int,
        ) != is_fence(line)),
        comment_before(lines.push(line), lines.len() as int + 1, options) == ({
            let before = comment_before(lines, lines.len() as int, options);
            if code_before(lines, lines.len() as int) || is_fence(line) {
                before
            } else {
                replaced(line, before, options).1
            }
        }),
{
    let more = lines.push(line);
    let n = lines.len() as int;
    assert(more.take(n) =~= lines);
    lemma_state_of_prefix(lines, more, n, options);
    lemma_empty_is_plain(options);
    assert forall|i: int| 0 <= i < more.len() implies #[trigger] stands_well(more, i, options) by {
        if i < n {
            assert(stands_well(lines, i, options));
            lemma_state_of_prefix(lines, more, i, options);
            if i == n - 1 && lines[i].len() == 0 {
                assert(lines[i] =~= Seq::<char>::empty());
                assert(code_before(lines, n) == code_before(lines, i));
            }
        }
    }
}

/// Lines that stand well, and end with one that shows something, are kept.
proof fn lemma_well_standing_is_kept(
    lines: Seq<Seq<char>>,
    i: int,
    st: FormatView,
    options: FormatOptions,
)
    requires
        keeps_words(options),
        all_stand_well(lines, options),
        lines.len() > 0 ==> lines.last().len() > 0,
        0 <= i <= lines.len(),
        st.result == lines.take(i),
        st.code == code_before(lines, i),
        st.comment == comment_before(lines, i, options),
    ensures
        format_from(lines, i, st, options) == lines,
    decreases lines.len() - i,
{
    if i == lines.len() {
        assert(lines.take(i) =~= lines);
    } else {
        let line = lines[i];
        let next = format_step(lines, i, st, options);
        assert(stands_well(lines, i, options));
        assert(lines.take(i).push(line) =~= lines.take(i + 1));
        lemma_empty_is_plain(options);
        lemma_indent(line);
        text::lemma_trim_end(Space::Js, line);
        if !is_fence(line) && !st.code {
            let t = treated(line, st.comment, options);
            assert(t.line == line);
            assert(t.closing == closes(line, options));
            if line.len() == 0 {
                assert(line =~= Seq::<char>::empty());
                assert(i + 1 < lines.len());
                let after = lines[i + 1];
                assert(stands_well(lines, i + 1, options));
                text::lemma_trim_end(Space::Js, after);
                assert(!text::is_space(Space::Js, after[after.len() - 1]));
                assert(!blank(after));
                assert(st.result.last() == lines[i - 1]);
            } else if t.closing && i > 0 {
                assert(stands_well(lines, i - 1, options));
                assert(st.result.last() == lines[i - 1]);
                if lines[i - 1].len() == 0 {
                    assert(lines[i - 1] =~= Seq::<char>::empty());
                    assert(code_before(lines, i) == code_before(lines, i - 1));
                }
            }
        }
        assert(next.0 == i + 1);
        assert(next.1.result == lines.take(i + 1));
        lemma_well_standing_is_kept(lines, i + 1, next.1, options);
    }
}

/// What is written stands well, and a blank line at its end, outside code, is followed by a line
/// that shows something.
spec fn written_well(
    lines: Seq<Seq<char>>,
    i: int,
    st: FormatView,
    options: FormatOptions,
) -> bool {
    &&& all_stand_well(st.result, options)
    &&& code_before(st.result, st.result.len() as int) == st.code
    &&& comment_before(st.result, st.result.len() as int, options) == st.comment
    &&& !st.code && st.result.len() > 0 && st.result.last().len() == 0 ==> i < lines.len()
        && !blank(lines[i])
}

proof fn lemma_dropped_blanks(result: Seq<Seq<char>>, options: FormatOptions)
    requires
        keeps_words(options),
        all_stand_well(result, options),
        !code_before(result, result.len() as int),
    ensures
        all_stand_well(without_blanks(result), options),
        !code_before(without_blanks(result), without_blanks(result).len() as int),
        comment_before(without_blanks(result), without_blanks(result).len() as int, options)
            == comment_before(result, result.len() as int, options),
        without_blanks(result).len() > 0 ==> without_blanks(result).last().len() > 0,
{
    lemma_without_blanks(result);
    lemma_empty_is_plain(options);
    let n = without_blanks(result).len() as int;
    lemma_prefix_stands_well(result, n, options);
    if result.len() > 0 && result.last().len() == 0 {
        let last = result.len() - 1;
        assert(result[last] =~= Seq::<char>::empty());
        assert(stands_well(result, last, options));
        assert(!code_before(result, last));
        assert(result.drop_last().last() == result[last - 1]);
        assert(without_blanks(result.drop_last()) == result.drop_last());
        assert(without_blanks(result) == result.drop_last());
    }
}

proof fn lemma_step_writes_well(
    lines: Seq<Seq<char>>,
    i: int,
    st: FormatView,
    options: FormatOptions,
)
    requires
        keeps_words(options),
        text::pieces_without(lines, '\n'),
        0 <= i < lines.len(),
        written_well(lines, i, st, options),
    ensures
        ({
            let next = format_step(lines, i, st, options);
            i < next.0 <= lines.len() && written_well(lines, next.0, next.1, options)
        }),
{
    let raw = lines[i];
    let line = text::trim_end(Space::Js, raw);
    text::lemma_trim_end(Space::Js, raw);
    lemma_after_blanks(lines, i + 1);
    lemma_empty_is_plain(options);
    lemma_indent(line);
    assert(text::trim_end(Space::Js, line) == line);
    assert(!line.contains('\n')) by {
        if line.contains('\n') {
            let k = choose|k: int| 0 <= k < line.len() && line[k] == '\n';
            assert(raw[k] == '\n');
            assert(raw.contains('\n'));
        }
    }
    assert(line.len() == 0 <==> blank(raw)) by {
        if line.len() == 0 {
            assert(raw.skip(0) =~= raw);
        } else {
            assert(raw[line.len() - 1] == line.last());
        }
    }
    if is_fence(line) {
        if line.len() == 0 {
            assert(line =~= Seq::<char>::empty());
        }
        lemma_one_more_stands_well(st.result, line, options);
    } else if st.code {
        lemma_one_more_stands_well(st.result, line, options);
    } else {
        let t = treated(line, st.comment, options);
        lemma_treated_once(line, st.comment, options);
        lemma_dropped_blanks(st.result, options);
        if line.len() == 0 {
            assert(line =~= Seq::<char>::empty());
            if i + 1 >= lines.len() || blank(lines[i + 1]) {
            } else if st.result.len() > 0 {
                lemma_one_more_stands_well(st.result, line, options);
            }
        } else {
            let before = if t.closing {
                without_blanks(st.result)
            } else {
                st.result
            };
            lemma_one_more_stands_well(before, t.line, options);
        }
    }
}

proof fn lemma_format_writes_well(
    lines: Seq<Seq<char>>,
    i: int,
    st: FormatView,
    options: FormatOptions,
)
    requires
        keeps_words(options),
        text::pieces_without(lines, '\n'),
        0 <= i <= lines.len(),
        written_well(lines, i, st, options),
    ensures
        all_stand_well(format_from(lines, i, st, options), options),
    decreases lines.len() - i,
{
    if i < lines.len() {
        lemma_step_writes_well(lines, i, st, options);
        let next = format_step(lines, i, st, options);
        lemma_format_writes_well(lines, next.0, next.1, options);
    }
}

/// To format a text twice does no more than to format it once, as long as requirement words are
/// left as they are.
pub proof fn law_formatting_once_is_enough(content: Seq<char>, options: FormatOptions)
    requires
        !options.normalize_rfc2119,
    ensures
        formatted(formatted(content, options), options) == formatted(content, options),
{
    reveal_strlit("\n");
    assert("\n"@ =~= seq!['\n']);
    let lines = text::split(content, '\n');
    let written = format_from(lines, 0, format_start(), options);
    let out = formatted_lines(content, options);
    text::lemma_split_without(content, '\n');
    lemma_format_writes_well(lines, 0, format_start(), options);
    lemma_without_blanks(written);
    lemma_prefix_stands_well(written, out.len() as int, options);
    if out.len() > 0 {
        assert forall|i: int| 0 <= i < out.len() implies !(#[trigger] out[i]).contains('\n') by {
            assert(stands_well(out, i, options));
        }
        text::law_joined_pieces_split(out, '\n');
        assert(out.take(0) =~= Seq::<Seq<char>>::empty());
        lemma_well_standing_is_kept(out, 0, format_start(), options);
        assert(without_blanks(out) == out);
    } else {
        let nothing = Seq::<char>::empty();
        let one = seq![nothing];
        assert(text::join(one, seq!['\n']) == nothing);
        text::law_joined_pieces_split(one, '\n');
        assert(text::join(out, seq!['\n']) =~= nothing);
        lemma_empty_is_plain(options);
        lemma_indent(nothing);
        assert(text::trim_end(Space::Js, nothing) == nothing);
        let next = format_step(one, 0, format_start(), options);
        lemma_after_blanks(one, 1);
        assert(next.0 == 1);
        assert(next.1.result == Seq::<Seq<char>>::empty());
        assert(format_from(one, 1, next.1, options) == next.1.result);
    }
}

} // verus!
