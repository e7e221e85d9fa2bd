//! What formatting does to the lines of a prompt, to its tables and to its symbols.
use crate::prompt_format;
use crate::prompt_format::{FormatOptions, FormatView};
use crate::text;
use crate::text::Space;
use vstd::prelude::*;

verus! {

// ------------------------------------------------------------------ lines

/// Code and the lines of its fences are written as they are, without the white space at their
/// ends. A fence opens the code, or closes it.
pub proof fn law_code_is_written_as_it_is(
    lines: Seq<Seq<char>>,
    i: int,
    st: FormatView,
    options: FormatOptions,
)
    requires
        0 <= i < lines.len(),
    ensures
        ({
            let line = text::trim_end(Space::Js, lines[i]);
            let (next, after) = prompt_format::format_step(lines, i, st, options);
            let fence = prompt_format::is_fence(line);
            &&& fence || st.code ==> next == i + 1 && after.result == st.result.push(line)
                && after.comment == st.comment
            &&& fence ==> after.code == !st.code
            &&& !fence ==> after.code == st.code
        }),
{
}

/// A line that shows something, outside code, is written, behind what was written before; only a
/// tag that closes something takes the blank lines before it away.
pub proof fn law_lines_are_written_in_order(
    lines: Seq<Seq<char>>,
    i: int,
    st: FormatView,
    options: FormatOptions,
)
    requires
        0 <= i < lines.len(),
        !st.code,
        !prompt_format::is_fence(text::trim_end(Space::Js, lines[i])),
    ensures
        ({
            let line = text::trim_end(Space::Js, lines[i]);
            let t = prompt_format::treated(line, st.comment, options);
            let (next, after) = prompt_format::format_step(lines, i, st, options);
            let shows = t.indent < t.line.len();
            &&& shows && !t.closing ==> next == i + 1 && after.result == st.result.push(t.line)
            &&& shows && t.closing ==> next == i + 1 && after.result
                == prompt_format::without_blanks(st.result).push(t.line)
            &&& !options.replace_ascii_symbols && !options.normalize_rfc2119 ==> t.line
                == prompt_format::compacted(line)
        }),
{
}

/// A blank line outside code is written where it stands alone between lines that show something; a
/// run of them vanishes, and so does one that would come first.
pub proof fn law_what_becomes_of_blank_lines(
    lines: Seq<Seq<char>>,
    i: int,
    st: FormatView,
    options: FormatOptions,
)
    requires
        0 <= i < lines.len(),
        !st.code,
        text::trim_end(Space::Js, lines[i]).len() == 0,
        !options.replace_ascii_symbols,
        !options.normalize_rfc2119,
    ensures
        ({
            let (next, after) = prompt_format::format_step(lines, i, st, options);
            let run = i + 1 >= lines.len() || text::all_space(Space::Js, lines[i + 1]);
            let first = st.result.len() == 0 || st.result.last().len() == 0;
            &&& run ==> after.result == prompt_format::without_blanks(st.result) && next > i
            &&& !run && first ==> next == i + 1 && after.result == st.result
            &&& !run && !first ==> next == i + 1 && after.result == st.result.push(Seq::empty())
        }),
{
    let line = text::trim_end(Space::Js, lines[i]);
    assert(line =~= Seq::empty());
    reveal_strlit("```");
    reveal_strlit("~~~");
    reveal_strlit("{{/");
    assert("```"@.len() == 3 && "~~~"@.len() == 3);
    assert(prompt_format::indent_of(line) == 0);
    assert(!prompt_format::is_fence(line));
    assert(line.subrange(0, 0) =~= Seq::empty());
    assert(prompt_format::compacted(line) =~= line);
    let t = prompt_format::treated(line, st.comment, options);
    assert(t.line =~= Seq::empty() && t.indent == 0);
    assert(!t.closing);
    lemma_after(lines, i + 1);
}

proof fn lemma_after(lines: Seq<Seq<char>>, i: int)
    requires
        0 <= i,
    ensures
        prompt_format::after_blanks(lines, i) >= i,
    decreases lines.len() - i,
{
    if i < lines.len() && prompt_format::blank(lines[i]) {
        lemma_after(lines, i + 1);
    }
}

/// The lines without the blank ones at their end are the first of them, up to the last that shows
/// something.
pub proof fn law_blank_lines_at_the_end_go(lines: Seq<Seq<char>>)
    ensures
        ({
            let kept = prompt_format::without_blanks(lines);
            &&& kept.len() <= lines.len()
            &&& kept == lines.take(kept.len() as int)
            &&& kept.len() > 0 ==> kept.last().len() > 0
            &&& forall|i: int|
                kept.len() <= i < lines.len() ==> (#[trigger] lines[i]).len() == 0
        }),
    decreases lines.len(),
{
    let kept = prompt_format::without_blanks(lines);
    if lines.len() > 0 && lines.last().len() == 0 {
        law_blank_lines_at_the_end_go(lines.drop_last());
        let less = lines.drop_last();
        assert(less.take(kept.len() as int) =~= lines.take(kept.len() as int));
        assert forall|i: int| kept.len() <= i < lines.len() implies (#[trigger] lines[i]).len()
            == 0 by {
            if i < less.len() {
                assert(less[i].len() == 0);
            }
        }
    } else {
        assert(lines.take(lines.len() as int) =~= lines);
    }
}

// ------------------------------------------------------------------ tables

/// A line of a table keeps its cells, without the white space around them.
pub proof fn law_cells_lose_the_space_around_them(cells: Seq<Seq<char>>)
    requires
        cells.len() > 0,
        forall|i: int| 0 <= i < cells.len() ==> !(#[trigger] cells[i]).contains('|'),
    ensures
        prompt_format::compact_row(text::join(cells, seq!['|'])) == text::join(
            Seq::new(cells.len(), |i: int| text::trim(Space::Js, cells[i])),
            seq!['|'],
        ),
{
    reveal_strlit("|");
    assert("|"@ =~= seq!['|']);
    assert(text::pieces_without(cells, '|'));
    text::law_joined_pieces_split(cells, '|');
    assert(prompt_format::trimmed_all(cells) =~= Seq::new(
        cells.len(),
        |i: int| text::trim(Space::Js, cells[i]),
    ));
}

/// The separator line of a table keeps its alignments: colons stay where they are, and three
/// hyphens stand for any number of them.
pub proof fn law_alignments_are_kept(cells: Seq<Seq<char>>, cell: Seq<char>)
    ensures
        ({
            let t = text::trim(Space::Js, cell);
            let have = prompt_format::rules_of(cells);
            let all = prompt_format::rules_of(cells.push(cell));
            &&& t.len() == 0 ==> all == have
            &&& t.len() > 0 && t[0] == ':' && t.last() == ':' ==> all == have.push(":---:"@)
            &&& t.len() > 0 && t[0] == ':' && t.last() != ':' ==> all == have.push(":---"@)
            &&& t.len() > 0 && t[0] != ':' && t.last() == ':' ==> all == have.push("---:"@)
            &&& t.len() > 0 && t[0] != ':' && t.last() != ':' ==> all == have.push("---"@)
        }),
        prompt_format::rules_of(Seq::empty()).len() == 0,
{
    assert(cells.push(cell).drop_last() =~= cells);
}

/// Only lines between bars are lines of a table; every other line is kept as it is.
pub proof fn law_other_lines_are_no_tables(line: Seq<char>)
    requires
        ({
            let s = prompt_format::indent_of(line);
            s >= line.len() || line[s] != '|' || line.last() != '|'
        }),
        0 <= prompt_format::indent_of(line) <= line.len(),
    ensures
        prompt_format::compacted(line) == line,
{
    let s = prompt_format::indent_of(line);
    let t = line.subrange(s, line.len() as int);
    if t.len() > 0 {
        assert(t[0] == line[s]);
        assert(t.last() == line.last());
    }
}

// ------------------------------------------------------------------ words and symbols

/// Requirement words become plain only outside inline code: what stands between backticks stays.
pub proof fn law_inline_code_keeps_its_words(parts: Seq<Seq<char>>)
    requires
        parts.len() > 0,
        forall|i: int| 0 <= i < parts.len() ==> !(#[trigger] parts[i]).contains('`'),
    ensures
        prompt_format::requirement_line(text::join(parts, seq!['`'])) == text::join(
            Seq::new(
                parts.len(),
                |i: int|
                    if i % 2 == 0 {
                        prompt_format::plain_words(parts[i])
                    } else {
                        parts[i]
                    },
            ),
            seq!['`'],
        ),
{
    reveal_strlit("`");
    assert("`"@ =~= seq!['`']);
    assert(text::pieces_without(parts, '`'));
    text::law_joined_pieces_split(parts, '`');
    assert(prompt_format::plain_stretches(parts) =~= Seq::new(
        parts.len(),
        |i: int|
            if i % 2 == 0 {
                prompt_format::plain_words(parts[i])
            } else {
                parts[i]
            },
    ));
}

proof fn lemma_stands(a: Seq<char>, b: Seq<char>, i: int, p: Seq<char>)
    requires
        0 <= i,
    ensures
        text::stands_at(a + b, a.len() + i, p) == text::stands_at(b, i, p),
{
    let n = a.len() + i;
    if i + p.len() <= b.len() {
        assert((a + b).subrange(n, n + p.len()) =~= b.subrange(i, i + p.len()));
    }
}

proof fn lemma_symbol_shift(a: Seq<char>, b: Seq<char>, i: int)
    requires
        0 <= i,
    ensures
        prompt_format::symbol_at(a + b, a.len() + i) == prompt_format::symbol_at(b, i),
{
    lemma_stands(a, b, i, "..."@);
    lemma_stands(a, b, i, "<->"@);
    lemma_stands(a, b, i, "->"@);
    lemma_stands(a, b, i, "<-"@);
    lemma_stands(a, b, i, "!="@);
    lemma_stands(a, b, i, "<="@);
    lemma_stands(a, b, i, ">="@);
}

proof fn lemma_symbols_shift(a: Seq<char>, b: Seq<char>, i: int)
    requires
        0 <= i,
    ensures
        prompt_format::symbols_from(a + b, a.len() + i) == prompt_format::symbols_from(b, i),
    decreases b.len() - i,
{
    if i < b.len() {
        lemma_symbol_shift(a, b, i);
        lemma_literals();
        match prompt_format::symbol_at(b, i) {
            Some((c, n)) => {
                if n > 0 {
                    lemma_symbols_shift(a, b, i + n);
                }
            },
            None => {
                assert((a + b)[a.len() + i] == b[i]);
                lemma_symbols_shift(a, b, i + 1);
            },
        }
    }
}

/// What spells a symbol in ASCII is replaced by the symbol, and reading goes on behind it.
pub proof fn law_which_symbols_are_replaced(rest: Seq<char>)
    ensures
        prompt_format::with_symbols("..."@ + rest) == seq!['…'] + prompt_format::with_symbols(rest),
        prompt_format::with_symbols("<->"@ + rest) == seq!['↔'] + prompt_format::with_symbols(rest),
        prompt_format::with_symbols("->"@ + rest) == seq!['→'] + prompt_format::with_symbols(rest),
        prompt_format::with_symbols("!="@ + rest) == seq!['≠'] + prompt_format::with_symbols(rest),
        prompt_format::with_symbols("<="@ + rest) == seq!['≤'] + prompt_format::with_symbols(rest),
        prompt_format::with_symbols(">="@ + rest) == seq!['≥'] + prompt_format::with_symbols(rest),
        rest.len() == 0 || rest[0] != '>' ==> prompt_format::with_symbols("<-"@ + rest) == seq!['←']
            + prompt_format::with_symbols(rest),
{
    lemma_literals();
    let dots = "..."@;
    let both = "<->"@;
    let right = "->"@;
    let left = "<-"@;
    let differs = "!="@;
    let less = "<="@;
    let more = ">="@;
    lemma_head(dots, rest);
    lemma_head(both, rest);
    lemma_head(right, rest);
    lemma_head(left, rest);
    lemma_head(differs, rest);
    lemma_head(less, rest);
    lemma_head(more, rest);
    lemma_symbols_shift(dots, rest, 0);
    lemma_symbols_shift(both, rest, 0);
    lemma_symbols_shift(right, rest, 0);
    lemma_symbols_shift(left, rest, 0);
    lemma_symbols_shift(differs, rest, 0);
    lemma_symbols_shift(less, rest, 0);
    lemma_symbols_shift(more, rest, 0);
    assert(prompt_format::symbol_at(dots + rest, 0) == Some(('…', 3int)));
    assert(prompt_format::symbol_at(both + rest, 0) == Some(('↔', 3int))) by {
        lemma_not_at(both + rest, dots, 0);
    }
    assert(prompt_format::symbol_at(right + rest, 0) == Some(('→', 2int))) by {
        lemma_not_at(right + rest, dots, 0);
        lemma_not_at(right + rest, both, 0);
    }
    assert(prompt_format::symbol_at(differs + rest, 0) == Some(('≠', 2int))) by {
        lemma_not_at(differs + rest, dots, 0);
        lemma_not_at(differs + rest, both, 0);
        lemma_not_at(differs + rest, right, 0);
        lemma_not_at(differs + rest, left, 0);
    }
    assert(prompt_format::symbol_at(less + rest, 0) == Some(('≤', 2int))) by {
        lemma_not_at(less + rest, dots, 0);
        lemma_not_at(less + rest, both, 1);
        lemma_not_at(less + rest, right, 0);
        lemma_not_at(less + rest, left, 1);
        lemma_not_at(less + rest, differs, 0);
    }
    assert(prompt_format::symbol_at(more + rest, 0) == Some(('≥', 2int))) by {
        lemma_not_at(more + rest, dots, 0);
        lemma_not_at(more + rest, both, 0);
        lemma_not_at(more + rest, right, 0);
        lemma_not_at(more + rest, left, 0);
        lemma_not_at(more + rest, differs, 0);
        lemma_not_at(more + rest, less, 0);
    }
    if rest.len() == 0 || rest[0] != '>' {
        assert(prompt_format::symbol_at(left + rest, 0) == Some(('←', 2int))) by {
            lemma_not_at(left + rest, dots, 0);
            lemma_not_at(left + rest, right, 0);
            if rest.len() > 0 {
                assert((left + rest)[2] == rest[0]);
                lemma_not_at(left + rest, both, 2);
            }
        }
    }
}

proof fn lemma_literals()
    ensures
        "..."@ == seq!['.', '.', '.'],
        "<->"@ == seq!['<', '-', '>'],
        "->"@ == seq!['-', '>'],
        "<-"@ == seq!['<', '-'],
        "!="@ == seq!['!', '='],
        "<="@ == seq!['<', '='],
        ">="@ == seq!['>', '='],
{
    reveal_strlit("...");
    reveal_strlit("<->");
    reveal_strlit("->");
    reveal_strlit("<-");
    reveal_strlit("!=");
    reveal_strlit("<=");
    reveal_strlit(">=");
    assert("..."@ =~= seq!['.', '.', '.']);
    assert("<->"@ =~= seq!['<', '-', '>']);
    assert("->"@ =~= seq!['-', '>']);
    assert("<-"@ =~= seq!['<', '-']);
    assert("!="@ =~= seq!['!', '=']);
    assert("<="@ =~= seq!['<', '=']);
    assert(">="@ =~= seq!['>', '=']);
}

proof fn lemma_head(p: Seq<char>, rest: Seq<char>)
    ensures
        text::stands_at(p + rest, 0, p),
        forall|i: int| 0 <= i < p.len() ==> (p + rest)[i] == p[i],
{
    assert((p + rest).subrange(0, p.len() as int) =~= p);
}

proof fn lemma_not_at(s: Seq<char>, p: Seq<char>, k: int)
    requires
        0 <= k < p.len(),
        k < s.len() ==> s[k] != p[k],
    ensures
        !text::stands_at(s, 0, p),
{
    if text::stands_at(s, 0, p) {
        assert(s.subrange(0, p.len() as int)[k] == s[k]);
    }
}

} // verus!
