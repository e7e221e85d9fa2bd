//! What replacing symbols does to a text: where it may be cut, and that what was replaced is kept
//! when it is replaced again.
use crate::prompt_format;
use crate::text;
use crate::text::Space;
use vstd::prelude::*;

verus! {

/// A character that symbols and the marks of comments are spelled with.
pub open spec fn is_part(c: char) -> bool {
    c == '.' || c == '<' || c == '-' || c == '>' || c == '!' || c == '='
}

/// A character that replaces a symbol.
pub open spec fn is_sign(c: char) -> bool {
    c == '…' || c == '↔' || c == '→' || c == '←' || c == '≠' || c == '≤' || c == '≥'
}

/// Whether a character stands at an index.
spec fn at(s: Seq<char>, i: int, c: char) -> bool {
    0 <= i < s.len() && s[i] == c
}

/// The symbol at an index, character by character.
spec fn sign_at(s: Seq<char>, i: int) -> Option<(char, int)> {
    if at(s, i, '.') && at(s, i + 1, '.') && at(s, i + 2, '.') {
        Some(('…', 3))
    } else if at(s, i, '<') && at(s, i + 1, '-') && at(s, i + 2, '>') {
        Some(('↔', 3))
    } else if at(s, i, '-') && at(s, i + 1, '>') {
        Some(('→', 2))
    } else if at(s, i, '<') && at(s, i + 1, '-') {
        Some(('←', 2))
    } else if at(s, i, '!') && at(s, i + 1, '=') {
        Some(('≠', 2))
    } else if at(s, i, '<') && at(s, i + 1, '=') {
        Some(('≤', 2))
    } else if at(s, i, '>') && at(s, i + 1, '=') {
        Some(('≥', 2))
    } else {
        None
    }
}

proof fn lemma_two(s: Seq<char>, i: int, p: Seq<char>)
    requires
        p.len() == 2,
    ensures
        text::stands_at(s, i, p) <==> at(s, i, p[0]) && at(s, i + 1, p[1]),
{
    if at(s, i, p[0]) && at(s, i + 1, p[1]) {
        assert(s.subrange(i, i + 2) =~= p);
    }
    if text::stands_at(s, i, p) {
        assert(s.subrange(i, i + 2)[0] == s[i]);
        assert(s.subrange(i, i + 2)[1] == s[i + 1]);
    }
}

proof fn lemma_three(s: Seq<char>, i: int, p: Seq<char>)
    requires
        p.len() == 3,
    ensures
        text::stands_at(s, i, p) <==> at(s, i, p[0]) && at(s, i + 1, p[1]) && at(s, i + 2, p[2]),
{
    if at(s, i, p[0]) && at(s, i + 1, p[1]) && at(s, i + 2, p[2]) {
        assert(s.subrange(i, i + 3) =~= p);
    }
    if text::stands_at(s, i, p) {
        assert(s.subrange(i, i + 3)[0] == s[i]);
        assert(s.subrange(i, i + 3)[1] == s[i + 1]);
        assert(s.subrange(i, i + 3)[2] == s[i + 2]);
    }
}

proof fn lemma_sign_at(s: Seq<char>, i: int)
    ensures
        prompt_format::symbol_at(s, i) == sign_at(s, i),
{
    reveal_strlit("...");
    reveal_strlit("<->");
    reveal_strlit("->");
    reveal_strlit("<-");
    reveal_strlit("!=");
    reveal_strlit("<=");
    reveal_strlit(">=");
    lemma_three(s, i, "..."@);
    lemma_three(s, i, "<->"@);
    lemma_two(s, i, "->"@);
    lemma_two(s, i, "<-"@);
    lemma_two(s, i, "!="@);
    lemma_two(s, i, "<="@);
    lemma_two(s, i, ">="@);
}

/// The marks of comments are spelled without signs.
proof fn lemma_marks()
    ensures
        "-->"@.len() == 3,
        "<!--"@.len() == 4,
        forall|k: int| 0 <= k < 3 ==> is_part(#[trigger] "-->"@[k]),
        forall|k: int| 0 <= k < 4 ==> is_part(#[trigger] "<!--"@[k]),
{
    reveal_strlit("-->");
    reveal_strlit("<!--");
}

// ------------------------------------------------------------------ finding

/// The first place is found where nothing stands before it.
proof fn lemma_first(s: Seq<char>, p: Seq<char>, from: int, i: int)
    requires
        0 <= from <= i,
        text::stands_at(s, i, p),
        forall|j: int| from <= j < i ==> !#[trigger] text::stands_at(s, j, p),
    ensures
        text::find_text(s, p, from) == Some(i),
{
    text::lemma_find_text(s, p, from);
}

proof fn lemma_nowhere(s: Seq<char>, p: Seq<char>, from: int)
    requires
        0 <= from,
        forall|j: int| from <= j ==> !#[trigger] text::stands_at(s, j, p),
    ensures
        text::find_text(s, p, from) is None,
{
    text::lemma_find_text(s, p, from);
}

proof fn lemma_stands_shifted(x: Seq<char>, y: Seq<char>, p: Seq<char>, j: int)
    requires
        0 <= j,
    ensures
        text::stands_at(x + y, x.len() + j, p) == text::stands_at(y, j, p),
{
    if j + p.len() <= y.len() {
        assert((x + y).subrange(x.len() + j, x.len() + j + p.len()) =~= y.subrange(
            j,
            j + p.len(),
        ));
    }
}

proof fn lemma_find_shifted(x: Seq<char>, y: Seq<char>, p: Seq<char>, i: int)
    requires
        0 <= i,
    ensures
        match text::find_text(y, p, i) {
            Some(k) => text::find_text(x + y, p, x.len() + i) == Some(x.len() + k),
            None => text::find_text(x + y, p, x.len() + i) is None,
        },
{
    let n = x.len() as int;
    text::lemma_find_text(y, p, i);
    assert forall|j: int| n + i <= j implies #[trigger] text::stands_at(x + y, j, p)
        == text::stands_at(y, j - n, p) by {
        lemma_stands_shifted(x, y, p, j - n);
    }
    match text::find_text(y, p, i) {
        Some(k) => {
            assert(text::stands_at(x + y, n + k, p));
            lemma_first(x + y, p, n + i, n + k);
        },
        None => lemma_nowhere(x + y, p, n + i),
    }
}

/// A text that does not hold a character is found before it, or after it.
proof fn lemma_find_cut(a: Seq<char>, d: char, b: Seq<char>, p: Seq<char>, i: int)
    requires
        0 <= i <= a.len(),
        p.len() > 0,
        !p.contains(d),
    ensures
        ({
            let line = a.push(d) + b;
            match text::find_text(a, p, i) {
                Some(k) => text::find_text(line, p, i) == Some(k),
                None => text::find_text(line, p, i) == text::find_text(line, p, a.len() as int + 1),
            }
        }),
{
    let line = a.push(d) + b;
    let n = a.len() as int;
    text::lemma_find_text(a, p, i);
    text::lemma_find_text(line, p, n + 1);
    assert forall|j: int| i <= j <= n implies #[trigger] text::stands_at(line, j, p)
        == text::stands_at(a, j, p) by {
        if j + p.len() <= n {
            assert(line.subrange(j, j + p.len()) =~= a.subrange(j, j + p.len()));
        } else if text::stands_at(line, j, p) {
            assert(line.subrange(j, j + p.len())[n - j] == line[n]);
            assert(p[n - j] == d);
        }
    }
    match text::find_text(a, p, i) {
        Some(k) => lemma_first(line, p, i, k),
        None => {
            match text::find_text(line, p, n + 1) {
                Some(k) => lemma_first(line, p, i, k),
                None => lemma_nowhere(line, p, i),
            }
        },
    }
}

// ------------------------------------------------------------------ symbols

proof fn lemma_symbols_shifted(x: Seq<char>, y: Seq<char>, i: int)
    requires
        0 <= i,
    ensures
        prompt_format::symbols_from(x + y, x.len() + i) == prompt_format::symbols_from(y, i),
    decreases y.len() - i,
{
    if i < y.len() {
        lemma_sign_at(x + y, x.len() + i);
        lemma_sign_at(y, i);
        assert(sign_at(x + y, x.len() + i) == sign_at(y, i));
        match sign_at(y, i) {
            Some((_, n)) => {
                lemma_symbols_shifted(x, y, i + n);
                assert(x.len() + (i + n) == x.len() + i + n);
            },
            None => {
                lemma_symbols_shifted(x, y, i + 1);
                assert(x.len() + (i + 1) == x.len() + i + 1);
            },
        }
    }
}

/// No symbol goes across a character that no symbol is spelled with.
proof fn lemma_symbols_cut(a: Seq<char>, d: char, b: Seq<char>, i: int)
    requires
        0 <= i <= a.len(),
        !is_part(d),
    ensures
        prompt_format::symbols_from(a.push(d) + b, i) == prompt_format::symbols_from(a, i).push(d)
            + prompt_format::with_symbols(b),
    decreases a.len() - i,
{
    let line = a.push(d) + b;
    lemma_sign_at(line, i);
    lemma_sign_at(a, i);
    if i == a.len() {
        assert(line[i] == d);
        lemma_symbols_shifted(a.push(d), b, 0);
        assert(prompt_format::symbols_from(line, i) == seq![d] + prompt_format::symbols_from(
            line,
            i + 1,
        ));
        assert(prompt_format::symbols_from(line, i) =~= prompt_format::symbols_from(a, i).push(d)
            + prompt_format::with_symbols(b));
    } else {
        assert(line[a.len() as int] == d);
        assert(sign_at(line, i) == sign_at(a, i));
        match sign_at(a, i) {
            Some((c, n)) => {
                lemma_symbols_cut(a, d, b, i + n);
                assert(seq![c] + (prompt_format::symbols_from(a, i + n).push(d)
                    + prompt_format::with_symbols(b)) =~= (seq![c] + prompt_format::symbols_from(
                    a,
                    i + n,
                )).push(d) + prompt_format::with_symbols(b));
            },
            None => {
                lemma_symbols_cut(a, d, b, i + 1);
                assert(seq![a[i]] + (prompt_format::symbols_from(a, i + 1).push(d)
                    + prompt_format::with_symbols(b)) =~= (seq![a[i]]
                    + prompt_format::symbols_from(a, i + 1)).push(d) + prompt_format::with_symbols(
                    b,
                ));
            },
        }
    }
}

/// What a written text starts with, where it holds no sign, the text started with.
proof fn lemma_written_start(s: Seq<char>, i: int, t: Seq<char>, q: Seq<char>)
    requires
        0 <= i <= s.len(),
        text::stands_at(prompt_format::symbols_from(s, i) + t, 0, q),
        forall|k: int| 0 <= k < q.len() ==> !is_sign(#[trigger] q[k]),
    ensures
        text::stands_at(s.skip(i) + t, 0, q),
    decreases q.len(),
{
    let out = prompt_format::symbols_from(s, i) + t;
    let from = s.skip(i) + t;
    assert(out.subrange(0, q.len() as int) == q);
    if q.len() == 0 {
        assert(from.subrange(0, 0) =~= q);
    } else if i == s.len() {
        assert(from =~= out);
    } else {
        lemma_sign_at(s, i);
        assert(out.subrange(0, q.len() as int)[0] == out[0]);
        assert(sign_at(s, i) is None);
        let rest = prompt_format::symbols_from(s, i + 1);
        let q1 = q.skip(1);
        assert(out =~= seq![s[i]] + (rest + t));
        assert((rest + t).subrange(0, q1.len() as int) =~= q1) by {
            assert forall|k: int| 0 <= k < q1.len() implies (rest + t)[k] == q1[k] by {
                assert(out.subrange(0, q.len() as int)[k + 1] == q[k + 1]);
            }
        }
        lemma_written_start(s, i + 1, t, q1);
        let next = s.skip(i + 1) + t;
        assert(from =~= seq![s[i]] + next);
        assert(from.subrange(0, q.len() as int) =~= q) by {
            assert forall|k: int| 0 <= k < q.len() implies from[k] == q[k] by {
                if k > 0 {
                    assert(next.subrange(0, q1.len() as int)[k - 1] == q1[k - 1]);
                }
            }
        }
    }
}

/// A mark without signs that starts in a written text started in the text.
proof fn lemma_no_new_mark(s: Seq<char>, i: int, t: Seq<char>, k: int, p: Seq<char>) -> (j: int)
    requires
        0 <= i <= s.len(),
        0 <= k < prompt_format::symbols_from(s, i).len(),
        p.len() > 0,
        text::stands_at(prompt_format::symbols_from(s, i) + t, k, p),
        forall|m: int| 0 <= m < p.len() ==> !is_sign(#[trigger] p[m]),
    ensures
        i <= j < s.len(),
        text::stands_at(s + t, j, p),
    decreases s.len() - i,
{
    let out = prompt_format::symbols_from(s, i);
    lemma_sign_at(s, i);
    if k == 0 {
        lemma_written_start(s, i, t, p);
        assert(s + t =~= s.take(i) + (s.skip(i) + t));
        lemma_stands_shifted(s.take(i), s.skip(i) + t, p, 0);
        i
    } else {
        let n: int = match sign_at(s, i) {
            Some((_, n)) => n,
            None => 1,
        };
        let rest = prompt_format::symbols_from(s, i + n);
        assert(out =~= seq![out[0]] + rest);
        assert(out + t =~= seq![out[0]] + (rest + t));
        lemma_stands_shifted(seq![out[0]], rest + t, p, k - 1);
        lemma_no_new_mark(s, i + n, t, k - 1, p)
    }
}

proof fn lemma_symbols_again(s: Seq<char>, i: int)
    requires
        0 <= i <= s.len(),
    ensures
        prompt_format::with_symbols(prompt_format::symbols_from(s, i))
            == prompt_format::symbols_from(s, i),
    decreases s.len() - i,
{
    if i < s.len() {
        let o = prompt_format::symbols_from(s, i);
        lemma_sign_at(s, i);
        lemma_sign_at(o, 0);
        let n: int = match sign_at(s, i) {
            Some((_, n)) => n,
            None => 1,
        };
        let rest = prompt_format::symbols_from(s, i + n);
        assert(o =~= seq![o[0]] + rest);
        lemma_symbols_again(s, i + n);
        lemma_symbols_shifted(seq![o[0]], rest, 0);
        assert(sign_at(o, 0) is None) by {
            if sign_at(o, 0) is Some {
                let m = sign_at(o, 0).unwrap().1;
                let q = o.take(m);
                let nothing = Seq::<char>::empty();
                assert(o + nothing =~= o);
                assert(o.subrange(0, q.len() as int) =~= q);
                lemma_written_start(s, i, nothing, q);
                let from = s.skip(i) + nothing;
                assert forall|k: int| 0 <= k < m implies #[trigger] o[k] == s[i + k] by {
                    assert(from.subrange(0, m)[k] == q[k]);
                }
                assert(o[0] == s[i] && o[1] == s[i + 1]);
                assert(m == 3 ==> o[2] == s[i + 2]);
                assert(i + m <= s.len());
            }
        }
    }
}

proof fn lemma_symbols_shape(s: Seq<char>, i: int)
    requires
        0 <= i <= s.len(),
    ensures
        ({
            let o = prompt_format::symbols_from(s, i);
            &&& o.len() <= s.len() - i
            &&& o.len() == 0 <==> i == s.len()
            &&& i < s.len() ==> o.last() == s.last() || is_sign(o.last())
            &&& i < s.len() ==> o[0] == s[i] || is_sign(o[0])
            &&& forall|k: int| 0 <= k < o.len() ==> s.contains(#[trigger] o[k]) || is_sign(o[k])
        }),
    decreases s.len() - i,
{
    if i < s.len() {
        lemma_sign_at(s, i);
        let o = prompt_format::symbols_from(s, i);
        let n: int = match sign_at(s, i) {
            Some((_, n)) => n,
            None => 1,
        };
        let rest = prompt_format::symbols_from(s, i + n);
        lemma_symbols_shape(s, i + n);
        assert(o =~= seq![o[0]] + rest);
        assert forall|k: int| 0 <= k < o.len() implies s.contains(#[trigger] o[k]) || is_sign(
            o[k],
        ) by {
            if k > 0 {
                assert(o[k] == rest[k - 1]);
            }
        }
    }
}

// ------------------------------------------------------------------ outside comments

/// Where a comment ends, or starts and ends, from an index on.
proof fn lemma_found(line: Seq<char>, i: int)
    requires
        0 <= i,
    ensures
        match text::find_text(line, "-->"@, i) {
            Some(close) => i <= close && close + 3 <= line.len(),
            None => true,
        },
        match text::find_text(line, "<!--"@, i) {
            Some(open) => i <= open && open + 4 <= line.len(),
            None => true,
        },
{
    lemma_marks();
    text::lemma_find_text(line, "-->"@, i);
    text::lemma_find_text(line, "<!--"@, i);
}

proof fn lemma_shifted(x: Seq<char>, y: Seq<char>, i: int, comment: bool)
    requires
        0 <= i,
    ensures
        prompt_format::uncommented_from(x + y, x.len() + i, comment)
            == prompt_format::uncommented_from(y, i, comment),
    decreases y.len() - i,
{
    let n = x.len() as int;
    let l = x + y;
    let end = y.len() as int;
    if i < y.len() {
        lemma_found(y, i);
        lemma_find_shifted(x, y, "-->"@, i);
        lemma_find_shifted(x, y, "<!--"@, i);
        assert(l.subrange(n + i, l.len() as int) =~= y.subrange(i, end));
        if comment {
            match text::find_text(y, "-->"@, i) {
                Some(close) => {
                    lemma_shifted(x, y, close + 3, false);
                    assert(n + close + 3 == n + (close + 3));
                    assert(l.subrange(n + i, n + close + 3) =~= y.subrange(i, close + 3));
                },
                None => {},
            }
        } else {
            match text::find_text(y, "<!--"@, i) {
                Some(open) => {
                    lemma_found(y, open + 4);
                    lemma_find_shifted(x, y, "-->"@, open + 4);
                    assert(n + open + 4 == n + (open + 4));
                    assert(l.subrange(n + i, n + open) =~= y.subrange(i, open));
                    assert(l.subrange(n + open, l.len() as int) =~= y.subrange(open, end));
                    match text::find_text(y, "-->"@, open + 4) {
                        Some(close) => {
                            lemma_shifted(x, y, close + 3, false);
                            assert(n + close + 3 == n + (close + 3));
                            assert(l.subrange(n + open, n + close + 3) =~= y.subrange(
                                open,
                                close + 3,
                            ));
                        },
                        None => {},
                    }
                },
                None => {},
            }
        }
    }
}

/// An open comment that does not end up to an index goes on there.
proof fn lemma_comment_goes_on(line: Seq<char>, i: int, m: int)
    requires
        0 <= i < m <= line.len(),
        text::find_text(line, "-->"@, i) == text::find_text(line, "-->"@, m),
    ensures
        ({
            let rest = prompt_format::uncommented_from(line, m, true);
            prompt_format::uncommented_from(line, i, true) == (
                line.subrange(i, m) + rest.0,
                rest.1,
            )
        }),
{
    let end = line.len() as int;
    let rest = prompt_format::uncommented_from(line, m, true);
    lemma_marks();
    lemma_found(line, m);
    if m == end {
        lemma_past_the_end(line, "-->"@, m);
    }
    match text::find_text(line, "-->"@, m) {
        Some(close) => {
            let after = prompt_format::uncommented_from(line, close + 3, false);
            assert(line.subrange(i, close + 3) + after.0 =~= line.subrange(i, m) + (line.subrange(
                m,
                close + 3,
            ) + after.0));
        },
        None => {
            assert(line.subrange(i, end) =~= line.subrange(i, m) + line.subrange(m, end));
            if m == end {
                assert(line.subrange(i, end) =~= line.subrange(i, m) + rest.0);
            }
        },
    }
}

/// Text in which no comment starts up to a character that no symbol is spelled with goes on
/// behind it.
proof fn lemma_text_goes_on(line: Seq<char>, i: int, n: int)
    requires
        0 <= i <= n < line.len(),
        !is_part(line[n]),
        text::find_text(line, "<!--"@, i) == text::find_text(line, "<!--"@, n + 1),
    ensures
        ({
            let rest = prompt_format::uncommented_from(line, n + 1, false);
            prompt_format::uncommented_from(line, i, false) == (
                prompt_format::with_symbols(line.subrange(i, n)).push(line[n]) + rest.0,
                rest.1,
            )
        }),
{
    let end = line.len() as int;
    let rest = prompt_format::uncommented_from(line, n + 1, false);
    let kept = line.subrange(i, n);
    let w = prompt_format::with_symbols(kept).push(line[n]);
    lemma_marks();
    lemma_found(line, n + 1);
    if n + 1 == end {
        lemma_past_the_end(line, "<!--"@, n + 1);
    }
    match text::find_text(line, "<!--"@, n + 1) {
        Some(open) => {
            let more = line.subrange(n + 1, open);
            let m = prompt_format::with_symbols(more);
            assert(line.subrange(i, open) =~= kept.push(line[n]) + more);
            lemma_symbols_cut(kept, line[n], more, 0);
            lemma_found(line, open + 4);
            match text::find_text(line, "-->"@, open + 4) {
                Some(close) => {
                    let after = prompt_format::uncommented_from(line, close + 3, false);
                    let note = line.subrange(open, close + 3);
                    assert((w + m) + note + after.0 =~= w + (m + note + after.0));
                },
                None => {
                    let note = line.subrange(open, end);
                    assert((w + m) + note =~= w + (m + note));
                },
            }
        },
        None => {
            let more = line.subrange(n + 1, end);
            assert(line.subrange(i, end) =~= kept.push(line[n]) + more);
            lemma_symbols_cut(kept, line[n], more, 0);
            if n + 1 == end {
                assert(more =~= Seq::<char>::empty());
                assert(rest.0 =~= prompt_format::with_symbols(more));
            }
        },
    }
}

/// A line may be cut at a character that no symbol and no mark is spelled with: what stands
/// before it is replaced by itself, and what stands after it goes on from there.
#[verifier::spinoff_prover]
#[verifier::rlimit(40)]
proof fn lemma_cut_from(a: Seq<char>, d: char, b: Seq<char>, i: int, comment: bool)
    requires
        0 <= i <= a.len(),
        !is_part(d),
    ensures
        ({
            let head = prompt_format::uncommented_from(a, i, comment);
            let tail = prompt_format::uncommented_from(b, 0, head.1);
            prompt_format::uncommented_from(a.push(d) + b, i, comment) == (
                head.0.push(d) + tail.0,
                tail.1,
            )
        }),
    decreases a.len() - i,
{
    lemma_marks();
    let line = a.push(d) + b;
    let n = a.len() as int;
    let head = prompt_format::uncommented_from(a, i, comment);
    let tail = prompt_format::uncommented_from(b, 0, head.1);
    assert(!"-->"@.contains(d));
    assert(!"<!--"@.contains(d));
    assert(line[n] == d);
    lemma_shifted(a.push(d), b, 0, head.1);
    assert(prompt_format::uncommented_from(line, n + 1, head.1) == tail);
    lemma_found(a, i);
    lemma_find_cut(a, d, b, "-->"@, i);
    lemma_find_cut(a, d, b, "<!--"@, i);
    if i == n {
        lemma_past_the_end(a, "-->"@, i);
        lemma_past_the_end(a, "<!--"@, i);
    }
    if comment {
        match text::find_text(a, "-->"@, i) {
            Some(close) => {
                let next = prompt_format::uncommented_from(a, close + 3, false);
                lemma_cut_from(a, d, b, close + 3, false);
                assert(line.subrange(i, close + 3) =~= a.subrange(i, close + 3));
                assert(head.0.push(d) + tail.0 =~= line.subrange(i, close + 3) + (next.0.push(d)
                    + tail.0));
            },
            None => {
                lemma_comment_goes_on(line, i, n + 1);
                assert(line.subrange(i, n + 1) =~= head.0.push(d));
            },
        }
    } else {
        match text::find_text(a, "<!--"@, i) {
            Some(open) => {
                let w = prompt_format::with_symbols(a.subrange(i, open));
                lemma_found(a, open + 4);
                lemma_find_cut(a, d, b, "-->"@, open + 4);
                assert(line.subrange(i, open) =~= a.subrange(i, open));
                match text::find_text(a, "-->"@, open + 4) {
                    Some(close) => {
                        let next = prompt_format::uncommented_from(a, close + 3, false);
                        let note = a.subrange(open, close + 3);
                        lemma_cut_from(a, d, b, close + 3, false);
                        assert(line.subrange(open, close + 3) =~= note);
                        assert(head.0.push(d) + tail.0 =~= w + note + (next.0.push(d) + tail.0));
                    },
                    None => {
                        lemma_comment_from_its_start(line, i, open);
                        if open + 4 < n + 1 {
                            lemma_comment_goes_on(line, open + 4, n + 1);
                        }
                        assert(head.0.push(d) + tail.0 =~= w + line.subrange(open, open + 4) + (
                        line.subrange(open + 4, n + 1) + tail.0));
                    },
                }
            },
            None => {
                lemma_text_goes_on(line, i, n);
                assert(line.subrange(i, n) =~= a.subrange(i, n));
                if i == n {
                    assert(head.0 =~= prompt_format::with_symbols(a.subrange(i, n)));
                }
            },
        }
    }
}

/// Once a comment has started, the line goes on inside it.
proof fn lemma_comment_from_its_start(line: Seq<char>, i: int, open: int)
    requires
        0 <= i,
        text::find_text(line, "<!--"@, i) == Some(open),
    ensures
        ({
            let rest = prompt_format::uncommented_from(line, open + 4, true);
            prompt_format::uncommented_from(line, i, false) == (
                prompt_format::with_symbols(line.subrange(i, open)) + line.subrange(open, open + 4)
                    + rest.0,
                rest.1,
            )
        }),
{
    lemma_marks();
    lemma_found(line, i);
    lemma_found(line, open + 4);
    let end = line.len() as int;
    let w = prompt_format::with_symbols(line.subrange(i, open));
    let mark = line.subrange(open, open + 4);
    if open + 4 == end {
        lemma_past_the_end(line, "-->"@, open + 4);
    }
    match text::find_text(line, "-->"@, open + 4) {
        Some(close) => {
            let after = prompt_format::uncommented_from(line, close + 3, false);
            assert(w + line.subrange(open, close + 3) + after.0 =~= w + mark + (line.subrange(
                open + 4,
                close + 3,
            ) + after.0));
        },
        None => {
            assert(w + line.subrange(open, end) =~= w + mark + line.subrange(open + 4, end));
            if open + 4 == end {
                assert(line.subrange(open + 4, end) =~= Seq::<char>::empty());
            }
        },
    }
}

proof fn lemma_past_the_end(s: Seq<char>, p: Seq<char>, from: int)
    requires
        s.len() <= from,
        p.len() > 0,
    ensures
        text::find_text(s, p, from) is None,
{
    text::lemma_find_text(s, p, from);
}

/// What was replaced is kept when it is replaced again, and leaves the same comment open.
proof fn lemma_again_from(line: Seq<char>, i: int, comment: bool)
    requires
        0 <= i <= line.len(),
    ensures
        ({
            let out = prompt_format::uncommented_from(line, i, comment);
            prompt_format::uncommented_from(out.0, 0, comment) == out
        }),
    decreases line.len() - i,
{
    lemma_marks();
    let out = prompt_format::uncommented_from(line, i, comment);
    let end = line.len() as int;
    lemma_found(line, i);
    if i == end {
    } else if comment {
        match text::find_text(line, "-->"@, i) {
            Some(close) => {
                let rest = prompt_format::uncommented_from(line, close + 3, false);
                let head = line.subrange(i, close + 3);
                lemma_again_from(line, close + 3, false);
                lemma_kept_head(line, i, close, "-->"@, rest.0);
                assert(out.0 == head + rest.0);
                lemma_shifted(head, rest.0, 0, false);
                assert(out.0.subrange(0, close - i + 3) =~= head);
            },
            None => {
                lemma_nowhere_in_the_rest(line, i, "-->"@);
                assert(out.0.subrange(0, out.0.len() as int) =~= out.0);
            },
        }
    } else {
        match text::find_text(line, "<!--"@, i) {
            Some(open) => {
                let seg = line.subrange(i, open);
                let w = prompt_format::with_symbols(seg);
                let more = line.subrange(open, end);
                lemma_symbols_again(seg, 0);
                lemma_found(line, open + 4);
                match text::find_text(line, "-->"@, open + 4) {
                    Some(close) => {
                        let rest = prompt_format::uncommented_from(line, close + 3, false);
                        let note = line.subrange(open, close + 3);
                        lemma_again_from(line, close + 3, false);
                        assert((note + rest.0).take(4) =~= line.subrange(open, open + 4));
                        lemma_opened_where_it_was(line, i, open, note + rest.0);
                        assert(out.0 =~= w + (note + rest.0));
                        lemma_kept_head(line, open + 4, close, "-->"@, rest.0);
                        let inner = line.subrange(open + 4, close + 3) + rest.0;
                        assert(out.0 =~= (w + line.subrange(open, open + 4)) + inner);
                        lemma_find_shifted(w + line.subrange(open, open + 4), inner, "-->"@, 0);
                        assert(out.0 =~= (w + note) + rest.0);
                        lemma_shifted(w + note, rest.0, 0, false);
                        assert(out.0.subrange(0, w.len() as int) =~= w);
                        assert(out.0.subrange(w.len() as int, w.len() as int + note.len()) =~= note);
                    },
                    None => {
                        assert(more.take(4) =~= line.subrange(open, open + 4));
                        lemma_opened_where_it_was(line, i, open, more);
                        lemma_nowhere_in_the_rest(line, open + 4, "-->"@);
                        let inner = line.subrange(open + 4, end);
                        assert(out.0 =~= (w + line.subrange(open, open + 4)) + inner);
                        lemma_find_shifted(w + line.subrange(open, open + 4), inner, "-->"@, 0);
                        assert(out.0.subrange(0, w.len() as int) =~= w);
                        assert(out.0.subrange(w.len() as int, out.0.len() as int) =~= more);
                    },
                }
            },
            None => {
                let seg = line.subrange(i, end);
                let w = prompt_format::with_symbols(seg);
                let nothing = Seq::<char>::empty();
                lemma_symbols_again(seg, 0);
                text::lemma_find_text(line, "<!--"@, i);
                assert(w + nothing =~= w);
                assert(seg + nothing =~= seg);
                assert forall|k: int| 0 <= k implies !#[trigger] text::stands_at(
                    w,
                    k,
                    "<!--"@,
                ) by {
                    if text::stands_at(w, k, "<!--"@) {
                        let j = lemma_no_new_mark(seg, 0, nothing, k, "<!--"@);
                        assert(line =~= line.take(i) + seg);
                        lemma_stands_shifted(line.take(i), seg, "<!--"@, j);
                        assert(text::stands_at(line, i + j, "<!--"@));
                    }
                }
                lemma_nowhere(w, "<!--"@, 0);
                assert(w.subrange(0, w.len() as int) =~= w);
            },
        }
    }
}

/// A mark that was found is found in the part that ends with it.
proof fn lemma_kept_head(line: Seq<char>, i: int, k: int, p: Seq<char>, after: Seq<char>)
    requires
        0 <= i,
        p.len() == 3,
        text::find_text(line, p, i) == Some(k),
    ensures
        i <= k,
        k + 3 <= line.len(),
        text::find_text(line.subrange(i, k + 3) + after, p, 0) == Some(k - i),
{
    text::lemma_find_text(line, p, i);
    let s = line.subrange(i, k + 3) + after;
    assert forall|j: int| 0 <= j <= k - i implies #[trigger] text::stands_at(s, j, p)
        == text::stands_at(line, i + j, p) by {
        assert(s.subrange(j, j + 3) =~= line.subrange(i + j, i + j + 3));
    }
    assert(text::stands_at(line, i + (k - i), p));
    assert(text::stands_at(s, k - i, p));
    lemma_first(s, p, 0, k - i);
}

proof fn lemma_nowhere_in_the_rest(line: Seq<char>, i: int, p: Seq<char>)
    requires
        0 <= i <= line.len(),
        text::find_text(line, p, i) is None,
    ensures
        text::find_text(line.subrange(i, line.len() as int), p, 0) is None,
{
    let rest = line.subrange(i, line.len() as int);
    assert(line =~= line.take(i) + rest);
    lemma_find_shifted(line.take(i), rest, p, 0);
}

/// Symbols before a comment do not move its start.
proof fn lemma_opened_where_it_was(line: Seq<char>, i: int, open: int, after: Seq<char>)
    requires
        0 <= i,
        text::find_text(line, "<!--"@, i) == Some(open),
        after.len() >= 4,
        after.take(4) == line.subrange(open, open + 4),
    ensures
        ({
            let w = prompt_format::with_symbols(line.subrange(i, open));
            text::find_text(w + after, "<!--"@, 0) == Some(w.len() as int)
        }),
{
    lemma_marks();
    text::lemma_find_text(line, "<!--"@, i);
    let p = "<!--"@;
    let seg = line.subrange(i, open);
    let w = prompt_format::with_symbols(seg);
    let n = w.len() as int;
    assert((w + after).subrange(n, n + 4) =~= after.take(4));
    assert forall|k: int| 0 <= k < n implies !#[trigger] text::stands_at(w + after, k, p) by {
        if text::stands_at(w + after, k, p) {
            let j = lemma_no_new_mark(seg, 0, after, k, p);
            assert((seg + after).subrange(j, j + 4) =~= line.subrange(i + j, i + j + 4)) by {
                assert forall|m: int| j <= m < j + 4 implies (seg + after)[m] == line[i + m] by {
                    if m >= seg.len() {
                        let x = m - seg.len();
                        assert(after.take(4)[x] == after[x]);
                        assert(line.subrange(open, open + 4)[x] == line[open + x]);
                    } else {
                        assert(seg[m] == line[i + m]);
                    }
                }
            }
            assert(text::stands_at(line, i + j, p));
        }
    }
    lemma_first(w + after, p, 0, n);
}

proof fn lemma_shape_from(line: Seq<char>, i: int, comment: bool)
    requires
        0 <= i <= line.len(),
    ensures
        ({
            let o = prompt_format::uncommented_from(line, i, comment).0;
            &&& o.len() <= line.len() - i
            &&& o.len() == 0 <==> i == line.len()
            &&& i < line.len() ==> o.last() == line.last() || is_sign(o.last())
            &&& i < line.len() ==> o[0] == line[i] || is_sign(o[0])
            &&& forall|k: int| 0 <= k < o.len() ==> line.contains(#[trigger] o[k]) || is_sign(o[k])
        }),
    decreases line.len() - i,
{
    lemma_marks();
    lemma_found(line, i);
    let end = line.len() as int;
    let o = prompt_format::uncommented_from(line, i, comment).0;
    if i < end {
        if comment {
            match text::find_text(line, "-->"@, i) {
                Some(close) => {
                    lemma_shape_from(line, close + 3, false);
                },
                None => {},
            }
        } else {
            match text::find_text(line, "<!--"@, i) {
                Some(open) => {
                    lemma_segment_shape(line, i, open);
                    lemma_found(line, open + 4);
                    match text::find_text(line, "-->"@, open + 4) {
                        Some(close) => {
                            lemma_shape_from(line, close + 3, false);
                        },
                        None => {},
                    }
                },
                None => lemma_segment_shape(line, i, end),
            }
        }
    }
}

proof fn lemma_segment_shape(line: Seq<char>, i: int, j: int)
    requires
        0 <= i <= j <= line.len(),
    ensures
        ({
            let o = prompt_format::with_symbols(line.subrange(i, j));
            &&& o.len() <= j - i
            &&& o.len() == 0 <==> i == j
            &&& i < j ==> o.last() == line[j - 1] || is_sign(o.last())
            &&& i < j ==> o[0] == line[i] || is_sign(o[0])
            &&& forall|k: int| 0 <= k < o.len() ==> line.contains(#[trigger] o[k]) || is_sign(o[k])
        }),
{
    let seg = line.subrange(i, j);
    let o = prompt_format::with_symbols(seg);
    lemma_symbols_shape(seg, 0);
    assert forall|k: int| 0 <= k < o.len() implies line.contains(#[trigger] o[k]) || is_sign(
        o[k],
    ) by {
        if !is_sign(o[k]) {
            let m = choose|m: int| 0 <= m < seg.len() && seg[m] == o[k];
            assert(line[i + m] == o[k]);
        }
    }
}

// ------------------------------------------------------------------ whole lines

/// What replacing the symbols of a line leaves of it: nothing only of nothing, no new white
/// space at its end, and no character but signs that the line did not hold.
pub(crate) proof fn lemma_replaced(line: Seq<char>, comment: bool)
    ensures
        ({
            let o = prompt_format::uncommented_from(line, 0, comment);
            &&& o.0.len() <= line.len()
            &&& o.0.len() == 0 <==> line.len() == 0
            &&& line.len() > 0 ==> o.0.last() == line.last() || is_sign(o.0.last())
            &&& line.len() > 0 ==> o.0[0] == line[0] || is_sign(o.0[0])
            &&& forall|k: int| 0 <= k < o.0.len() ==> line.contains(#[trigger] o.0[k]) || is_sign(
                o.0[k],
            )
            &&& prompt_format::uncommented_from(o.0, 0, comment) == o
        }),
{
    lemma_shape_from(line, 0, comment);
    lemma_again_from(line, 0, comment);
}

/// What a line with its symbols replaced starts with, the line started with, as long as no
/// symbol is spelled with it.
pub(crate) proof fn lemma_replaced_start(line: Seq<char>, comment: bool, n: int)
    requires
        0 <= n <= prompt_format::uncommented_from(line, 0, comment).0.len(),
        forall|k: int|
            0 <= k < n ==> {
                let c = #[trigger] prompt_format::uncommented_from(line, 0, comment).0[k];
                !is_part(c) && !is_sign(c)
            },
    ensures
        n <= line.len(),
        line.take(n) == prompt_format::uncommented_from(line, 0, comment).0.take(n),
    decreases n,
{
    let u = prompt_format::uncommented_from(line, 0, comment).0;
    lemma_shape_from(line, 0, comment);
    if n > 0 {
        let nothing = Seq::<char>::empty();
        let rest = line.skip(1);
        let after = prompt_format::uncommented_from(rest, 0, comment).0;
        assert(!is_part(u[0]) && !is_sign(u[0]));
        lemma_cut_from(nothing, line[0], rest, 0, comment);
        assert(nothing.push(line[0]) + rest =~= line);
        assert(u =~= seq![line[0]] + after);
        assert forall|k: int| 0 <= k < n - 1 implies {
            let c = #[trigger] after[k];
            !is_part(c) && !is_sign(c)
        } by {
            assert(u[k + 1] == after[k]);
        }
        lemma_replaced_start(rest, comment, n - 1);
        assert forall|k: int| 0 <= k < n implies line.take(n)[k] == u.take(n)[k] by {
            if k > 0 {
                assert(rest.take(n - 1)[k - 1] == after.take(n - 1)[k - 1]);
            }
        }
        assert(line.take(n) =~= u.take(n));
    } else {
        assert(line.take(n) =~= u.take(n));
    }
}

/// A text that replacing symbols keeps, with a comment open before it or not, and after it or not.
pub open spec fn settled(s: Seq<char>, before: bool, after: bool) -> bool {
    prompt_format::uncommented_from(s, 0, before) == (s, after)
}

/// The two sides of a cut are settled, with one state of comments between them, if and only if
/// the whole is.
proof fn lemma_settled_cut(a: Seq<char>, d: char, b: Seq<char>, before: bool, after: bool)
    requires
        !is_part(d),
    ensures
        ({
            let between = prompt_format::uncommented_from(a, 0, before).1;
            settled(a.push(d) + b, before, after) <==> settled(a, before, between) && settled(
                b,
                between,
                after,
            )
        }),
{
    let head = prompt_format::uncommented_from(a, 0, before);
    let tail = prompt_format::uncommented_from(b, 0, head.1);
    let whole = a.push(d) + b;
    lemma_cut_from(a, d, b, 0, before);
    lemma_shape_from(a, 0, before);
    lemma_shape_from(b, 0, head.1);
    if settled(whole, before, after) {
        assert(head.0.push(d) + tail.0 == whole);
        assert(head.0.len() == a.len() && tail.0.len() == b.len());
        assert(head.0 =~= a) by {
            assert forall|k: int| 0 <= k < a.len() implies head.0[k] == a[k] by {
                assert((head.0.push(d) + tail.0)[k] == whole[k]);
            }
        }
        assert(tail.0 =~= b) by {
            assert forall|k: int| 0 <= k < b.len() implies tail.0[k] == b[k] by {
                assert((head.0.push(d) + tail.0)[a.len() + 1 + k] == whole[a.len() + 1 + k]);
            }
        }
    }
}

proof fn lemma_space_is_no_part(c: char)
    requires
        text::is_space(Space::Js, c),
    ensures
        !is_part(c),
        !is_sign(c),
{
}

proof fn lemma_settled_trim_start(s: Seq<char>, before: bool, after: bool)
    requires
        settled(s, before, after),
    ensures
        settled(text::trim_start(Space::Js, s), before, after),
    decreases s.len(),
{
    if s.len() > 0 && text::is_space(Space::Js, s[0]) {
        let nothing = Seq::<char>::empty();
        lemma_space_is_no_part(s[0]);
        assert(nothing.push(s[0]) + s.drop_first() =~= s);
        lemma_settled_cut(nothing, s[0], s.drop_first(), before, after);
        lemma_settled_trim_start(s.drop_first(), before, after);
    }
}

proof fn lemma_settled_trim_end(s: Seq<char>, before: bool, after: bool)
    requires
        settled(s, before, after),
    ensures
        settled(text::trim_end(Space::Js, s), before, after),
    decreases s.len(),
{
    if s.len() > 0 && text::is_space(Space::Js, s.last()) {
        let nothing = Seq::<char>::empty();
        lemma_space_is_no_part(s.last());
        assert(s.drop_last().push(s.last()) + nothing =~= s);
        lemma_settled_cut(s.drop_last(), s.last(), nothing, before, after);
        lemma_settled_trim_end(s.drop_last(), before, after);
    }
}

/// Trimming the cells of a settled row leaves it settled.
proof fn lemma_settled_cells(ps: Seq<Seq<char>>, before: bool, after: bool)
    requires
        ps.len() > 0,
        settled(text::join(ps, seq!['|']), before, after),
    ensures
        settled(text::join(prompt_format::trimmed_all(ps), seq!['|']), before, after),
    decreases ps.len(),
{
    let bar = seq!['|'];
    let ts = prompt_format::trimmed_all(ps);
    let last = ps.last();
    if ps.len() == 1 {
        lemma_settled_trim_start(last, before, after);
        lemma_settled_trim_end(text::trim_start(Space::Js, last), before, after);
        assert(ts[0] == text::trim(Space::Js, last));
    } else {
        let init = ps.drop_last();
        let head = text::join(init, bar);
        let between = prompt_format::uncommented_from(head, 0, before).1;
        assert(text::join(ps, bar) =~= head.push('|') + last);
        lemma_settled_cut(head, '|', last, before, after);
        lemma_settled_cells(init, before, between);
        lemma_settled_trim_start(last, between, after);
        lemma_settled_trim_end(text::trim_start(Space::Js, last), between, after);
        assert(ts.drop_last() =~= prompt_format::trimmed_all(init));
        assert(ts.last() == text::trim(Space::Js, last));
        let short = text::join(prompt_format::trimmed_all(init), bar);
        assert(text::join(ts, bar) =~= short.push('|') + ts.last());
        lemma_settled_cut(short, '|', ts.last(), before, after);
    }
}

/// A settled row is settled once it is compacted.
pub(crate) proof fn lemma_settled_row(t: Seq<char>, before: bool, after: bool)
    requires
        settled(t, before, after),
    ensures
        settled(prompt_format::compact_row(t), before, after),
{
    reveal_strlit("|");
    assert("|"@ =~= seq!['|']);
    text::law_split_pieces_join(t, '|');
    text::lemma_split_from_nonempty(t, '|', 0);
    lemma_settled_cells(text::split(t, '|'), before, after);
}

/// White space before a text makes no difference to whether it is settled.
pub(crate) proof fn lemma_settled_behind(p: Seq<char>, s: Seq<char>, before: bool, after: bool)
    requires
        text::all_space(Space::Js, p),
    ensures
        settled(p + s, before, after) <==> settled(s, before, after),
    decreases p.len(),
{
    if p.len() == 0 {
        assert(p + s =~= s);
    } else {
        let nothing = Seq::<char>::empty();
        let rest = p.skip(1);
        lemma_space_is_no_part(p[0]);
        assert forall|i: int| 0 <= i < rest.len() implies text::is_space(
            Space::Js,
            #[trigger] rest[i],
        ) by {
            assert(rest[i] == p[i + 1]);
        }
        assert(nothing.push(p[0]) + (rest + s) =~= p + s);
        lemma_settled_cut(nothing, p[0], rest + s, before, after);
        lemma_settled_behind(rest, s, before, after);
    }
}

/// Dashes alone are no symbol, and neither end nor start a comment.
pub(crate) proof fn lemma_dashes_are_settled(s: Seq<char>, comment: bool)
    requires
        forall|k: int| 0 <= k < s.len() ==> #[trigger] s[k] == '-' || !is_part(s[k]),
    ensures
        settled(s, comment, comment),
{
    reveal_strlit("-->");
    reveal_strlit("<!--");
    assert forall|j: int| 0 <= j implies !#[trigger] text::stands_at(s, j, "-->"@) by {
        lemma_three(s, j, "-->"@);
    }
    assert forall|j: int| 0 <= j implies !#[trigger] text::stands_at(s, j, "<!--"@) by {
        if text::stands_at(s, j, "<!--"@) {
            assert(s.subrange(j, j + 4)[0] == s[j]);
        }
    }
    lemma_nowhere(s, "-->"@, 0);
    lemma_nowhere(s, "<!--"@, 0);
    let whole = s.subrange(0, s.len() as int);
    assert(whole =~= s);
    lemma_dashes_are_kept(s, 0);
    if s.len() == 0 {
        assert(s =~= Seq::<char>::empty());
    }
    assert(s.skip(0) =~= s);
}

proof fn lemma_dashes_are_kept(s: Seq<char>, i: int)
    requires
        0 <= i <= s.len(),
        forall|k: int| 0 <= k < s.len() ==> #[trigger] s[k] == '-' || !is_part(s[k]),
    ensures
        prompt_format::symbols_from(s, i) == s.skip(i),
    decreases s.len() - i,
{
    if i < s.len() {
        lemma_sign_at(s, i);
        lemma_dashes_are_kept(s, i + 1);
        assert(s.skip(i) =~= seq![s[i]] + s.skip(i + 1));
    } else {
        assert(s.skip(i) =~= Seq::<char>::empty());
    }
}

} // verus!
