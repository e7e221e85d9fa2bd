//! How texts and numbers are ordered and written, and which words of a prompt are made plain.
use crate::js;
use crate::js::{JsNumberView, Order};
use crate::json::{JsonView, NumberView};
use crate::number;
use crate::prompt_format;
use crate::system_prompt;
use crate::template_parse;
use crate::text;
use crate::value_laws;
use vstd::prelude::*;

verus! {

// ------------------------------------------------------------------ texts

proof fn lemma_utf16_push(s: Seq<char>, c: char)
    ensures
        js::utf16(s.push(c)) == js::utf16(s) + js::units(c),
{
    assert(s.push(c).drop_last() =~= s);
}

proof fn lemma_utf16_add(a: Seq<char>, b: Seq<char>)
    ensures
        js::utf16(a + b) == js::utf16(a) + js::utf16(b),
    decreases b.len(),
{
    if b.len() == 0 {
        assert(a + b =~= a);
        assert(js::utf16(b) =~= Seq::empty());
        assert(js::utf16(a) + Seq::<u16>::empty() =~= js::utf16(a));
    } else {
        lemma_utf16_add(a, b.drop_last());
        assert((a + b).drop_last() =~= a + b.drop_last());
        assert(js::utf16(a + b) =~= js::utf16(a) + js::utf16(b));
    }
}

proof fn lemma_units_skip(p: Seq<u16>, a: Seq<u16>, b: Seq<u16>, i: int)
    requires
        0 <= i <= p.len(),
    ensures
        js::units_order(p + a, p + b, i) == js::units_order(p + a, p + b, p.len() as int),
    decreases p.len() - i,
{
    if i < p.len() {
        assert((p + a)[i] == p[i] && (p + b)[i] == p[i]);
        lemma_units_skip(p, a, b, i + 1);
    }
}

/// Texts are ordered by the first character in which they differ; a text comes before those that
/// it starts.
pub proof fn law_how_texts_are_ordered(
    p: Seq<char>,
    x: char,
    y: char,
    a: Seq<char>,
    b: Seq<char>,
)
    requires
        (x as int) < (y as int) < 0xd800,
    ensures
        js::text_order(p + seq![x] + a, p + seq![y] + b) == Order::Less,
        js::text_order(p + seq![y] + b, p + seq![x] + a) == Order::Greater,
        js::text_order(p, p) == Order::Equal,
        js::text_order(p, p + seq![x]) == Order::Less,
{
    let u = js::utf16(p);
    let none = Seq::<char>::empty();
    lemma_utf16_add(p, seq![x] + a);
    lemma_utf16_add(p, seq![y] + b);
    lemma_utf16_add(seq![x], a);
    lemma_utf16_add(seq![y], b);
    lemma_utf16_add(p, seq![x]);
    assert(p + seq![x] + a =~= p + (seq![x] + a));
    assert(p + seq![y] + b =~= p + (seq![y] + b));
    assert(none.push(x) =~= seq![x]);
    assert(none.push(y) =~= seq![y]);
    lemma_utf16_push(none, x);
    lemma_utf16_push(none, y);
    assert(js::utf16(none) =~= Seq::<u16>::empty());
    assert(js::utf16(seq![x]) =~= seq![x as u16]);
    assert(js::utf16(seq![y]) =~= seq![y as u16]);
    let s = js::utf16(seq![x] + a);
    let t = js::utf16(seq![y] + b);
    assert(s[0] == x as u16 && t[0] == y as u16);
    lemma_units_skip(u, s, t, 0);
    lemma_units_skip(u, t, s, 0);
    assert((u + s)[u.len() as int] == s[0] && (u + t)[u.len() as int] == t[0]);
    let e = Seq::<u16>::empty();
    assert(u + e =~= u);
    lemma_units_skip(u, e, e, 0);
    lemma_units_skip(u, e, js::utf16(seq![x]), 0);
}

proof fn lemma_before_skip(p: Seq<char>, a: Seq<char>, b: Seq<char>, i: int)
    requires
        0 <= i <= p.len(),
    ensures
        system_prompt::stands_before(p + a, p + b, i) == system_prompt::stands_before(
            p + a,
            p + b,
            p.len() as int,
        ),
    decreases p.len() - i,
{
    if i < p.len() {
        assert((p + a)[i] == p[i] && (p + b)[i] == p[i]);
        lemma_before_skip(p, a, b, i + 1);
    }
}

/// A name stands before another by the first character in which they differ, and before those that
/// it starts; never before itself.
pub proof fn law_which_name_stands_first(
    p: Seq<char>,
    x: char,
    y: char,
    a: Seq<char>,
    b: Seq<char>,
)
    requires
        x < y,
    ensures
        system_prompt::stands_before(p + (seq![x] + a), p + (seq![y] + b), 0),
        !system_prompt::stands_before(p + (seq![y] + b), p + (seq![x] + a), 0),
        system_prompt::stands_before(p, p + seq![x], 0),
        !system_prompt::stands_before(p, p, 0),
{
    let s = seq![x] + a;
    let t = seq![y] + b;
    let none = Seq::<char>::empty();
    let n = p.len() as int;
    lemma_before_skip(p, s, t, 0);
    lemma_before_skip(p, t, s, 0);
    assert((p + s)[n] == x && (p + t)[n] == y);
    assert(p + none =~= p);
    lemma_before_skip(p, none, seq![x], 0);
    lemma_before_skip(p, none, none, 0);
}

/// No more names of files are listed than a bound allows: the first of them, in order.
pub proof fn law_how_many_files_are_listed(names: Seq<Seq<char>>)
    ensures
        ({
            let all = system_prompt::sorted_names(names);
            let shown = system_prompt::listed_files(names);
            &&& all.len() <= system_prompt::MAX_LISTED_FILES ==> shown == all
            &&& all.len() > system_prompt::MAX_LISTED_FILES ==> shown.len()
                == system_prompt::MAX_LISTED_FILES && shown == all.take(shown.len() as int)
        }),
{
}

// ------------------------------------------------------------------ numbers

/// Digits are written in full where the point is near: with zeros behind them, with the point among
/// them, or with zeros before them; else with an exponent.
pub proof fn law_how_digits_are_written(digits: Seq<char>, n: int)
    requires
        digits.len() > 0,
    ensures
        ({
            let k = digits.len() as int;
            let s = number::js_magnitude(digits, n);
            &&& k <= n <= 21 ==> s == digits + Seq::new((n - k) as nat, |i: int| '0')
            &&& 0 < n < k && n <= 21 ==> s == digits.take(n) + "."@ + digits.skip(n)
            &&& -6 < n <= 0 ==> s == "0."@ + Seq::new((-n) as nat, |i: int| '0') + digits
            &&& n > 21 && k == 1 ==> s == digits + "e+"@ + text::decimal((n - 1) as nat)
            &&& n <= -6 && k == 1 ==> s == digits + "e"@ + ("-"@ + text::decimal((1 - n) as nat))
        }),
{
    let k = digits.len() as int;
    if k <= n <= 21 {
        assert(number::zeros(n - k) =~= Seq::new((n - k) as nat, |i: int| '0'));
    }
    if -6 < n <= 0 {
        assert(number::zeros(-n) =~= Seq::new((-n) as nat, |i: int| '0'));
    }
}

/// An integer is written in decimal, with a sign where it is negative.
pub proof fn law_how_integers_are_written(u: u64, i: i64)
    requires
        i < 0,
    ensures
        number::js_number(NumberView::PosInt(u)) == text::decimal(u as nat),
        number::js_number(NumberView::NegInt(i)) == "-"@ + text::decimal((-(i as int)) as nat),
{
}

/// A number that is not finite stays so: it is written as its word; what is no number makes every
/// sum and every difference no number.
pub proof fn law_numbers_that_are_not_finite(a: JsNumberView)
    ensures
        js::number_value(JsNumberView::Nan) == JsonView::String("NaN"@),
        js::number_value(JsNumberView::Infinity) == JsonView::String("Infinity"@),
        js::number_value(JsNumberView::NegInfinity) == JsonView::String("-Infinity"@),
        js::added(a, JsNumberView::Nan) is Nan && js::added(JsNumberView::Nan, a) is Nan,
        js::subtracted(a, JsNumberView::Nan) is Nan && js::subtracted(JsNumberView::Nan, a) is Nan,
        js::added(JsNumberView::Infinity, JsNumberView::NegInfinity) is Nan,
        js::subtracted(JsNumberView::Infinity, JsNumberView::Infinity) is Nan,
        a is Finite ==> js::added(a, JsNumberView::Infinity) is Infinity,
        a is Finite ==> js::subtracted(a, JsNumberView::Infinity) is NegInfinity,
        a is Finite ==> js::number_order(a, JsNumberView::Infinity) == Some(Order::Less),
        a is Finite ==> js::number_order(a, JsNumberView::NegInfinity) == Some(Order::Greater),
        js::number_order(a, JsNumberView::Nan) is None,
{
}

/// Sums, differences and comparisons of finite numbers are those of floats.
pub proof fn law_finite_numbers_are_floats(x: NumberView, y: NumberView)
    ensures
        ({
            let a = JsNumberView::Finite(x);
            let b = JsNumberView::Finite(y);
            &&& number::float_sum(x, y) matches Some(n) ==> js::added(a, b)
                == JsNumberView::Finite(n)
            &&& number::float_difference(x, y) matches Some(n) ==> js::subtracted(a, b)
                == JsNumberView::Finite(n)
            &&& number::float_less(x, y) ==> js::number_order(a, b) == Some(Order::Less)
            &&& !number::float_less(x, y) && number::float_less(y, x) ==> js::number_order(a, b)
                == Some(Order::Greater)
            &&& !number::float_less(x, y) && !number::float_less(y, x) ==> js::number_order(a, b)
                == Some(Order::Equal)
        }),
{
}

/// Values are compared as texts where both are texts, else as numbers.
pub proof fn law_how_values_are_compared(a: Seq<char>, b: Seq<char>, v: JsonView)
    requires
        v is Number || v is Bool || v is Null,
    ensures
        js::value_order(JsonView::String(a), JsonView::String(b)) == Some(js::text_order(a, b)),
        js::value_order(JsonView::String(a), v) == js::number_order(
            js::text_number(a),
            js::number_of(v),
        ),
        js::value_order(v, JsonView::String(b)) == js::number_order(
            js::number_of(v),
            js::text_number(b),
        ),
{
}

proof fn lemma_digits_until(s: Seq<char>, i: int)
    requires
        0 <= i <= s.len(),
        forall|k: int| i <= k < s.len() ==> text::is_digit(#[trigger] s[k]),
    ensures
        js::digits_until(s, i) == s.len(),
    decreases s.len() - i,
{
    if i < s.len() {
        assert(text::is_digit(s[i]));
        lemma_digits_until(s, i + 1);
    }
}

/// In a template digits are a number.
pub proof fn law_digits_in_a_template_are_a_number(n: nat)
    ensures
        template_parse::is_number(text::decimal(n)),
{
    let s = text::decimal(n);
    value_laws::law_numbers_read_back(n);
    assert(text::is_digit(s[0]));
    lemma_digits_until(s, 0);
}

// ------------------------------------------------------------------ words

/// A tag closes something where it is a slash and a name between angles.
pub proof fn law_which_tags_close(name: Seq<char>)
    ensures
        prompt_format::is_closing_tag(seq!['<', '/'] + name + seq!['>']) <==> (name.len() > 0
            && forall|i: int|
            0 <= i < name.len() ==> ('a' <= #[trigger] name[i] && name[i] <= 'z') || name[i] == '-'
                || name[i] == '_'),
{
    let s = seq!['<', '/'] + name + seq!['>'];
    assert(s[0] == '<' && s[1] == '/' && s.last() == '>');
    if prompt_format::is_closing_tag(s) {
        assert forall|i: int| 0 <= i < name.len() implies ('a' <= #[trigger] name[i] && name[i]
            <= 'z') || name[i] == '-' || name[i] == '_' by {
            assert(s[i + 2] == name[i]);
            assert(prompt_format::is_tag_char(s[i + 2]));
        }
    }
    if name.len() > 0 && forall|i: int|
        0 <= i < name.len() ==> ('a' <= #[trigger] name[i] && name[i] <= 'z') || name[i] == '-'
            || name[i] == '_' {
        assert forall|i: int| 2 <= i < s.len() - 1 implies prompt_format::is_tag_char(
            #[trigger] s[i],
        ) by {
            assert(s[i] == name[i - 2]);
        }
    }
}

proof fn lemma_kept_words(s: Seq<char>, i: int)
    requires
        0 <= i <= s.len(),
        forall|k: int| i <= k < s.len() ==> (#[trigger] s[k]) != '*',
    ensures
        prompt_format::unbold_from(s, i) == s.skip(i),
    decreases s.len() - i,
{
    if i < s.len() {
        lemma_kept_words(s, i + 1);
        lemma_no_bold(s, i);
        assert(s.skip(i) =~= seq![s[i]] + s.skip(i + 1));
    } else {
        assert(s.skip(i) =~= Seq::empty());
    }
}

proof fn lemma_not(s: Seq<char>, i: int, p: Seq<char>)
    requires
        0 <= i < s.len(),
        s[i] != '*',
        p.len() > 0,
        p[0] == '*',
    ensures
        !text::stands_at(s, i, p),
{
    if text::stands_at(s, i, p) {
        assert(s.subrange(i, i + p.len())[0] == s[i]);
    }
}

proof fn lemma_no_bold(s: Seq<char>, i: int)
    requires
        0 <= i < s.len(),
        s[i] != '*',
    ensures
        prompt_format::bold_at(s, i) is None,
{
    reveal_strlit("**MUST NOT**");
    reveal_strlit("**SHOULD NOT**");
    reveal_strlit("**RECOMMENDED**");
    reveal_strlit("**REQUIRED**");
    reveal_strlit("**OPTIONAL**");
    reveal_strlit("**SHOULD**");
    reveal_strlit("**MUST**");
    reveal_strlit("**MAY**");
    reveal_strlit("**NEVER**");
    reveal_strlit("**AVOID**");
    lemma_not(s, i, "**MUST NOT**"@);
    lemma_not(s, i, "**SHOULD NOT**"@);
    lemma_not(s, i, "**RECOMMENDED**"@);
    lemma_not(s, i, "**REQUIRED**"@);
    lemma_not(s, i, "**OPTIONAL**"@);
    lemma_not(s, i, "**SHOULD**"@);
    lemma_not(s, i, "**MUST**"@);
    lemma_not(s, i, "**MAY**"@);
    lemma_not(s, i, "**NEVER**"@);
    lemma_not(s, i, "**AVOID**"@);
}

/// A text without emphasis keeps its words; an emphasized requirement loses its emphasis.
pub proof fn law_requirements_lose_their_emphasis(s: Seq<char>)
    requires
        !s.contains('*'),
    ensures
        prompt_format::unbold_from(s, 0) == s,
        prompt_format::unbold_from("**MUST NOT**"@ + s, 0) == "MUST NOT"@ + s,
{
    lemma_kept_words(s, 0);
    assert(s.skip(0) =~= s);
    reveal_strlit("**MUST NOT**");
    reveal_strlit("MUST NOT");
    let marked = "**MUST NOT**"@;
    let t = marked + s;
    assert(marked.len() == 12 && "MUST NOT"@.len() == 8);
    assert(t.subrange(0, 12) =~= marked);
    assert(text::stands_at(t, 0, marked));
    assert forall|k: int| 12 <= k < t.len() implies (#[trigger] t[k]) != '*' by {
        assert(t[k] == s[k - 12]);
    }
    lemma_kept_words(t, 12);
    assert(t.skip(12) =~= s);
}

// ------------------------------------------------------------------ files by their depth

spec fn descends(files: Seq<crate::project::ProjectContextFileView>, none: int) -> bool {
    forall|i: int, j: int|
        0 <= i < j < files.len() ==> crate::project::rank((#[trigger] files[i]).depth, none)
            >= crate::project::rank((#[trigger] files[j]).depth, none)
}

proof fn lemma_put(
    files: Seq<crate::project::ProjectContextFileView>,
    f: crate::project::ProjectContextFileView,
    none: int,
) -> (k: int)
    requires
        descends(files, none),
    ensures
        0 <= k <= files.len(),
        crate::project::ranked_in(files, f, none) == files.insert(k, f),
        forall|i: int|
            0 <= i < k ==> crate::project::rank((#[trigger] files[i]).depth, none)
                >= crate::project::rank(f.depth, none),
        forall|i: int|
            k <= i < files.len() ==> crate::project::rank((#[trigger] files[i]).depth, none)
                < crate::project::rank(f.depth, none),
        descends(crate::project::ranked_in(files, f, none), none),
    decreases files.len(),
{
    if files.len() == 0 || crate::project::rank(files.last().depth, none) >= crate::project::rank(
        f.depth,
        none,
    ) {
        assert(files.push(f) =~= files.insert(files.len() as int, f));
        files.len() as int
    } else {
        let less = files.drop_last();
        let k = lemma_put(less, f, none);
        assert(less.insert(k, f).push(files.last()) =~= files.insert(k, f));
        assert forall|i: int| 0 <= i < k implies crate::project::rank(
            (#[trigger] files[i]).depth,
            none,
        ) >= crate::project::rank(f.depth, none) by {
            assert(less[i] == files[i]);
        }
        assert forall|i: int| k <= i < files.len() implies crate::project::rank(
            (#[trigger] files[i]).depth,
            none,
        ) < crate::project::rank(f.depth, none) by {
            if i < less.len() {
                assert(less[i] == files[i]);
            }
        }
        k
    }
}

proof fn lemma_descends(files: Seq<crate::project::ProjectContextFileView>, none: int)
    ensures
        descends(crate::project::ranked(files, none), none),
    decreases files.len(),
{
    if files.len() > 0 {
        lemma_descends(files.drop_last(), none);
        let k = lemma_put(
            crate::project::ranked(files.drop_last(), none),
            files.last(),
            none,
        );
    }
}

/// The files of a project are put in order of their depth, the deepest first; one more file comes
/// behind those that are as deep, and no other file changes its place among the others.
pub proof fn law_files_stand_by_their_depth(
    files: Seq<crate::project::ProjectContextFileView>,
    f: crate::project::ProjectContextFileView,
    none: int,
)
    ensures
        exists|k: int|
            0 <= k <= crate::project::ranked(files, none).len()
                && crate::project::ranked(files.push(f), none) == #[trigger] crate::project::ranked(
                files,
                none,
            ).insert(k, f),
        forall|i: int, j: int|
            0 <= i < j < crate::project::ranked(files, none).len() ==> crate::project::rank(
                (#[trigger] crate::project::ranked(files, none)[i]).depth,
                none,
            ) >= crate::project::rank(
                (#[trigger] crate::project::ranked(files, none)[j]).depth,
                none,
            ),
        (forall|i: int|
            0 <= i < crate::project::ranked(files, none).len() ==> (#[trigger] crate::project::ranked(
                files,
                none,
            )[i]).depth == f.depth) ==> crate::project::ranked(files.push(f), none)
            == crate::project::ranked(files, none).push(f),
        f.depth matches Some(d) ==> crate::project::rank(f.depth, none) == d,
        f.depth is None ==> crate::project::rank(f.depth, none) == none,
{
    lemma_descends(files, none);
    let have = crate::project::ranked(files, none);
    assert(files.push(f).drop_last() =~= files);
    let k = lemma_put(have, f, none);
    assert(crate::project::ranked(files.push(f), none) == have.insert(k, f));
    if k < have.len() {
        assert(crate::project::rank(have[k].depth, none) < crate::project::rank(f.depth, none));
    } else {
        assert(have.insert(k, f) =~= have.push(f));
    }
}

/// The files of a project are those that the providers find without what is invalid and what the host
/// switched off, the deepest first, each once.
pub proof fn law_which_files_a_project_has(
    d: crate::project::DiscoveryView,
    cwd: Seq<char>,
    options: crate::capability::LoadOptionsView,
)
    requires
        options.providers is None,
        options.exclude_providers == Seq::<Seq<char>>::empty(),
        !options.include_invalid,
        !options.include_disabled,
    ensures
        ({
            let found = crate::context_files::context_files(
                d.fs,
                crate::project::context_for(d, cwd, options),
                d.context_files.providers,
                options,
            ).items;
            let x = crate::at_imports::ExpanderView {
                fs: d.fs,
                home: d.home,
                allow: d.import_policy,
            };
            crate::project::project_files(d, cwd, options.disabled_extensions)
                == crate::project::deduped(
                crate::project::ranked(crate::project::expanded_files(x, found), -1),
            )
        }),
{
    assert(crate::project::without_extensions(options.disabled_extensions) == options);
}

} // verus!
