//! Which references of a text are replaced, and by what.
use crate::at_imports;
use crate::at_imports::{CutView, ExpanderView, SegmentView};
use crate::files;
use crate::paths;
use crate::text;
use crate::text::Space;
use vstd::prelude::*;

verus! {

/// A reference names a file in the home directory where it starts with a tilde and a slash, else
/// one as seen from the directory of the text.
pub proof fn law_which_file_a_reference_names(
    x: ExpanderView,
    name: Seq<char>,
    base: Seq<char>,
)
    ensures
        at_imports::target(x, "~/"@ + name, base) == paths::resolved(
            x.fs.current,
            paths::joined(x.home, name),
        ),
        at_imports::target(x, seq!['~'], base) == paths::resolved(x.fs.current, x.home),
        name.len() > 0 && name[0] != '~' ==> at_imports::target(x, name, base) == paths::resolved(
            x.fs.current,
            paths::joined(base, name),
        ),
{
    reveal_strlit("~/");
    let tilde = "~/"@;
    assert(tilde.len() == 2 && tilde[0] == '~');
    let long = tilde + name;
    assert(long.len() >= 2);
    assert(long.subrange(0, 2) =~= tilde);
    assert(long.skip(2) =~= name);
    assert(long != seq!['~']);
    if name.len() > 0 && name[0] != '~' {
        assert(seq!['~'][0] == '~');
        if text::stands_at(name, 0, tilde) {
            assert(name.subrange(0, 2)[0] == name[0]);
        }
    }
}

/// A file that may be taken, was not taken yet and can be read stands for its reference, with its
/// own references replaced as seen from its directory, one level less deep. Everything else leaves
/// the reference as it is.
pub proof fn law_what_stands_for_a_reference(
    x: ExpanderView,
    import: Seq<char>,
    base: Seq<char>,
    room: nat,
    taken: Seq<Seq<char>>,
)
    ensures
        ({
            let path = at_imports::target(x, import, base);
            let (found, after) = at_imports::import_text(x, import, base, room, taken);
            let held = files::file_at(x.fs, path);
            let may = room > 0 && !taken.contains(path) && at_imports::allowed(x.allow, path);
            &&& found is Some <==> may && held is Some
            &&& found is None ==> after == taken
            &&& found matches Some(s) ==> (s, after) == at_imports::text_at(
                x,
                held.unwrap(),
                match paths::parent_of(path) {
                    Some(d) => d,
                    None => seq!['/'],
                },
                (room - 1) as nat,
                taken.push(path),
            )
        }),
{
}

proof fn lemma_no_span(s: Seq<char>, i: int, position: int, n: int)
    requires
        0 <= i,
        position <= n <= s.len(),
        forall|k: int| 0 <= k < n ==> (#[trigger] s[k]) != '`',
    ensures
        !at_imports::span_open(s, i, position, false),
    decreases s.len() - i,
{
    if i < position && i < s.len() {
        assert(s[i] != '`');
        lemma_no_span(s, i + 1, position, n);
    }
}

proof fn lemma_token(s: Seq<char>, i: int)
    requires
        0 <= i <= s.len(),
        forall|k: int| i <= k < s.len() ==> !text::is_space(Space::Js, #[trigger] s[k]),
    ensures
        at_imports::token_end(s, i) == s.len(),
    decreases s.len() - i,
{
    if i < s.len() {
        assert(!text::is_space(Space::Js, s[i]));
        lemma_token(s, i + 1);
    }
}

proof fn lemma_one_reference(before: Seq<char>, path: Seq<char>, i: int)
    requires
        is_plain(before),
        is_path(path),
        0 <= i < before.len() || (i == 0 && before.len() == 0),
    ensures
        at_imports::references_from(before + seq!['@'] + path, i) == seq![
            (before.len() as int, (before.len() + 1 + path.len()) as int),
        ],
    decreases before.len() - i,
{
    let s = before + seq!['@'] + path;
    let at = before.len() as int;
    assert(s[at] == '@');
    assert(s[at + 1] == path[0]);
    if i == at || i == at - 1 {
        assert(at > 0 ==> s[at - 1] == before[at - 1]);
        if i == 0 && at == 1 {
            assert(s[0] == before[0]);
            assert(!at_imports::refers_at(s, 0));
        }
        assert(at_imports::refers_at(s, at));
        assert(at_imports::found_at(s, i) == Some(at));
        assert forall|k: int| 0 <= k < at implies (#[trigger] s[k]) != '`' by {
            assert(s[k] == before[k]);
        }
        lemma_no_span(s, 0, at, at);
        assert forall|k: int| at + 2 <= k < s.len() implies !text::is_space(
            Space::Js,
            #[trigger] s[k],
        ) by {
            assert(s[k] == path[k - at - 1]);
        }
        lemma_token(s, at + 2);
        assert(s.subrange(at + 1, s.len() as int) =~= path);
        assert(at_imports::references_from(s, s.len() as int) =~= Seq::empty());
        assert(at_imports::reference_at(s, at) + Seq::<(int, int)>::empty()
            =~= at_imports::reference_at(s, at));
    } else {
        assert(s[i] == before[i]);
        assert(s[i + 1] == before[i + 1]);
        assert(!at_imports::refers_at(s, i));
        assert(!at_imports::refers_at(s, i + 1));
        assert(at_imports::found_at(s, i) is None);
        lemma_one_reference(before, path, i + 1);
    }
}

/// A text without references and code that ends where a reference may start.
pub open spec fn is_plain(before: Seq<char>) -> bool {
    &&& before.len() > 0 ==> before.last() == ' ' || before.last() == '\t'
    &&& forall|k: int| 0 <= k < before.len() ==> (#[trigger] before[k]) != '@' && before[k] != '`'
}

/// The path of a reference: no white space, a first character that a path may start with, and no
/// mark at its end.
pub open spec fn is_path(path: Seq<char>) -> bool {
    &&& path.len() > 0
    &&& at_imports::starts_path(path[0])
    &&& !at_imports::is_punct(path.last())
    &&& forall|k: int| 0 <= k < path.len() ==> !text::is_space(Space::Js, #[trigger] path[k])
}

/// A reference at the start of a line, or behind a blank, is replaced by what stands for it, where
/// there is anything; the text before it stays.
pub proof fn law_a_reference_is_replaced(
    x: ExpanderView,
    before: Seq<char>,
    path: Seq<char>,
    base: Seq<char>,
    room: nat,
    taken: Seq<Seq<char>>,
)
    requires
        is_plain(before),
        is_path(path),
    ensures
        ({
            let line = before + seq!['@'] + path;
            let (found, after) = at_imports::import_text(x, path, base, room, taken);
            at_imports::line_at(x, line, base, room, taken) == (
                match found {
                    Some(s) => before + s,
                    None => line,
                },
                after,
            )
        }),
{
    let line = before + seq!['@'] + path;
    let n = before.len() as int;
    lemma_one_reference(before, path, 0);
    let refs = at_imports::references_from(line, 0);
    let end = line.len() as int;
    assert(refs =~= seq![(n, end)]);
    assert(refs.drop_last() =~= Seq::empty());
    assert(line.subrange(n + 1, end) =~= path);
    reveal_with_fuel(at_imports::references_at, 2);
    let (found, after) = at_imports::import_text(x, path, base, room, taken);
    assert(at_imports::references_at(x, line, Seq::empty(), base, room, taken) == (
        Seq::<char>::empty(),
        taken,
    ));
    assert(line.skip(end) =~= Seq::empty());
    assert(line.subrange(0, n) =~= before);
    match found {
        Some(s) => {
            assert(Seq::<char>::empty() + before + s + Seq::<char>::empty() =~= before + s);
        },
        None => {
            assert(Seq::<char>::empty() + before + line.subrange(n, end) + Seq::<char>::empty()
                =~= line);
        },
    }
}

/// The marks at the end of a sentence do not belong to a path.
pub proof fn law_marks_at_the_end_are_left_out(path: Seq<char>, marks: Seq<char>)
    requires
        path.len() == 0 || !at_imports::is_punct(path.last()),
        forall|k: int| 0 <= k < marks.len() ==> at_imports::is_punct(#[trigger] marks[k]),
    ensures
        at_imports::unpunctuated(path + marks) == path,
    decreases marks.len(),
{
    if marks.len() > 0 {
        assert((path + marks).drop_last() =~= path + marks.drop_last());
        assert((path + marks).last() == marks.last());
        law_marks_at_the_end_are_left_out(path, marks.drop_last());
    } else {
        assert(path + marks =~= path);
    }
}

/// Code goes from the line of a fence to that of one that closes it: of the same character, and no
/// shorter. Lines in between are code, lines outside are not.
pub proof fn law_where_code_starts_and_ends(cut: CutView, line: Seq<char>)
    requires
        cut.in_code ==> cut.fence is Some,
    ensures
        ({
            let n = at_imports::cut_line(cut, line, false);
            let found = at_imports::fence_of(line);
            let closing = cut.in_code && found is Some && found.unwrap().0 == cut.fence.unwrap().0
                && found.unwrap().1 >= cut.fence.unwrap().1;
            &&& !cut.in_code && found is Some ==> n.in_code && n.fence == found && n.buffer == line
                + seq!['\n'] && n.segments == (if cut.buffer.len() > 0 {
                cut.segments.push(SegmentView { is_code: false, text: cut.buffer })
            } else {
                cut.segments
            })
            &&& closing ==> !n.in_code && n.fence is None && n.buffer.len() == 0 && n.segments
                == cut.segments.push(
                SegmentView { is_code: true, text: cut.buffer + (line + seq!['\n']) },
            )
            &&& !closing && (cut.in_code || found is None) ==> n.in_code == cut.in_code && n.fence
                == cut.fence && n.segments == cut.segments && n.buffer == cut.buffer + (line
                + seq!['\n'])
        }),
{
}

proof fn lemma_run(s: Seq<char>, c: char, i: int, n: int)
    requires
        0 <= i <= n <= s.len(),
        forall|k: int| i <= k < n ==> (#[trigger] s[k]) == c,
        n < s.len() ==> s[n] != c,
    ensures
        at_imports::run_end(s, c, i) == n,
    decreases n - i,
{
    if i < n {
        lemma_run(s, c, i + 1, n);
    }
}

/// A fence is a line that starts with at least three backticks or tildes.
pub proof fn law_what_a_fence_is(mark: char, n: nat, rest: Seq<char>)
    requires
        mark != ' ' && mark != '\t',
        n > 0,
        rest.len() == 0 || rest[0] != mark,
    ensures
        at_imports::fence_of(Seq::new(n, |i: int| mark) + rest) == (if (mark == '`' || mark == '~')
            && n >= 3 {
            Some((mark, n as int))
        } else {
            None
        }),
{
    let line = Seq::new(n, |i: int| mark) + rest;
    assert(line[0] == mark);
    assert(at_imports::blanks(line, 0) == 0);
    if n < line.len() {
        assert(line[n as int] == rest[0]);
    }
    lemma_run(line, mark, 0, n as int);
}

} // verus!
