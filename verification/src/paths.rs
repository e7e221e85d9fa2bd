//! Paths as texts: `/` separates, and nothing is asked of a file system.
use crate::text;
use crate::text::{join_strings, same_text, slice_string, split_text, to_chars};
use vstd::prelude::*;

verus! {

// ------------------------------------------------------------------ joining

/// Whether a path starts at the root.
pub open spec fn is_rooted(p: Seq<char>) -> bool {
    p.len() > 0 && p[0] == '/'
}

/// Whether a path starts at the root.
pub fn is_absolute(p: &str) -> (r: bool)
    ensures
        r == is_rooted(p@),
{
    let v = to_chars(p);
    v.len() > 0 && v[0] == '/'
}

/// `p` seen from `base`: `p` itself where it starts at the root.
pub open spec fn joined(base: Seq<char>, p: Seq<char>) -> Seq<char> {
    if is_rooted(p) || base.len() == 0 {
        p
    } else if base.last() == '/' {
        base + p
    } else {
        base + seq!['/'] + p
    }
}

/// `p` seen from `base`: `p` itself where it starts at the root.
pub fn join_path(base: &str, p: &str) -> (r: String)
    ensures
        r@ == joined(base@, p@),
{
    let b = to_chars(base);
    let n: usize = b.len();
    if is_absolute(p) || n == 0 {
        return p.to_string();
    }
    let mut out = base.to_string();
    if b[n - 1] != '/' {
        out.push('/');
        assert(out@ =~= base@ + seq!['/']);
    }
    out.append(p);
    out
}

// ------------------------------------------------------------------ resolving

/// The components that are left when `.` and empty pieces go and `..` takes the one before it.
pub open spec fn walked(pieces: Seq<Seq<char>>) -> Seq<Seq<char>>
    decreases pieces.len(),
{
    if pieces.len() == 0 {
        Seq::empty()
    } else {
        let before = walked(pieces.drop_last());
        let last = pieces.last();
        if last.len() == 0 || last == seq!['.'] {
            before
        } else if last == seq!['.', '.'] {
            if before.len() == 0 {
                before
            } else {
                before.drop_last()
            }
        } else {
            before.push(last)
        }
    }
}

/// The path that the components spell.
pub open spec fn spelled(rooted: bool, parts: Seq<Seq<char>>) -> Seq<char> {
    if rooted {
        seq!['/'] + text::join(parts, seq!['/'])
    } else {
        text::join(parts, seq!['/'])
    }
}

/// The components of a path seen from `current`.
pub open spec fn components(current: Seq<char>, p: Seq<char>) -> Seq<Seq<char>> {
    walked(text::split(joined(current, p), '/'))
}

/// `p` seen from the directory `current`, without `.`, `..` and needless separators. Links are
/// not followed.
pub open spec fn resolved(current: Seq<char>, p: Seq<char>) -> Seq<char> {
    spelled(is_rooted(joined(current, p)), components(current, p))
}

fn walk(full: &str) -> (r: Vec<String>)
    ensures
        text::views(r@) == walked(text::split(full@, '/')),
{
    proof {
        reveal_strlit(".");
        reveal_strlit("..");
        assert("."@ =~= seq!['.']);
        assert(".."@ =~= seq!['.', '.']);
    }
    let pieces = split_text(full, '/');
    let ghost all = text::split(full@, '/');
    let mut out: Vec<String> = Vec::new();
    let mut i: usize = 0;
    while i < pieces.len()
        invariant
            i <= pieces@.len(),
            text::views(pieces@) == all,
            "."@ == seq!['.'],
            ".."@ == seq!['.', '.'],
            text::views(out@) == walked(all.take(i as int)),
        decreases pieces@.len() - i,
    {
        let ghost before = out@;
        proof {
            assert(all.take(i as int + 1).drop_last() =~= all.take(i as int));
            assert(all.take(i as int + 1).last() == pieces@[i as int]@);
        }
        let piece = pieces[i].as_str();
        if to_chars(piece).len() == 0 || same_text(piece, ".") {
        } else if same_text(piece, "..") {
            let _ = out.pop();
            proof {
                if before.len() > 0 {
                    assert(text::views(out@) =~= text::views(before).drop_last());
                }
            }
        } else {
            out.push(piece.to_string());
            assert(text::views(out@) =~= text::views(before).push(piece@));
        }
        i += 1;
    }
    assert(all.take(i as int) =~= all);
    out
}

/// `p` seen from the directory `current`, without `.`, `..` and needless separators. Links are
/// not followed.
pub fn resolve(current: &str, p: &str) -> (r: String)
    ensures
        r@ == resolved(current@, p@),
{
    proof {
        reveal_strlit("/");
        assert("/"@ =~= seq!['/']);
    }
    let full = join_path(current, p);
    let parts = walk(&full);
    let rest = join_strings(&parts, "/");
    if is_absolute(&full) {
        text::concat("/", &rest)
    } else {
        rest
    }
}

/// `p` seen from `base`, which itself is seen from `current`.
pub fn resolve_from(current: &str, base: &str, p: &str) -> (r: String)
    ensures
        r@ == resolved(current@, joined(base@, p@)),
{
    let full = join_path(base, p);
    resolve(current, &full)
}

// ------------------------------------------------------------------ parents and names

/// The index of the last `/`.
pub open spec fn last_slash(p: Seq<char>) -> Option<int>
    decreases p.len(),
{
    if p.len() == 0 {
        None
    } else if p.last() == '/' {
        Some(p.len() - 1)
    } else {
        last_slash(p.drop_last())
    }
}

proof fn lemma_last_slash(p: Seq<char>)
    ensures
        match last_slash(p) {
            Some(i) => 0 <= i < p.len() && p[i] == '/',
            None => true,
        },
    decreases p.len(),
{
    if p.len() > 0 && p.last() != '/' {
        lemma_last_slash(p.drop_last());
    }
}

fn find_last_slash(v: &Vec<char>) -> (r: Option<usize>)
    ensures
        match r {
            Some(i) => last_slash(v@) == Some(i as int) && i < v@.len(),
            None => last_slash(v@) is None,
        },
{
    let mut n: usize = v.len();
    assert(v@.take(n as int) =~= v@);
    while n > 0
        invariant
            n <= v@.len(),
            last_slash(v@) == last_slash(v@.take(n as int)),
        decreases n,
    {
        assert(v@.take(n as int).drop_last() =~= v@.take(n as int - 1));
        assert(v@.take(n as int).last() == v@[n as int - 1]);
        if v[n - 1] == '/' {
            return Some(n - 1);
        }
        n -= 1;
    }
    None
}

/// Whether a path starts with `.`, the directory it is seen from.
pub open spec fn starts_here(p: Seq<char>) -> bool {
    p.len() > 0 && p[0] == '.' && (p.len() == 1 || p[1] == '/')
}

/// How much of a path comes before its first name: the root, or a `.` at its start.
pub open spec fn lead(p: Seq<char>) -> int {
    if is_rooted(p) || starts_here(p) {
        1
    } else {
        0
    }
}

/// A path without the separators and the `.` pieces at its end.
pub open spec fn tidy(p: Seq<char>) -> Seq<char>
    decreases p.len(),
{
    if p.len() > lead(p) && (p.last() == '/' || (p.len() >= 2 && p.last() == '.' && p[p.len() - 2]
        == '/')) {
        tidy(p.drop_last())
    } else {
        p
    }
}

proof fn lemma_tidy(p: Seq<char>)
    ensures
        tidy(p).len() <= p.len(),
        tidy(p).len() > 0 && tidy(p).last() == '/' ==> tidy(p) == seq!['/'],
    decreases p.len(),
{
    if p.len() > lead(p) && (p.last() == '/' || (p.len() >= 2 && p.last() == '.' && p[p.len() - 2]
        == '/')) {
        lemma_tidy(p.drop_last());
    } else if p.len() > 0 && p.last() == '/' {
        assert(p =~= seq!['/']);
    }
}

fn cut_end(v: &Vec<char>, end: usize) -> (r: usize)
    requires
        end <= v@.len(),
    ensures
        r <= end,
        tidy(v@.take(end as int)) == v@.take(r as int),
{
    let mut n: usize = end;
    while n > 0
        invariant
            n <= end <= v@.len(),
            tidy(v@.take(end as int)) == tidy(v@.take(n as int)),
        decreases n,
    {
        let ghost p = v@.take(n as int);
        let rooted = v[0] == '/';
        let here = v[0] == '.' && (n == 1 || v[1] == '/');
        let from: usize = if rooted || here { 1 } else { 0 };
        assert(from == lead(p));
        if n > from && (v[n - 1] == '/' || (n >= 2 && v[n - 1] == '.' && v[n - 2] == '/')) {
            assert(p.drop_last() =~= v@.take(n as int - 1));
            n -= 1;
        } else {
            return n;
        }
    }
    n
}

/// The directory that holds a path; the root and the empty path have none.
pub open spec fn parent_of(p: Seq<char>) -> Option<Seq<char>> {
    let t = tidy(p);
    if t.len() == 0 || t == seq!['/'] {
        None
    } else {
        match last_slash(t) {
            None => Some(Seq::empty()),
            Some(i) => Some(tidy(t.take(i + 1))),
        }
    }
}

/// A parent is shorter.
pub proof fn lemma_parent_is_shorter(p: Seq<char>)
    ensures
        match parent_of(p) {
            Some(q) => q.len() < p.len(),
            None => true,
        },
{
    let t = tidy(p);
    lemma_tidy(p);
    lemma_last_slash(t);
    match last_slash(t) {
        Some(i) => {
            lemma_tidy(t.take(i + 1));
        },
        None => {},
    }
}

/// The directory that holds a path; the root and the empty path have none.
pub fn parent(p: &str) -> (r: Option<String>)
    ensures
        text::opt_view(r) == parent_of(p@),
{
    proof {
        reveal_strlit("");
        assert(""@ =~= Seq::empty());
    }
    let mut v = to_chars(p);
    assert(v@.take(v@.len() as int) =~= p@);
    let n: usize = cut_end(&v, v.len());
    v.truncate(n);
    let ghost t = tidy(p@);
    assert(v@ =~= t);
    if n == 0 || (n == 1 && v[0] == '/') {
        assert(n == 1 ==> t =~= seq!['/']);
        return None;
    }
    match find_last_slash(&v) {
        None => Some("".to_string()),
        Some(i) => {
            let m: usize = cut_end(&v, i + 1);
            let s = slice_string(&v, 0, m);
            assert(s@ =~= v@.take(m as int));
            Some(s)
        },
    }
}

/// The last name of a path: nothing where it is the root, or ends in `.` or `..`.
pub open spec fn name_of(p: Seq<char>) -> Seq<char> {
    let t = tidy(p);
    let tail = match last_slash(t) {
        None => t,
        Some(i) => t.skip(i + 1),
    };
    if tail == seq!['.'] || tail == seq!['.', '.'] {
        Seq::empty()
    } else {
        tail
    }
}

/// The last name of a path: nothing where it is the root, or ends in `.` or `..`.
pub fn file_name(p: &str) -> (r: String)
    ensures
        r@ == name_of(p@),
{
    proof {
        reveal_strlit("");
        assert(""@ =~= Seq::empty());
        reveal_strlit(".");
        assert("."@ =~= seq!['.']);
        reveal_strlit("..");
        assert(".."@ =~= seq!['.', '.']);
    }
    let mut v = to_chars(p);
    assert(v@.take(v@.len() as int) =~= p@);
    let n: usize = cut_end(&v, v.len());
    v.truncate(n);
    assert(v@ =~= tidy(p@));
    let from: usize = match find_last_slash(&v) {
        None => 0,
        Some(i) => i + 1,
    };
    let tail = slice_string(&v, from, n);
    assert(tail@ =~= v@.skip(from as int));
    assert(v@.skip(0) =~= v@);
    if same_text(&tail, ".") || same_text(&tail, "..") {
        "".to_string()
    } else {
        tail
    }
}

/// The pieces that are names, or `..`.
pub open spec fn names_in(pieces: Seq<Seq<char>>) -> Seq<Seq<char>>
    decreases pieces.len(),
{
    if pieces.len() == 0 {
        Seq::empty()
    } else {
        let before = names_in(pieces.drop_last());
        if pieces.last().len() == 0 || pieces.last() == seq!['.'] {
            before
        } else {
            before.push(pieces.last())
        }
    }
}

/// Whether two paths spell the same place: separators that are doubled or at the end, and `.`
/// but at the start, make no difference; `..` is not followed.
pub open spec fn same_place(a: Seq<char>, b: Seq<char>) -> bool {
    &&& is_rooted(a) == is_rooted(b)
    &&& starts_here(a) == starts_here(b)
    &&& names_in(text::split(a, '/')) == names_in(text::split(b, '/'))
}

fn is_here(p: &str) -> (r: bool)
    ensures
        r == starts_here(p@),
{
    let v = to_chars(p);
    v.len() > 0 && v[0] == '.' && (v.len() == 1 || v[1] == '/')
}

fn path_names(p: &str) -> (r: Vec<String>)
    ensures
        text::views(r@) == names_in(text::split(p@, '/')),
{
    proof {
        reveal_strlit(".");
        assert("."@ =~= seq!['.']);
        reveal_strlit("");
        assert(""@ =~= Seq::empty());
    }
    let pieces = split_text(p, '/');
    let ghost all = text::split(p@, '/');
    let mut out: Vec<String> = Vec::new();
    let mut i: usize = 0;
    proof {
        assert(all.take(0) =~= Seq::<Seq<char>>::empty());
        assert(text::views(out@) =~= Seq::empty());
    }
    while i < pieces.len()
        invariant
            i <= pieces@.len(),
            all == text::views(pieces@),
            "."@ == seq!['.'],
            ""@ == Seq::<char>::empty(),
            text::views(out@) == names_in(all.take(i as int)),
        decreases pieces@.len() - i,
    {
        proof {
            assert(all.take(i as int + 1).drop_last() =~= all.take(i as int));
            assert(all.take(i as int + 1).last() == pieces@[i as int]@);
        }
        assert(pieces@[i as int]@.len() == 0 ==> pieces@[i as int]@ =~= Seq::<char>::empty());
        if !same_text(&pieces[i], "") && !same_text(&pieces[i], ".") {
            let s = pieces[i].clone();
            proof {
                text::lemma_views_push(out@, s);
            }
            out.push(s);
        }
        i += 1;
    }
    assert(all.take(i as int) =~= all);
    out
}

/// Whether two paths spell the same place.
pub fn is_same_place(a: &str, b: &str) -> (r: bool)
    ensures
        r == same_place(a@, b@),
{
    if is_absolute(a) != is_absolute(b) || is_here(a) != is_here(b) {
        return false;
    }
    let x = path_names(a);
    let y = path_names(b);
    if x.len() != y.len() {
        assert(text::views(x@).len() != text::views(y@).len());
        return false;
    }
    let mut i: usize = 0;
    while i < x.len()
        invariant
            i <= x@.len(),
            x@.len() == y@.len(),
            text::views(x@) == names_in(text::split(a@, '/')),
            text::views(y@) == names_in(text::split(b@, '/')),
            forall|j: int| 0 <= j < i ==> #[trigger] text::views(x@)[j] == text::views(y@)[j],
        decreases x@.len() - i,
    {
        if !same_text(&x[i], &y[i]) {
            assert(text::views(x@)[i as int] != text::views(y@)[i as int]);
            return false;
        }
        i += 1;
    }
    assert(text::views(x@) =~= text::views(y@));
    true
}

/// Whether a list holds a path to the same place.
pub open spec fn holds_place(list: Seq<Seq<char>>, p: Seq<char>) -> bool {
    exists|i: int| 0 <= i < list.len() && same_place(#[trigger] list[i], p)
}

/// Whether a list holds a path to the same place.
pub fn contains_place(list: &Vec<String>, p: &str) -> (r: bool)
    ensures
        r == holds_place(text::views(list@), p@),
{
    let ghost all = text::views(list@);
    let mut i: usize = 0;
    while i < list.len()
        invariant
            i <= list@.len(),
            all == text::views(list@),
            forall|j: int| 0 <= j < i ==> !same_place(#[trigger] all[j], p@),
        decreases list@.len() - i,
    {
        assert(all[i as int] == list@[i as int]@);
        if is_same_place(&list[i], p) {
            return true;
        }
        i += 1;
    }
    false
}

/// The directory, its parent and so on, up to `stop` or as far as there are parents.
pub open spec fn upwards(dir: Seq<char>, stop: Seq<char>) -> Seq<Seq<char>>
    decreases dir.len(),
    via upwards_ends
{
    if same_place(dir, stop) {
        seq![dir]
    } else {
        match parent_of(dir) {
            None => seq![dir],
            Some(up) => seq![dir] + upwards(up, stop),
        }
    }
}

#[via_fn]
proof fn upwards_ends(dir: Seq<char>, stop: Seq<char>) {
    lemma_parent_is_shorter(dir);
}

/// The directory, its parent and so on, up to `stop` or as far as there are parents.
pub fn ancestors_until(dir: &str, stop: &str) -> (r: Vec<String>)
    ensures
        text::views(r@) == upwards(dir@, stop@),
{
    let mut out: Vec<String> = Vec::new();
    let mut here = dir.to_string();
    assert(text::views(out@) + upwards(here@, stop@) =~= upwards(dir@, stop@));
    loop
        invariant
            text::views(out@) + upwards(here@, stop@) == upwards(dir@, stop@),
        decreases here@.len(),
    {
        let ghost before = text::views(out@);
        let ghost from = here@;
        let at_stop = is_same_place(&here, stop);
        let up = parent(&here);
        proof {
            lemma_parent_is_shorter(here@);
            text::lemma_views_push(out@, here);
        }
        out.push(here);
        if at_stop {
            assert(before + upwards(from, stop@) =~= text::views(out@));
            return out;
        }
        match up {
            None => {
                assert(before + upwards(from, stop@) =~= text::views(out@));
                return out;
            },
            Some(next) => {
                assert(before + upwards(from, stop@) =~= text::views(out@) + upwards(next@, stop@));
                here = next;
            },
        }
    }
}

// ------------------------------------------------------------------ comparing

/// The number of separators, as far as an `i64` counts.
pub open spec fn separators(p: Seq<char>) -> int
    decreases p.len(),
{
    if p.len() == 0 {
        0
    } else {
        let n = separators(p.drop_last());
        if p.last() == '/' && n < i64::MAX {
            n + 1
        } else {
            n
        }
    }
}

fn count_separators(p: &str) -> (r: i64)
    ensures
        r == separators(p@),
        0 <= r,
{
    let v = to_chars(p);
    let mut n: i64 = 0;
    let mut i: usize = 0;
    while i < v.len()
        invariant
            i <= v@.len(),
            0 <= n,
            n == separators(v@.take(i as int)),
        decreases v@.len() - i,
    {
        assert(v@.take(i as int + 1).drop_last() =~= v@.take(i as int));
        assert(v@.take(i as int + 1).last() == v@[i as int]);
        if v[i] == '/' && n < i64::MAX {
            n += 1;
        }
        i += 1;
    }
    assert(v@.take(i as int) =~= v@);
    n
}

/// How many levels `cwd` lies below `target`: positive for ancestors of `cwd`, zero for `cwd`
/// itself, negative below it.
pub open spec fn depth_of(cwd: Seq<char>, target: Seq<char>) -> int {
    separators(cwd) - separators(target)
}

/// How many levels `cwd` lies below `target`: positive for ancestors of `cwd`, zero for `cwd`
/// itself, negative below it.
pub fn calculate_depth(cwd: &str, target: &str) -> (r: i64)
    ensures
        r == depth_of(cwd@, target@),
{
    let a: i64 = count_separators(cwd);
    let b: i64 = count_separators(target);
    a - b
}

/// Whether `child` is `parent` or lies below it, both seen from `current`.
pub open spec fn within(current: Seq<char>, parent: Seq<char>, child: Seq<char>) -> bool {
    let above = components(current, parent);
    let below = components(current, child);
    &&& is_rooted(joined(current, parent)) == is_rooted(joined(current, child))
    &&& above.len() <= below.len()
    &&& below.take(above.len() as int) == above
}

/// Whether `child` is `parent` or lies below it, both seen from `current`.
pub fn is_within(current: &str, parent: &str, child: &str) -> (r: bool)
    ensures
        r == within(current@, parent@, child@),
{
    let a = join_path(current, parent);
    let b = join_path(current, child);
    if is_absolute(&a) != is_absolute(&b) {
        return false;
    }
    let above = walk(&a);
    let below = walk(&b);
    let ghost pa = text::views(above@);
    let ghost pb = text::views(below@);
    if above.len() > below.len() {
        return false;
    }
    let mut i: usize = 0;
    while i < above.len()
        invariant
            i <= above@.len() <= below@.len(),
            pa == text::views(above@),
            pb == text::views(below@),
            pa == components(current@, parent@),
            pb == components(current@, child@),
            forall|j: int| 0 <= j < i ==> pa[j] == pb[j],
        decreases above@.len() - i,
    {
        if !same_text(&above[i], &below[i]) {
            assert(pb.take(pa.len() as int)[i as int] == pb[i as int]);
            assert(pa[i as int] != pb[i as int]);
            return false;
        }
        i += 1;
    }
    assert(pb.take(pa.len() as int) =~= pa);
    true
}

/// Whether two paths seen from `current` are the same.
pub fn same_path(current: &str, a: &str, b: &str) -> (r: bool)
    ensures
        r == (resolved(current@, a@) == resolved(current@, b@)),
{
    let x = resolve(current, a);
    let y = resolve(current, b);
    same_text(&x, &y)
}

// ------------------------------------------------------------------ laws

/// A component: not empty, not `.` or `..`, and without a separator.
pub open spec fn is_plain(part: Seq<char>) -> bool {
    &&& part.len() > 0
    &&& part != seq!['.']
    &&& part != seq!['.', '.']
    &&& !part.contains('/')
}

/// Every part is a component.
pub open spec fn all_plain(parts: Seq<Seq<char>>) -> bool {
    forall|i: int| 0 <= i < parts.len() ==> is_plain(#[trigger] parts[i])
}

proof fn lemma_walked_is_plain(pieces: Seq<Seq<char>>)
    requires
        text::pieces_without(pieces, '/'),
    ensures
        all_plain(walked(pieces)),
    decreases pieces.len(),
{
    if pieces.len() > 0 {
        lemma_walked_is_plain(pieces.drop_last());
        assert(pieces.last() == pieces[pieces.len() - 1]);
    }
}

proof fn lemma_plain_stays(first: Seq<Seq<char>>, parts: Seq<Seq<char>>)
    requires
        all_plain(parts),
        walked(first) == Seq::<Seq<char>>::empty(),
    ensures
        walked(first + parts) == parts,
    decreases parts.len(),
{
    let all = first + parts;
    if parts.len() == 0 {
        assert(all =~= first);
        assert(walked(all) =~= parts);
    } else {
        assert(all.drop_last() =~= first + parts.drop_last());
        assert(all.last() == parts.last());
        assert(parts.last() == parts[parts.len() - 1]);
        lemma_plain_stays(first, parts.drop_last());
        assert(walked(all) =~= parts);
    }
}

proof fn lemma_spelled_components(parts: Seq<Seq<char>>)
    requires
        all_plain(parts),
    ensures
        walked(text::split(spelled(true, parts), '/')) == parts,
{
    reveal_with_fuel(walked, 3);
    reveal_with_fuel(text::join, 3);
    let nothing = Seq::<char>::empty();
    let first = seq![nothing];
    assert(first.drop_last() =~= Seq::<Seq<char>>::empty());
    assert(walked(first) =~= Seq::<Seq<char>>::empty());
    if parts.len() == 0 {
        let two = seq![nothing, nothing];
        text::law_joined_pieces_split(two, '/');
        assert(two.drop_last() =~= first);
        assert(text::join(two, seq!['/']) =~= seq!['/']);
        assert(spelled(true, parts) =~= seq!['/']);
        assert(walked(two) =~= parts);
    } else {
        text::lemma_join_first(nothing, parts, seq!['/']);
        let all = first + parts;
        assert(text::join(all, seq!['/']) =~= spelled(true, parts));
        assert forall|i: int| 0 <= i < all.len() implies !(#[trigger] all[i]).contains('/') by {
            if i > 0 {
                assert(all[i] == parts[i - 1]);
            }
        }
        text::law_joined_pieces_split(all, '/');
        lemma_plain_stays(first, parts);
    }
}

/// A resolved path has no `.`, no `..`, no empty component; and resolving it again, from
/// wherever, changes nothing.
pub proof fn law_resolving_once_is_enough(current: Seq<char>, other: Seq<char>, p: Seq<char>)
    requires
        is_rooted(current) || is_rooted(p),
    ensures
        all_plain(components(current, p)),
        is_rooted(resolved(current, p)),
        components(other, resolved(current, p)) == components(current, p),
        resolved(other, resolved(current, p)) == resolved(current, p),
{
    text::lemma_split_without(joined(current, p), '/');
    lemma_walked_is_plain(text::split(joined(current, p), '/'));
    lemma_spelled_components(components(current, p));
    assert(is_rooted(joined(current, p)));
    assert(resolved(current, p)[0] == '/');
}

/// A path lies within itself and within the root, and what lies within a path that lies within
/// another lies within that one too.
pub proof fn law_within_is_an_order(current: Seq<char>, a: Seq<char>, b: Seq<char>, c: Seq<char>)
    ensures
        within(current, a, a),
        within(current, a, b) && within(current, b, c) ==> within(current, a, c),
        is_rooted(joined(current, a)) ==> within(current, seq!['/'], a),
{
    let x = components(current, a);
    let y = components(current, b);
    let z = components(current, c);
    assert(x.take(x.len() as int) =~= x);
    if within(current, a, b) && within(current, b, c) {
        assert(z.take(x.len() as int) =~= y.take(x.len() as int));
    }
    reveal_with_fuel(walked, 3);
    reveal_with_fuel(text::join, 3);
    let nothing = Seq::<char>::empty();
    let two = seq![nothing, nothing];
    text::law_joined_pieces_split(two, '/');
    assert(two.drop_last() =~= seq![nothing]);
    assert(seq![nothing].drop_last() =~= Seq::<Seq<char>>::empty());
    assert(text::join(two, seq!['/']) =~= seq!['/']);
    assert(joined(current, seq!['/']) == seq!['/']);
    assert(walked(seq![nothing]) =~= Seq::<Seq<char>>::empty());
    assert(walked(two) =~= Seq::<Seq<char>>::empty());
    assert(x.take(0) =~= Seq::<Seq<char>>::empty());
}

proof fn lemma_separators_after(p: Seq<char>, more: Seq<char>)
    requires
        !more.contains('/'),
    ensures
        separators(p + more) == separators(p),
    decreases more.len(),
{
    let all = p + more;
    if more.len() == 0 {
        assert(all =~= p);
    } else {
        assert(all.drop_last() =~= p + more.drop_last());
        assert(all.last() == more[more.len() - 1]);
        assert forall|c: char| more.drop_last().contains(c) implies more.contains(c) by {
            let at = choose|at: int|
                0 <= at < more.drop_last().len() && more.drop_last()[at] == c;
            assert(more[at] == c);
        }
        lemma_separators_after(p, more.drop_last());
    }
}

proof fn lemma_separators_of_parts(parts: Seq<Seq<char>>)
    requires
        all_plain(parts),
        0 < parts.len() <= i64::MAX,
    ensures
        separators(spelled(true, parts)) == parts.len(),
    decreases parts.len(),
{
    let root = seq!['/'];
    let last = parts[parts.len() - 1];
    if parts.len() == 1 {
        assert(root.drop_last() =~= Seq::<char>::empty());
        assert(separators(Seq::<char>::empty()) == 0);
        assert(separators(root) == 1);
        lemma_separators_after(root, last);
    } else {
        let before = spelled(true, parts.drop_last());
        lemma_separators_of_parts(parts.drop_last());
        assert(before.push('/').drop_last() =~= before);
        assert(separators(before.push('/')) == parts.len());
        lemma_separators_after(before.push('/'), last);
        assert(spelled(true, parts) =~= before.push('/') + last);
    }
}

/// The depth counts levels: a path of so many further components lies so many levels below
/// another one, and that one as many above it. The root is left out: its one separator counts
/// like a component.
pub proof fn law_depth_counts_levels(above: Seq<Seq<char>>, more: Seq<Seq<char>>)
    requires
        all_plain(above),
        all_plain(more),
        above.len() > 0,
        above.len() + more.len() <= i64::MAX,
    ensures
        depth_of(spelled(true, above + more), spelled(true, above)) == more.len(),
        depth_of(spelled(true, above), spelled(true, above + more)) == -(more.len() as int),
{
    let all = above + more;
    assert forall|i: int| 0 <= i < all.len() implies is_plain(#[trigger] all[i]) by {
        if i < above.len() {
            assert(all[i] == above[i]);
        } else {
            assert(all[i] == more[i - above.len()]);
        }
    }
    lemma_separators_of_parts(above);
    lemma_separators_of_parts(all);
}

/// The depth of resolved paths: what lies within a path lies as many levels below it as it has
/// components more.
pub proof fn law_depth_within(current: Seq<char>, a: Seq<char>, b: Seq<char>)
    requires
        is_rooted(current),
        within(current, a, b),
        components(current, a).len() > 0,
        components(current, b).len() <= i64::MAX,
    ensures
        depth_of(resolved(current, b), resolved(current, a)) == components(current, b).len()
            - components(current, a).len(),
        depth_of(resolved(current, b), resolved(current, a)) >= 0,
        depth_of(resolved(current, b), resolved(current, a)) == 0 <==> resolved(current, a)
            == resolved(current, b),
{
    law_resolving_once_is_enough(current, current, a);
    law_resolving_once_is_enough(current, current, b);
    let x = components(current, a);
    let y = components(current, b);
    let more = y.skip(x.len() as int);
    assert(x + more =~= y);
    law_depth_counts_levels(x, more);
    if more.len() == 0 {
        assert(x =~= y);
    }
}

/// A separator at the end of a path makes no difference to the place, nor to the parent.
pub proof fn law_a_separator_at_the_end_says_nothing(p: Seq<char>)
    requires
        p.len() > 0,
    ensures
        same_place(p, p.push('/')),
        parent_of(p.push('/')) == parent_of(p),
        name_of(p.push('/')) == name_of(p),
{
    let q = p.push('/');
    let bar = seq!['/'];
    let nothing = Seq::<char>::empty();
    let pieces = text::split(p, '/');
    let more = pieces.push(nothing);
    text::law_split_pieces_join(p, '/');
    text::lemma_split_without(p, '/');
    text::lemma_split_from_nonempty(p, '/', 0);
    assert(more.drop_last() =~= pieces);
    assert(text::join(more, bar) =~= q);
    text::law_joined_pieces_split(more, '/');
    assert(text::split(q, '/') == more);
    assert(names_in(more) == names_in(pieces));
    assert(q.drop_last() =~= p);
    if q.len() <= lead(q) {
        assert(p =~= nothing);
    }
}

/// The walk upwards starts with the directory itself, and where it meets a path to `stop`, that
/// path is its last one.
pub proof fn law_the_walk_ends_at_the_stop(dir: Seq<char>, stop: Seq<char>, i: int)
    requires
        0 <= i < upwards(dir, stop).len(),
        same_place(upwards(dir, stop)[i], stop),
    ensures
        upwards(dir, stop)[0] == dir,
        i == upwards(dir, stop).len() - 1,
    decreases dir.len(),
{
    let all = upwards(dir, stop);
    lemma_parent_is_shorter(dir);
    if !same_place(dir, stop) {
        match parent_of(dir) {
            Some(up) => {
                assert(all == seq![dir] + upwards(up, stop));
                assert(all[i] == upwards(up, stop)[i - 1]);
                law_the_walk_ends_at_the_stop(up, stop, i - 1);
            },
            None => {},
        }
    }
}

} // verus!
