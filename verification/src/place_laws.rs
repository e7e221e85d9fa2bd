//! How paths are put together and taken apart, and what is known of the files at them.
use crate::files;
use crate::files::{FsView, KnownFileView};
use crate::paths;
use crate::sse;
use crate::text;
use vstd::prelude::*;

verus! {

// ------------------------------------------------------------------ paths

/// A path from the root is itself wherever it is seen from; any other one lies below the directory
/// that it is seen from.
pub proof fn law_where_a_path_leads(base: Seq<char>, p: Seq<char>)
    ensures
        p.len() > 0 && p[0] == '/' ==> paths::joined(base, p) == p,
        base.len() > 0 && base.last() != '/' && !(p.len() > 0 && p[0] == '/') ==> paths::joined(
            base,
            p,
        ) == base + seq!['/'] + p,
        base.len() > 0 && base.last() == '/' && !(p.len() > 0 && p[0] == '/') ==> paths::joined(
            base,
            p,
        ) == base + p,
        base.len() == 0 ==> paths::joined(base, p) == p,
{
}

/// A name goes one level down, two dots one level up, but not above the root; one dot, and nothing
/// between two separators, stay where they are.
pub proof fn law_how_a_path_is_walked(pieces: Seq<Seq<char>>, piece: Seq<char>)
    ensures
        ({
            let have = paths::walked(pieces);
            let all = paths::walked(pieces.push(piece));
            &&& piece.len() == 0 || piece == seq!['.'] ==> all == have
            &&& piece == seq!['.', '.'] && have.len() > 0 ==> all == have.drop_last()
            &&& piece == seq!['.', '.'] && have.len() == 0 ==> all.len() == 0
            &&& piece.len() > 0 && piece != seq!['.'] && piece != seq!['.', '.'] ==> all
                == have.push(piece)
        }),
        paths::walked(Seq::empty()).len() == 0,
{
    assert(pieces.push(piece).drop_last() =~= pieces);
    assert(seq!['.', '.'].len() == 2 && seq!['.'].len() == 1);
    if piece == seq!['.', '.'] {
        assert(piece != seq!['.']);
    }
}

proof fn lemma_last_slash(a: Seq<char>, name: Seq<char>)
    requires
        !name.contains('/'),
    ensures
        paths::last_slash(a + seq!['/'] + name) == Some(a.len() as int),
    decreases name.len(),
{
    let s = a + seq!['/'] + name;
    if name.len() == 0 {
        assert(s.last() == '/');
        assert(s.len() - 1 == a.len());
    } else {
        let less = name.drop_last();
        assert(s.last() == name.last());
        assert(name.contains(name.last())) by {
            assert(name[name.len() - 1] == name.last());
        }
        assert(!less.contains('/')) by {
            if less.contains('/') {
                let i = choose|i: int| 0 <= i < less.len() && less[i] == '/';
                assert(name[i] == '/');
            }
        }
        assert(s.drop_last() =~= a + seq!['/'] + less);
        lemma_last_slash(a, less);
    }
}

/// A path that ends in a name, and has neither a separator nor a lone dot at its end.
pub open spec fn ends_in_a_name(p: Seq<char>) -> bool {
    p.len() > 0 && p.last() != '/' && !(p.len() >= 2 && p.last() == '.' && p[p.len() - 2] == '/')
}

/// The directory that holds a name in a directory is that directory, and the name is the name.
pub proof fn law_a_directory_holds_its_names(dir: Seq<char>, name: Seq<char>)
    requires
        dir.len() > 0 && dir[0] == '/',
        ends_in_a_name(dir),
        paths::is_plain(name),
    ensures
        paths::parent_of(paths::joined(dir, name)) == Some(dir),
        paths::name_of(paths::joined(dir, name)) == name,
        paths::parent_of(paths::joined(seq!['/'], name)) == Some(seq!['/']),
        paths::name_of(paths::joined(seq!['/'], name)) == name,
        paths::parent_of(seq!['/']) is None,
{
    assert(name[0] != '/') by {
        assert(name.contains(name[0]));
    }
    assert(name.last() != '/') by {
        assert(name[name.len() - 1] == name.last());
    }
    // below a directory
    let p = dir + seq!['/'] + name;
    assert(paths::joined(dir, name) == p);
    assert(p[0] == '/');
    assert(p.last() == name.last());
    lemma_not_alone(dir, name);
    assert(paths::tidy(p) == p);
    lemma_last_slash(dir, name);
    let n = dir.len() as int;
    let up = p.take(n + 1);
    assert(up.last() == '/' && up[0] == '/');
    assert(up.drop_last() =~= dir);
    assert(paths::tidy(dir) == dir);
    assert(paths::tidy(up) == dir);
    assert(p.skip(n + 1) =~= name);
    assert(p != seq!['/']) by {
        assert(p.len() > 1);
    }
    // below the root
    let none = Seq::<char>::empty();
    let q = seq!['/'] + name;
    assert(paths::joined(seq!['/'], name) == q);
    assert(q =~= none + seq!['/'] + name);
    lemma_not_alone(none, name);
    assert(q[0] == '/' && q.last() == name.last());
    assert(paths::tidy(q) == q);
    lemma_last_slash(none, name);
    let top = q.take(1);
    assert(top =~= seq!['/']);
    assert(paths::tidy(top) == top);
    assert(q.skip(1) =~= name);
    assert(q.len() > 1);
    assert(paths::tidy(seq!['/']) == seq!['/']);
}

proof fn lemma_not_alone(a: Seq<char>, name: Seq<char>)
    requires
        paths::is_plain(name),
    ensures
        ({
            let p = a + seq!['/'] + name;
            !(p.len() >= 2 && p.last() == '.' && p[p.len() - 2] == '/')
        }),
{
    let p = a + seq!['/'] + name;
    if name.len() == 1 {
        if name[0] == '.' {
            assert(name =~= seq!['.']);
        }
        assert(p.last() == name[0]);
    } else {
        assert(p[p.len() - 2] == name[name.len() - 2]);
        assert(name.contains(name[name.len() - 2]));
    }
}

/// The way up starts at a directory, goes from each one to the one that holds it, and ends at the
/// first that is the stop, or has none above it.
pub proof fn law_the_way_up(dir: Seq<char>, stop: Seq<char>)
    ensures
        ({
            let way = paths::upwards(dir, stop);
            &&& way.len() > 0 && way[0] == dir
            &&& forall|i: int|
                0 <= i < way.len() - 1 ==> paths::parent_of(#[trigger] way[i]) == Some(way[i + 1])
                    && !paths::same_place(way[i], stop)
            &&& paths::same_place(way.last(), stop) || paths::parent_of(way.last()) is None
        }),
    decreases dir.len(),
{
    let way = paths::upwards(dir, stop);
    if !paths::same_place(dir, stop) {
        match paths::parent_of(dir) {
            None => {},
            Some(up) => {
                paths::lemma_parent_is_shorter(dir);
                law_the_way_up(up, stop);
                let rest = paths::upwards(up, stop);
                assert(way =~= seq![dir] + rest);
                assert forall|i: int| 0 <= i < way.len() - 1 implies paths::parent_of(
                    #[trigger] way[i],
                ) == Some(way[i + 1]) && !paths::same_place(way[i], stop) by {
                    if i > 0 {
                        assert(way[i] == rest[i - 1]);
                        assert(way[i + 1] == rest[i - 1 + 1]);
                    } else {
                        assert(way[1] == rest[0]);
                    }
                }
                assert(way.last() == rest.last());
            },
        }
    }
}

// ------------------------------------------------------------------ files

proof fn lemma_find_file(known: Seq<KnownFileView>, path: Seq<char>, i: int)
    requires
        0 <= i <= known.len(),
    ensures
        match files::find_file(known, path, i) {
            Some(k) => i <= k < known.len() && known[k].path == path,
            None => forall|k: int| i <= k < known.len() ==> (#[trigger] known[k]).path != path,
        },
    decreases known.len() - i,
{
    if i < known.len() && known[i].path != path {
        lemma_find_file(known, path, i + 1);
    }
}

proof fn lemma_find_pushed(known: Seq<KnownFileView>, f: KnownFileView, path: Seq<char>, i: int)
    requires
        0 <= i <= known.len(),
        files::find_file(known, path, i) is None,
    ensures
        files::find_file(known.push(f), path, i) == (if f.path == path {
            Some(known.len() as int)
        } else {
            None
        }),
    decreases known.len() - i,
{
    let all = known.push(f);
    if i < known.len() {
        assert(all[i] == known[i]);
        lemma_find_pushed(known, f, path, i + 1);
    } else {
        assert(all[i] == f);
        assert(files::find_file(all, path, i + 1) is None);
    }
}

/// A file that becomes known holds the text of its bytes, unless it is longer than the limit, or
/// there is none; what was known before stays as it was.
pub proof fn law_what_becomes_known_of_a_file(
    fs: FsView,
    path: Seq<char>,
    bytes: Option<Seq<u8>>,
)
    ensures
        ({
            let p = paths::resolved(fs.current, path);
            let before = files::find_file(fs.files, p, 0);
            let after = files::with_file(fs, path, bytes);
            let fits = bytes matches Some(b) && (fs.limit matches Some(n) ==> b.len() <= n);
            &&& before is Some ==> after == fs
            &&& before is None && fits ==> files::file_at(after, path) == Some(
                files::decoded(bytes.unwrap()),
            )
            &&& before is None && !fits ==> files::file_at(after, path) is None
        }),
{
    let p = paths::resolved(fs.current, path);
    if files::find_file(fs.files, p, 0) is None {
        lemma_find_pushed(
            fs.files,
            KnownFileView { path: p, text: files::kept_text(fs.limit, bytes) },
            p,
            0,
        );
    }
}

proof fn lemma_without(known: Seq<KnownFileView>, path: Seq<char>)
    ensures
        files::without_file(known, path) == known.filter(|f: KnownFileView| f.path != path),
    decreases known.len(),
{
    reveal(Seq::filter);
    let other = |f: KnownFileView| f.path != path;
    if known.len() > 0 {
        lemma_without(known.drop_last(), path);
    } else {
        assert(files::without_file(known, path) =~= Seq::empty());
        assert(known.filter(other) =~= Seq::empty());
    }
}

/// A file that is forgotten is not known; every other file is known as it was.
pub proof fn law_what_is_forgotten(fs: FsView, path: Seq<char>)
    ensures
        ({
            let p = paths::resolved(fs.current, path);
            &&& files::invalidated(fs, path).files == fs.files.filter(
                |f: KnownFileView| f.path != p,
            )
            &&& files::file_at(files::invalidated(fs, path), path) is None
        }),
{
    let p = paths::resolved(fs.current, path);
    let other = |f: KnownFileView| f.path != p;
    lemma_without(fs.files, p);
    let left = fs.files.filter(other);
    lemma_find_file(left, p, 0);
    match files::find_file(left, p, 0) {
        Some(k) => {
            fs.files.lemma_filter_pred(other, k);
        },
        None => {},
    }
}

/// A byte order mark at the start of a file is no part of its text.
pub proof fn law_byte_order_marks_are_dropped(bytes: Seq<u8>)
    ensures
        files::decoded(seq![0xEFu8, 0xBBu8, 0xBFu8] + bytes) == sse::utf8_text(bytes),
        bytes.len() == 0 || bytes[0] != 0xEF ==> files::decoded(bytes) == sse::utf8_text(bytes),
{
    let all = seq![0xEFu8, 0xBBu8, 0xBFu8] + bytes;
    assert(all[0] == 0xEF && all[1] == 0xBB && all[2] == 0xBF);
    assert(all.skip(3) =~= bytes);
}

/// The root of a repository is the nearest directory with an entry `.git`: the directory itself,
/// or else as seen from the one above it.
pub proof fn law_where_a_repository_starts(fs: FsView, dir: Seq<char>)
    ensures
        ({
            let entries = files::listing_at(fs, dir).entries;
            let here = exists|i: int|
                0 <= i < entries.len() && (#[trigger] entries[i]).name == ".git"@;
            &&& here ==> files::repo_root_from(fs, dir) == Some(dir)
            &&& !here && paths::parent_of(dir) is None ==> files::repo_root_from(fs, dir) is None
            &&& !here && paths::parent_of(dir) is Some ==> files::repo_root_from(fs, dir)
                == files::repo_root_from(fs, paths::parent_of(dir).unwrap())
        }),
{
}

} // verus!
