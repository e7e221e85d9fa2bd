//! What a host has told of its file system.
//!
//! Discovery reads files, listings and real paths through an [`FsCache`]. The cache holds what the
//! host put there; a reading of anything else finds nothing and is noted among the wanted, so that
//! the host can look, put the answers in and ask again.
use crate::paths;
use crate::paths::{parent, resolve};
use crate::sse;
use crate::sse::decode_lossy;
use crate::text;
use crate::text::{clone_all, clone_opt_string, same_text};
use vstd::prelude::*;

verus! {

/// An entry of a directory. Its kind is its own: a link is neither a file nor a directory.
#[derive(Debug, PartialEq)]
pub struct DirEntry {
    pub name: String,
    pub is_file: bool,
    pub is_dir: bool,
    pub is_link: bool,
}

/// What a [`DirEntry`] stands for.
#[verifier::ext_equal]
pub struct DirEntryView {
    pub name: Seq<char>,
    pub is_file: bool,
    pub is_dir: bool,
    pub is_link: bool,
}

impl View for DirEntry {
    type V = DirEntryView;

    open spec fn view(&self) -> DirEntryView {
        DirEntryView {
            name: self.name@,
            is_file: self.is_file,
            is_dir: self.is_dir,
            is_link: self.is_link,
        }
    }
}

impl Clone for DirEntry {
    fn clone(&self) -> (r: DirEntry)
        ensures
            r@ == self@,
    {
        DirEntry {
            name: self.name.clone(),
            is_file: self.is_file,
            is_dir: self.is_dir,
            is_link: self.is_link,
        }
    }
}

/// The text of a file, or that there is none to read.
#[derive(Debug, PartialEq)]
pub struct KnownFile {
    pub path: String,
    pub text: Option<String>,
}

/// What a [`KnownFile`] stands for.
#[verifier::ext_equal]
pub struct KnownFileView {
    pub path: Seq<char>,
    pub text: Option<Seq<char>>,
}

impl View for KnownFile {
    type V = KnownFileView;

    open spec fn view(&self) -> KnownFileView {
        KnownFileView {
            path: self.path@,
            text: text::opt_view(self.text),
        }
    }
}

impl Clone for KnownFile {
    fn clone(&self) -> (r: KnownFile)
        ensures
            r@ == self@,
    {
        KnownFile {
            path: self.path.clone(),
            text: clone_opt_string(&self.text),
        }
    }
}

/// The entries of a directory. One that could not be read, though it is there, has a failure.
#[derive(Debug, PartialEq)]
pub struct KnownDir {
    pub path: String,
    pub entries: Vec<DirEntry>,
    pub failure: Option<String>,
}

/// What a [`KnownDir`] stands for.
#[verifier::ext_equal]
pub struct KnownDirView {
    pub path: Seq<char>,
    pub entries: Seq<DirEntryView>,
    pub failure: Option<Seq<char>>,
}

impl View for KnownDir {
    type V = KnownDirView;

    open spec fn view(&self) -> KnownDirView {
        KnownDirView {
            path: self.path@,
            entries: text::views(self.entries@),
            failure: text::opt_view(self.failure),
        }
    }
}

impl Clone for KnownDir {
    fn clone(&self) -> (r: KnownDir)
        ensures
            r@ == self@,
    {
        KnownDir {
            path: self.path.clone(),
            entries: clone_all(&self.entries),
            failure: clone_opt_string(&self.failure),
        }
    }
}

/// What is at a path, links followed, and the path without links.
#[derive(Debug, PartialEq)]
pub struct KnownPath {
    pub path: String,
    pub there: bool,
    pub canonical: String,
    pub is_dir: bool,
    pub is_file: bool,
}

/// What a [`KnownPath`] stands for.
#[verifier::ext_equal]
pub struct KnownPathView {
    pub path: Seq<char>,
    pub there: bool,
    pub canonical: Seq<char>,
    pub is_dir: bool,
    pub is_file: bool,
}

impl View for KnownPath {
    type V = KnownPathView;

    open spec fn view(&self) -> KnownPathView {
        KnownPathView {
            path: self.path@,
            there: self.there,
            canonical: self.canonical@,
            is_dir: self.is_dir,
            is_file: self.is_file,
        }
    }
}

impl Clone for KnownPath {
    fn clone(&self) -> (r: KnownPath)
        ensures
            r@ == self@,
    {
        KnownPath {
            path: self.path.clone(),
            there: self.there,
            canonical: self.canonical.clone(),
            is_dir: self.is_dir,
            is_file: self.is_file,
        }
    }
}

/// What a reading did not find in the cache.
#[derive(Debug, PartialEq)]
pub enum Wanted {
    File(String),
    Dir(String),
    Path(String),
}

/// What a [`Wanted`] stands for.
#[verifier::ext_equal]
pub enum WantedView {
    File(Seq<char>),
    Dir(Seq<char>),
    Path(Seq<char>),
}

impl View for Wanted {
    type V = WantedView;

    open spec fn view(&self) -> WantedView {
        match self {
            Wanted::File(a) => WantedView::File(a@),
            Wanted::Dir(a) => WantedView::Dir(a@),
            Wanted::Path(a) => WantedView::Path(a@),
        }
    }
}

impl Clone for Wanted {
    fn clone(&self) -> (r: Wanted)
        ensures
            r@ == self@,
    {
        match self {
            Wanted::File(a) => Wanted::File(a.clone()),
            Wanted::Dir(a) => Wanted::Dir(a.clone()),
            Wanted::Path(a) => Wanted::Path(a.clone()),
        }
    }
}

/// The text of bytes: a leading byte order mark goes, and what is not UTF-8 is replaced.
pub open spec fn decoded(bytes: Seq<u8>) -> Seq<char> {
    if bytes.len() >= 3 && bytes[0] == 0xEF && bytes[1] == 0xBB && bytes[2] == 0xBF {
        sse::utf8_text(bytes.skip(3))
    } else {
        sse::utf8_text(bytes)
    }
}

fn decode(bytes: &Vec<u8>) -> (r: String)
    ensures
        r@ == decoded(bytes@),
{
    let n: usize = bytes.len();
    if n >= 3 && bytes[0] == 0xEF && bytes[1] == 0xBB && bytes[2] == 0xBF {
        let mut rest: Vec<u8> = Vec::new();
        let mut i: usize = 3;
        while i < n
            invariant
                3 <= i <= n,
                n == bytes@.len(),
                rest@ == bytes@.subrange(3, i as int),
            decreases n - i,
        {
            rest.push(bytes[i]);
            i += 1;
        }
        assert(rest@ =~= bytes@.skip(3));
        decode_lossy(&rest)
    } else {
        decode_lossy(bytes)
    }
}

/// The index of the first entry for a path, from `i` on.
pub open spec fn find_file(known: Seq<KnownFileView>, path: Seq<char>, i: int) -> Option<int>
    decreases known.len() - i,
{
    if i < 0 || i >= known.len() {
        None
    } else if known[i].path == path {
        Some(i)
    } else {
        find_file(known, path, i + 1)
    }
}

/// The entries without those for a path.
pub open spec fn without_file(known: Seq<KnownFileView>, path: Seq<char>) -> Seq<KnownFileView>
    decreases known.len(),
{
    if known.len() == 0 {
        known
    } else {
        let rest = without_file(known.drop_last(), path);
        if known.last().path == path {
            rest
        } else {
            rest.push(known.last())
        }
    }
}

fn index_of_file(known: &Vec<KnownFile>, path: &str) -> (r: Option<usize>)
    ensures
        match r {
            Some(i) => find_file(text::views(known@), path@, 0) == Some(i as int) && i
                < known@.len(),
            None => find_file(text::views(known@), path@, 0) is None,
        },
{
    let ghost all = text::views(known@);
    let mut i: usize = 0;
    while i < known.len()
        invariant
            i <= known@.len(),
            all == text::views(known@),
            find_file(all, path@, 0) == find_file(all, path@, i as int),
        decreases known@.len() - i,
    {
        assert(all[i as int] == known@[i as int]@);
        if same_text(&known[i].path, path) {
            return Some(i);
        }
        i += 1;
    }
    None
}

fn drop_file(known: &Vec<KnownFile>, path: &str) -> (r: Vec<KnownFile>)
    ensures
        text::views(r@) == without_file(text::views(known@), path@),
{
    let ghost all = text::views(known@);
    let mut out: Vec<KnownFile> = Vec::new();
    let mut i: usize = 0;
    assert(text::views(out@) =~= without_file(all.take(0), path@));
    while i < known.len()
        invariant
            i <= known@.len(),
            all == text::views(known@),
            text::views(out@) == without_file(all.take(i as int), path@),
        decreases known@.len() - i,
    {
        assert(all.take(i as int + 1).drop_last() =~= all.take(i as int));
        assert(all.take(i as int + 1).last() == known@[i as int]@);
        if !same_text(&known[i].path, path) {
            let kept = known[i].clone();
            proof {
                text::lemma_views_push(out@, kept);
            }
            out.push(kept);
        }
        i += 1;
    }
    assert(all.take(i as int) =~= all);
    out
}

proof fn lemma_without_file(known: Seq<KnownFileView>, path: Seq<char>)
    ensures
        find_file(without_file(known, path), path, 0) is None,
{
    lemma_no_file(known, path);
    lemma_absent_file(without_file(known, path), path, 0);
}

proof fn lemma_no_file(known: Seq<KnownFileView>, path: Seq<char>)
    ensures
        forall|i: int|
            0 <= i < without_file(known, path).len() ==> (#[trigger] without_file(
                known,
                path,
            )[i]).path != path,
    decreases known.len(),
{
    if known.len() > 0 {
        lemma_no_file(known.drop_last(), path);
    }
}

proof fn lemma_absent_file(known: Seq<KnownFileView>, path: Seq<char>, i: int)
    requires
        0 <= i,
        forall|j: int| 0 <= j < known.len() ==> (#[trigger] known[j]).path != path,
    ensures
        find_file(known, path, i) is None,
    decreases known.len() - i,
{
    if i < known.len() {
        lemma_absent_file(known, path, i + 1);
    }
}

/// The index of the first entry for a path, from `i` on.
pub open spec fn find_dir(known: Seq<KnownDirView>, path: Seq<char>, i: int) -> Option<int>
    decreases known.len() - i,
{
    if i < 0 || i >= known.len() {
        None
    } else if known[i].path == path {
        Some(i)
    } else {
        find_dir(known, path, i + 1)
    }
}

/// The entries without those for a path.
pub open spec fn without_dir(known: Seq<KnownDirView>, path: Seq<char>) -> Seq<KnownDirView>
    decreases known.len(),
{
    if known.len() == 0 {
        known
    } else {
        let rest = without_dir(known.drop_last(), path);
        if known.last().path == path {
            rest
        } else {
            rest.push(known.last())
        }
    }
}

fn index_of_dir(known: &Vec<KnownDir>, path: &str) -> (r: Option<usize>)
    ensures
        match r {
            Some(i) => find_dir(text::views(known@), path@, 0) == Some(i as int) && i
                < known@.len(),
            None => find_dir(text::views(known@), path@, 0) is None,
        },
{
    let ghost all = text::views(known@);
    let mut i: usize = 0;
    while i < known.len()
        invariant
            i <= known@.len(),
            all == text::views(known@),
            find_dir(all, path@, 0) == find_dir(all, path@, i as int),
        decreases known@.len() - i,
    {
        assert(all[i as int] == known@[i as int]@);
        if same_text(&known[i].path, path) {
            return Some(i);
        }
        i += 1;
    }
    None
}

fn drop_dir(known: &Vec<KnownDir>, path: &str) -> (r: Vec<KnownDir>)
    ensures
        text::views(r@) == without_dir(text::views(known@), path@),
{
    let ghost all = text::views(known@);
    let mut out: Vec<KnownDir> = Vec::new();
    let mut i: usize = 0;
    assert(text::views(out@) =~= without_dir(all.take(0), path@));
    while i < known.len()
        invariant
            i <= known@.len(),
            all == text::views(known@),
            text::views(out@) == without_dir(all.take(i as int), path@),
        decreases known@.len() - i,
    {
        assert(all.take(i as int + 1).drop_last() =~= all.take(i as int));
        assert(all.take(i as int + 1).last() == known@[i as int]@);
        if !same_text(&known[i].path, path) {
            let kept = known[i].clone();
            proof {
                text::lemma_views_push(out@, kept);
            }
            out.push(kept);
        }
        i += 1;
    }
    assert(all.take(i as int) =~= all);
    out
}

/// The index of the first entry for a path, from `i` on.
pub open spec fn find_path(known: Seq<KnownPathView>, path: Seq<char>, i: int) -> Option<int>
    decreases known.len() - i,
{
    if i < 0 || i >= known.len() {
        None
    } else if known[i].path == path {
        Some(i)
    } else {
        find_path(known, path, i + 1)
    }
}

/// The entries without those for a path.
pub open spec fn without_path(known: Seq<KnownPathView>, path: Seq<char>) -> Seq<KnownPathView>
    decreases known.len(),
{
    if known.len() == 0 {
        known
    } else {
        let rest = without_path(known.drop_last(), path);
        if known.last().path == path {
            rest
        } else {
            rest.push(known.last())
        }
    }
}

fn index_of_path(known: &Vec<KnownPath>, path: &str) -> (r: Option<usize>)
    ensures
        match r {
            Some(i) => find_path(text::views(known@), path@, 0) == Some(i as int) && i
                < known@.len(),
            None => find_path(text::views(known@), path@, 0) is None,
        },
{
    let ghost all = text::views(known@);
    let mut i: usize = 0;
    while i < known.len()
        invariant
            i <= known@.len(),
            all == text::views(known@),
            find_path(all, path@, 0) == find_path(all, path@, i as int),
        decreases known@.len() - i,
    {
        assert(all[i as int] == known@[i as int]@);
        if same_text(&known[i].path, path) {
            return Some(i);
        }
        i += 1;
    }
    None
}

fn drop_path(known: &Vec<KnownPath>, path: &str) -> (r: Vec<KnownPath>)
    ensures
        text::views(r@) == without_path(text::views(known@), path@),
{
    let ghost all = text::views(known@);
    let mut out: Vec<KnownPath> = Vec::new();
    let mut i: usize = 0;
    assert(text::views(out@) =~= without_path(all.take(0), path@));
    while i < known.len()
        invariant
            i <= known@.len(),
            all == text::views(known@),
            text::views(out@) == without_path(all.take(i as int), path@),
        decreases known@.len() - i,
    {
        assert(all.take(i as int + 1).drop_last() =~= all.take(i as int));
        assert(all.take(i as int + 1).last() == known@[i as int]@);
        if !same_text(&known[i].path, path) {
            let kept = known[i].clone();
            proof {
                text::lemma_views_push(out@, kept);
            }
            out.push(kept);
        }
        i += 1;
    }
    assert(all.take(i as int) =~= all);
    out
}

proof fn lemma_pushed_file(known: Seq<KnownFileView>, path: Seq<char>, e: KnownFileView, i: int)
    requires
        0 <= i <= known.len(),
        find_file(known, path, i) is None,
        e.path == path,
    ensures
        find_file(known.push(e), path, i) == Some(known.len() as int),
    decreases known.len() - i,
{
    if i < known.len() {
        lemma_pushed_file(known, path, e, i + 1);
    }
}

// ------------------------------------------------------------------ the cache

/// What a host has told of its file system.
#[derive(Debug)]
pub struct FsCache {
    /// The directory from which relative paths are seen.
    pub current: String,
    /// How many bytes a file may have at most.
    pub limit: Option<u64>,
    pub files: Vec<KnownFile>,
    pub dirs: Vec<KnownDir>,
    pub paths: Vec<KnownPath>,
    /// What was read and is not known.
    pub wanted: Vec<Wanted>,
}

/// What a cache knows. The wanted are no part of it; [`only_adds`] and [`extends`] speak of them.
#[verifier::ext_equal]
pub struct FsView {
    pub current: Seq<char>,
    pub limit: Option<u64>,
    pub files: Seq<KnownFileView>,
    pub dirs: Seq<KnownDirView>,
    pub paths: Seq<KnownPathView>,
}

impl View for FsCache {
    type V = FsView;

    open spec fn view(&self) -> FsView {
        FsView {
            current: self.current@,
            limit: self.limit,
            files: text::views(self.files@),
            dirs: text::views(self.dirs@),
            paths: text::views(self.paths@),
        }
    }
}

/// The text of a file; nothing where there is none to read or it is not known.
pub open spec fn file_at(fs: FsView, path: Seq<char>) -> Option<Seq<char>> {
    match find_file(fs.files, paths::resolved(fs.current, path), 0) {
        Some(i) => fs.files[i].text,
        None => None,
    }
}

/// The listing of a directory: empty where it is not known.
pub open spec fn listing_at(fs: FsView, dir: Seq<char>) -> KnownDirView {
    let path = paths::resolved(fs.current, dir);
    match find_dir(fs.dirs, path, 0) {
        Some(i) => fs.dirs[i],
        None => KnownDirView { path, entries: Seq::empty(), failure: None },
    }
}

/// Whether anything is known to be at a path.
pub open spec fn is_known_at(fs: FsView, path: Seq<char>) -> bool {
    match find_path(fs.paths, paths::resolved(fs.current, path), 0) {
        Some(i) => fs.paths[i].there,
        None => false,
    }
}

/// The path without links: the path itself where nothing is known to be there.
pub open spec fn real_at(fs: FsView, path: Seq<char>) -> Seq<char> {
    match find_path(fs.paths, paths::resolved(fs.current, path), 0) {
        Some(i) => if fs.paths[i].there { fs.paths[i].canonical } else { path },
        None => path,
    }
}

/// Whether a directory is known to be at a path.
pub open spec fn is_dir_at(fs: FsView, path: Seq<char>) -> bool {
    match find_path(fs.paths, paths::resolved(fs.current, path), 0) {
        Some(i) => fs.paths[i].is_dir,
        None => false,
    }
}

/// Whether a file is known to be at a path.
pub open spec fn is_file_at(fs: FsView, path: Seq<char>) -> bool {
    match find_path(fs.paths, paths::resolved(fs.current, path), 0) {
        Some(i) => fs.paths[i].is_file,
        None => false,
    }
}

/// An entry with a name.
pub open spec fn lists(entries: Seq<DirEntryView>, name: Seq<char>) -> bool {
    exists|i: int| 0 <= i < entries.len() && (#[trigger] entries[i]).name == name
}

/// The nearest directory from `dir` upwards that holds a `.git` entry.
pub open spec fn repo_root_from(fs: FsView, dir: Seq<char>) -> Option<Seq<char>>
    decreases dir.len(),
    via repo_root_ends
{
    if lists(listing_at(fs, dir).entries, ".git"@) {
        Some(dir)
    } else {
        match paths::parent_of(dir) {
            Some(up) => repo_root_from(fs, up),
            None => None,
        }
    }
}

#[via_fn]
proof fn repo_root_ends(fs: FsView, dir: Seq<char>) {
    paths::lemma_parent_is_shorter(dir);
}

/// The text that a file of these bytes has in the cache.
pub open spec fn kept_text(limit: Option<u64>, bytes: Option<Seq<u8>>) -> Option<Seq<char>> {
    match bytes {
        Some(b) => if limit is Some && b.len() > limit.unwrap() {
            None
        } else {
            Some(decoded(b))
        },
        None => None,
    }
}

/// The cache with the bytes of a file, where none were known.
pub open spec fn with_file(fs: FsView, path: Seq<char>, bytes: Option<Seq<u8>>) -> FsView {
    let p = paths::resolved(fs.current, path);
    if find_file(fs.files, p, 0) is Some {
        fs
    } else {
        FsView {
            files: fs.files.push(KnownFileView { path: p, text: kept_text(fs.limit, bytes) }),
            ..fs
        }
    }
}

/// The cache with a listing, where none was known.
pub open spec fn with_dir(
    fs: FsView,
    dir: Seq<char>,
    entries: Seq<DirEntryView>,
    failure: Option<Seq<char>>,
) -> FsView {
    let p = paths::resolved(fs.current, dir);
    if find_dir(fs.dirs, p, 0) is Some {
        fs
    } else {
        FsView { dirs: fs.dirs.push(KnownDirView { path: p, entries, failure }), ..fs }
    }
}

/// The cache with what is at a path, where that was not known.
pub open spec fn with_path(fs: FsView, path: Seq<char>, found: KnownPathView) -> FsView {
    let p = paths::resolved(fs.current, path);
    if find_path(fs.paths, p, 0) is Some {
        fs
    } else {
        FsView { paths: fs.paths.push(KnownPathView { path: p, ..found }), ..fs }
    }
}

/// The cache without what it knew of a path and of the directory that holds it.
pub open spec fn invalidated(fs: FsView, path: Seq<char>) -> FsView {
    let p = paths::resolved(fs.current, path);
    let dirs = without_dir(fs.dirs, p);
    FsView {
        files: without_file(fs.files, p),
        dirs: match paths::parent_of(p) {
            Some(up) => without_dir(dirs, up),
            None => dirs,
        },
        paths: without_path(fs.paths, p),
        ..fs
    }
}

/// The wanted after a reading.
pub open spec fn noted(wanted: Seq<WantedView>, known: bool, what: WantedView) -> Seq<WantedView> {
    if known {
        wanted
    } else {
        wanted.push(what)
    }
}

/// A reading only adds to what is wanted.
pub open spec fn only_adds(before: Seq<Wanted>, after: Seq<Wanted>) -> bool {
    &&& before.len() <= after.len()
    &&& forall|i: int| 0 <= i < before.len() ==> (#[trigger] after[i])@ == before[i]@
}

/// A reading that asked for nothing: all that it needed was known.
pub open spec fn asked_nothing(before: Seq<Wanted>, after: Seq<Wanted>) -> bool {
    before.len() == after.len()
}

/// A cache knows all that another one knows: what is found in the one is found in the other.
#[verifier::opaque]
pub open spec fn extends(more: FsView, fs: FsView) -> bool {
    &&& more.current == fs.current
    &&& more.limit == fs.limit
    &&& forall|p: Seq<char>| (#[trigger] find_file(fs.files, p, 0)) is Some ==> find_file(
        more.files,
        p,
        0,
    ) is Some && more.files[find_file(more.files, p, 0).unwrap()] == fs.files[find_file(
        fs.files,
        p,
        0,
    ).unwrap()]
    &&& forall|p: Seq<char>| (#[trigger] find_dir(fs.dirs, p, 0)) is Some ==> find_dir(
        more.dirs,
        p,
        0,
    ) is Some && more.dirs[find_dir(more.dirs, p, 0).unwrap()] == fs.dirs[find_dir(
        fs.dirs,
        p,
        0,
    ).unwrap()]
    &&& forall|p: Seq<char>| (#[trigger] find_path(fs.paths, p, 0)) is Some ==> find_path(
        more.paths,
        p,
        0,
    ) is Some && more.paths[find_path(more.paths, p, 0).unwrap()] == fs.paths[find_path(
        fs.paths,
        p,
        0,
    ).unwrap()]
}

/// The directory of the process stays.
pub proof fn lemma_extends_current(fs: FsView)
    ensures
        forall|more: FsView| #[trigger] extends(more, fs) ==> more.current == fs.current,
{
    reveal(extends);
}

impl FsCache {
    /// A cache that knows nothing, of a process in the directory `current`.
    pub fn new(current: &str) -> (r: FsCache)
        ensures
            r@ == (FsView {
                current: current@,
                limit: None,
                files: Seq::empty(),
                dirs: Seq::empty(),
                paths: Seq::empty(),
            }),
            r.wanted@.len() == 0,
    {
        let r = FsCache {
            current: current.to_string(),
            limit: None,
            files: Vec::new(),
            dirs: Vec::new(),
            paths: Vec::new(),
            wanted: Vec::new(),
        };
        assert(r@.files =~= Seq::empty());
        assert(r@.dirs =~= Seq::empty());
        assert(r@.paths =~= Seq::empty());
        r
    }

    /// A cache that knows nothing and reads no file of more than `limit` bytes.
    pub fn with_max_file_bytes(current: &str, limit: u64) -> (r: FsCache)
        ensures
            r@ == (FsView {
                current: current@,
                limit: Some(limit),
                files: Seq::empty(),
                dirs: Seq::empty(),
                paths: Seq::empty(),
            }),
            r.wanted@.len() == 0,
    {
        let mut r = FsCache::new(current);
        r.limit = Some(limit);
        r
    }

    /// The text of a file; nothing where there is none to read or it is not known, in which case
    /// it is wanted.
    pub fn read_file(&mut self, path: &str) -> (r: Option<String>)
        ensures
            final(self)@ == old(self)@,
            text::opt_view(r) == file_at(old(self)@, path@),
            text::views(final(self).wanted@) == ({
                let p = paths::resolved(old(self)@.current, path@);
                noted(
                    text::views(old(self).wanted@),
                    find_file(old(self)@.files, p, 0) is Some,
                    WantedView::File(p),
                )
            }),
            only_adds(old(self).wanted@, final(self).wanted@),
            asked_nothing(old(self).wanted@, final(self).wanted@) ==> forall|more: FsView| #[trigger]
                extends(more, old(self)@) ==> file_at(more, path@) == file_at(old(self)@, path@),
    {
        proof {
            reveal(extends);
        }
        let p = resolve(&self.current, path);
        match index_of_file(&self.files, &p) {
            Some(i) => clone_opt_string(&self.files[i].text),
            None => {
                let what = Wanted::File(p);
                proof {
                    text::lemma_views_push(self.wanted@, what);
                }
                self.wanted.push(what);
                None
            },
        }
    }

    /// The listing of a directory: empty where it is not known, in which case it is wanted.
    pub fn read_listing(&mut self, dir: &str) -> (r: KnownDir)
        ensures
            final(self)@ == old(self)@,
            r@ == listing_at(old(self)@, dir@),
            text::views(final(self).wanted@) == ({
                let p = paths::resolved(old(self)@.current, dir@);
                noted(
                    text::views(old(self).wanted@),
                    find_dir(old(self)@.dirs, p, 0) is Some,
                    WantedView::Dir(p),
                )
            }),
            only_adds(old(self).wanted@, final(self).wanted@),
            asked_nothing(old(self).wanted@, final(self).wanted@) ==> forall|more: FsView| #[trigger]
                extends(more, old(self)@) ==> listing_at(more, dir@) == listing_at(old(self)@, dir@),
    {
        proof {
            reveal(extends);
        }
        let p = resolve(&self.current, dir);
        match index_of_dir(&self.dirs, &p) {
            Some(i) => self.dirs[i].clone(),
            None => {
                let what = Wanted::Dir(p.clone());
                proof {
                    text::lemma_views_push(self.wanted@, what);
                }
                self.wanted.push(what);
                let r = KnownDir { path: p, entries: Vec::new(), failure: None };
                assert(r@.entries =~= Seq::empty());
                r
            },
        }
    }

    /// The entries of a directory: none where it is not known, in which case it is wanted.
    pub fn read_dir_entries(&mut self, dir: &str) -> (r: Vec<DirEntry>)
        ensures
            final(self)@ == old(self)@,
            text::views(r@) == listing_at(old(self)@, dir@).entries,
            text::views(final(self).wanted@) == ({
                let p = paths::resolved(old(self)@.current, dir@);
                noted(
                    text::views(old(self).wanted@),
                    find_dir(old(self)@.dirs, p, 0) is Some,
                    WantedView::Dir(p),
                )
            }),
            only_adds(old(self).wanted@, final(self).wanted@),
            asked_nothing(old(self).wanted@, final(self).wanted@) ==> forall|more: FsView| #[trigger]
                extends(more, old(self)@) ==> listing_at(more, dir@) == listing_at(old(self)@, dir@),
    {
        self.read_listing(dir).entries
    }

    fn find_known_path(&mut self, path: &str) -> (r: Option<usize>)
        ensures
            final(self)@ == old(self)@,
            final(self).paths == old(self).paths,
            ({
                let p = paths::resolved(old(self)@.current, path@);
                match r {
                    Some(i) => find_path(old(self)@.paths, p, 0) == Some(i as int) && i
                        < old(self).paths@.len(),
                    None => find_path(old(self)@.paths, p, 0) is None,
                }
            }),
            text::views(final(self).wanted@) == ({
                let p = paths::resolved(old(self)@.current, path@);
                noted(
                    text::views(old(self).wanted@),
                    find_path(old(self)@.paths, p, 0) is Some,
                    WantedView::Path(p),
                )
            }),
            only_adds(old(self).wanted@, final(self).wanted@),
            r is None ==> final(self).wanted@.len() == old(self).wanted@.len() + 1,
    {
        let p = resolve(&self.current, path);
        match index_of_path(&self.paths, &p) {
            Some(i) => Some(i),
            None => {
                let what = Wanted::Path(p);
                proof {
                    text::lemma_views_push(self.wanted@, what);
                }
                self.wanted.push(what);
                None
            },
        }
    }

    /// Whether anything is at a path; not where that is not known, in which case it is wanted.
    pub fn is_there(&mut self, path: &str) -> (r: bool)
        ensures
            final(self)@ == old(self)@,
            r == is_known_at(old(self)@, path@),
            text::views(final(self).wanted@) == ({
                let p = paths::resolved(old(self)@.current, path@);
                noted(
                    text::views(old(self).wanted@),
                    find_path(old(self)@.paths, p, 0) is Some,
                    WantedView::Path(p),
                )
            }),
            only_adds(old(self).wanted@, final(self).wanted@),
            asked_nothing(old(self).wanted@, final(self).wanted@) ==> forall|more: FsView| #[trigger]
                extends(more, old(self)@) ==> is_known_at(more, path@) == is_known_at(old(self)@, path@),
    {
        proof {
            reveal(extends);
        }
        match self.find_known_path(path) {
            Some(i) => self.paths[i].there,
            None => false,
        }
    }

    /// Whether a directory is at a path.
    pub fn is_directory(&mut self, path: &str) -> (r: bool)
        ensures
            final(self)@ == old(self)@,
            r == is_dir_at(old(self)@, path@),
            text::views(final(self).wanted@) == ({
                let p = paths::resolved(old(self)@.current, path@);
                noted(
                    text::views(old(self).wanted@),
                    find_path(old(self)@.paths, p, 0) is Some,
                    WantedView::Path(p),
                )
            }),
            only_adds(old(self).wanted@, final(self).wanted@),
            asked_nothing(old(self).wanted@, final(self).wanted@) ==> forall|more: FsView| #[trigger]
                extends(more, old(self)@) ==> is_dir_at(more, path@) == is_dir_at(old(self)@, path@),
    {
        proof {
            reveal(extends);
        }
        match self.find_known_path(path) {
            Some(i) => self.paths[i].is_dir,
            None => false,
        }
    }

    /// Whether a file is at a path.
    pub fn is_regular(&mut self, path: &str) -> (r: bool)
        ensures
            final(self)@ == old(self)@,
            r == is_file_at(old(self)@, path@),
            text::views(final(self).wanted@) == ({
                let p = paths::resolved(old(self)@.current, path@);
                noted(
                    text::views(old(self).wanted@),
                    find_path(old(self)@.paths, p, 0) is Some,
                    WantedView::Path(p),
                )
            }),
            only_adds(old(self).wanted@, final(self).wanted@),
            asked_nothing(old(self).wanted@, final(self).wanted@) ==> forall|more: FsView| #[trigger]
                extends(more, old(self)@) ==> is_file_at(more, path@) == is_file_at(old(self)@, path@),
    {
        proof {
            reveal(extends);
        }
        match self.find_known_path(path) {
            Some(i) => self.paths[i].is_file,
            None => false,
        }
    }

    /// The path without links: the path itself where nothing is known to be there, in which case
    /// it is wanted.
    pub fn real_path(&mut self, path: &str) -> (r: String)
        ensures
            final(self)@ == old(self)@,
            r@ == real_at(old(self)@, path@),
            text::views(final(self).wanted@) == ({
                let p = paths::resolved(old(self)@.current, path@);
                noted(
                    text::views(old(self).wanted@),
                    find_path(old(self)@.paths, p, 0) is Some,
                    WantedView::Path(p),
                )
            }),
            only_adds(old(self).wanted@, final(self).wanted@),
            asked_nothing(old(self).wanted@, final(self).wanted@) ==> forall|more: FsView| #[trigger]
                extends(more, old(self)@) ==> real_at(more, path@) == real_at(old(self)@, path@),
    {
        proof {
            reveal(extends);
        }
        match self.find_known_path(path) {
            Some(i) => if self.paths[i].there {
                self.paths[i].canonical.clone()
            } else {
                path.to_string()
            },
            None => path.to_string(),
        }
    }

    /// The nearest directory from `start` upwards that holds a `.git` entry.
    pub fn find_repo_root(&mut self, start: &str) -> (r: Option<String>)
        ensures
            final(self)@ == old(self)@,
            text::opt_view(r) == repo_root_from(
                old(self)@,
                paths::resolved(old(self)@.current, start@),
            ),
            only_adds(old(self).wanted@, final(self).wanted@),
            asked_nothing(old(self).wanted@, final(self).wanted@) ==> forall|more: FsView| #[trigger]
                extends(more, old(self)@) ==> repo_root_from(
                    more,
                    paths::resolved(old(self)@.current, start@),
                ) == repo_root_from(old(self)@, paths::resolved(old(self)@.current, start@)),
    {
        let ghost fs = self@;
        let mut here = resolve(&self.current, start);
        loop
            invariant
                self@ == fs,
                fs == old(self)@,
                repo_root_from(fs, here@) == repo_root_from(
                    fs,
                    paths::resolved(fs.current, start@),
                ),
                only_adds(old(self).wanted@, self.wanted@),
                asked_nothing(old(self).wanted@, self.wanted@) ==> forall|more: FsView| #[trigger]
                    extends(more, fs) ==> repo_root_from(more, here@) == repo_root_from(
                        more,
                        paths::resolved(fs.current, start@),
                    ),
            decreases here@.len(),
        {
            let entries = self.read_dir_entries(&here);
            let found = has_entry(&entries, ".git");
            if found {
                return Some(here);
            }
            let up = parent(&here);
            proof {
                paths::lemma_parent_is_shorter(here@);
            }
            match up {
                Some(next) => {
                    here = next;
                },
                None => {
                    return None;
                },
            }
        }
    }

    /// Takes the bytes of a file, or that there is no file to read. What is known stays.
    pub fn put_file(&mut self, path: &str, bytes: Option<Vec<u8>>)
        ensures
            final(self)@ == with_file(
                old(self)@,
                path@,
                match bytes {
                    Some(b) => Some(b@),
                    None => None,
                },
            ),
            final(self).wanted == old(self).wanted,
    {
        let p = resolve(&self.current, path);
        if index_of_file(&self.files, &p).is_some() {
            return;
        }
        let kept = match &bytes {
            Some(b) => {
                let over = match self.limit {
                    Some(limit) => b.len() as u64 > limit,
                    None => false,
                };
                if over {
                    None
                } else {
                    Some(decode(b))
                }
            },
            None => None,
        };
        let e = KnownFile { path: p, text: kept };
        proof {
            text::lemma_views_push(self.files@, e);
        }
        self.files.push(e);
    }

    /// Takes the listing of a directory. What is known stays.
    pub fn put_dir(&mut self, dir: &str, entries: Vec<DirEntry>, failure: Option<String>)
        ensures
            final(self)@ == with_dir(
                old(self)@,
                dir@,
                text::views(entries@),
                text::opt_view(failure),
            ),
            final(self).wanted == old(self).wanted,
    {
        let p = resolve(&self.current, dir);
        if index_of_dir(&self.dirs, &p).is_some() {
            return;
        }
        let e = KnownDir { path: p, entries, failure };
        proof {
            text::lemma_views_push(self.dirs@, e);
        }
        self.dirs.push(e);
    }

    /// Takes what is at a path. What is known stays.
    pub fn put_path(&mut self, path: &str, there: bool, canonical: &str, is_dir: bool, is_file: bool)
        ensures
            final(self)@ == with_path(
                old(self)@,
                path@,
                (KnownPathView {
                    path: path@,
                    there,
                    canonical: canonical@,
                    is_dir,
                    is_file,
                }),
            ),
            final(self).wanted == old(self).wanted,
    {
        let p = resolve(&self.current, path);
        if index_of_path(&self.paths, &p).is_some() {
            return;
        }
        let e = KnownPath { path: p, there, canonical: canonical.to_string(), is_dir, is_file };
        proof {
            text::lemma_views_push(self.paths@, e);
        }
        self.paths.push(e);
    }

    /// Hands out what was read and is not known.
    pub fn take_wanted(&mut self) -> (r: Vec<Wanted>)
        ensures
            final(self)@ == old(self)@,
            text::views(r@) == text::views(old(self).wanted@),
            final(self).wanted@.len() == 0,
    {
        let r = clone_all(&self.wanted);
        self.wanted = Vec::new();
        r
    }

    /// Forgets everything.
    pub fn clear(&mut self)
        ensures
            final(self)@ == (FsView {
                files: Seq::empty(),
                dirs: Seq::empty(),
                paths: Seq::empty(),
                ..old(self)@
            }),
            final(self).wanted == old(self).wanted,
    {
        self.files = Vec::new();
        self.dirs = Vec::new();
        self.paths = Vec::new();
        assert(self@.files =~= Seq::empty());
        assert(self@.dirs =~= Seq::empty());
        assert(self@.paths =~= Seq::empty());
    }

    /// Forgets a path and the listing of the directory that holds it.
    pub fn invalidate(&mut self, path: &str)
        ensures
            final(self)@ == invalidated(old(self)@, path@),
            final(self).wanted == old(self).wanted,
    {
        let p = resolve(&self.current, path);
        self.files = drop_file(&self.files, &p);
        self.dirs = drop_dir(&self.dirs, &p);
        self.paths = drop_path(&self.paths, &p);
        match parent(&p) {
            Some(up) => {
                self.dirs = drop_dir(&self.dirs, &up);
            },
            None => {},
        }
    }
}

fn has_entry(entries: &Vec<DirEntry>, name: &str) -> (r: bool)
    ensures
        r == lists(text::views(entries@), name@),
{
    let ghost all = text::views(entries@);
    let mut i: usize = 0;
    while i < entries.len()
        invariant
            i <= entries@.len(),
            all == text::views(entries@),
            forall|j: int| 0 <= j < i ==> (#[trigger] all[j]).name != name@,
        decreases entries@.len() - i,
    {
        assert(all[i as int] == entries@[i as int]@);
        if same_text(&entries[i].name, name) {
            return true;
        }
        i += 1;
    }
    false
}

// ------------------------------------------------------------------ laws

/// The first reading of a file stays until the file is forgotten: what is put for a known file
/// changes nothing, and a forgotten file is read anew.
pub proof fn law_readings_repeat_until_forgotten(
    fs: FsView,
    path: Seq<char>,
    first: Option<Seq<u8>>,
    later: Option<Seq<u8>>,
)
    requires
        find_file(fs.files, paths::resolved(fs.current, path), 0) is None,
    ensures
        file_at(with_file(fs, path, first), path) == kept_text(fs.limit, first),
        with_file(with_file(fs, path, first), path, later) == with_file(fs, path, first),
        ({
            let gone = invalidated(with_file(fs, path, first), path);
            &&& file_at(gone, path) is None
            &&& file_at(with_file(gone, path, later), path) == kept_text(fs.limit, later)
        }),
{
    let p = paths::resolved(fs.current, path);
    let one = with_file(fs, path, first);
    lemma_pushed_file(
        fs.files,
        p,
        KnownFileView { path: p, text: kept_text(fs.limit, first) },
        0,
    );
    let gone = invalidated(one, path);
    lemma_without_file(one.files, p);
    lemma_pushed_file(
        gone.files,
        p,
        KnownFileView { path: p, text: kept_text(fs.limit, later) },
        0,
    );
}

proof fn lemma_still_file(known: Seq<KnownFileView>, e: KnownFileView, path: Seq<char>, i: int)
    requires
        0 <= i,
        find_file(known, path, i) is Some,
    ensures
        find_file(known.push(e), path, i) == find_file(known, path, i),
        0 <= find_file(known, path, i).unwrap() < known.len(),
    decreases known.len() - i,
{
    if i < known.len() && known[i].path != path {
        lemma_still_file(known, e, path, i + 1);
    }
}

proof fn lemma_still_dir(known: Seq<KnownDirView>, e: KnownDirView, path: Seq<char>, i: int)
    requires
        0 <= i,
        find_dir(known, path, i) is Some,
    ensures
        find_dir(known.push(e), path, i) == find_dir(known, path, i),
        0 <= find_dir(known, path, i).unwrap() < known.len(),
    decreases known.len() - i,
{
    if i < known.len() && known[i].path != path {
        lemma_still_dir(known, e, path, i + 1);
    }
}

proof fn lemma_still_path(known: Seq<KnownPathView>, e: KnownPathView, path: Seq<char>, i: int)
    requires
        0 <= i,
        find_path(known, path, i) is Some,
    ensures
        find_path(known.push(e), path, i) == find_path(known, path, i),
        0 <= find_path(known, path, i).unwrap() < known.len(),
    decreases known.len() - i,
{
    if i < known.len() && known[i].path != path {
        lemma_still_path(known, e, path, i + 1);
    }
}

/// What a host tells only adds to what is known. So a reading that asked for nothing gives the
/// same whatever the host tells after it.
pub proof fn law_telling_only_adds(
    fs: FsView,
    path: Seq<char>,
    bytes: Option<Seq<u8>>,
    entries: Seq<DirEntryView>,
    failure: Option<Seq<char>>,
    found: KnownPathView,
)
    ensures
        extends(fs, fs),
        extends(with_file(fs, path, bytes), fs),
        extends(with_dir(fs, path, entries, failure), fs),
        extends(with_path(fs, path, found), fs),
{
    reveal(extends);
    let p = paths::resolved(fs.current, path);
    assert forall|q: Seq<char>| (#[trigger] find_file(fs.files, q, 0)) is Some implies find_file(
        with_file(fs, path, bytes).files,
        q,
        0,
    ) == find_file(fs.files, q, 0) && 0 <= find_file(fs.files, q, 0).unwrap() < fs.files.len() by {
        lemma_still_file(
            fs.files,
            KnownFileView { path: p, text: kept_text(fs.limit, bytes) },
            q,
            0,
        );
    }
    assert forall|q: Seq<char>| (#[trigger] find_dir(fs.dirs, q, 0)) is Some implies find_dir(
        with_dir(fs, path, entries, failure).dirs,
        q,
        0,
    ) == find_dir(fs.dirs, q, 0) && 0 <= find_dir(fs.dirs, q, 0).unwrap() < fs.dirs.len() by {
        lemma_still_dir(fs.dirs, KnownDirView { path: p, entries, failure }, q, 0);
    }
    assert forall|q: Seq<char>| (#[trigger] find_path(fs.paths, q, 0)) is Some implies find_path(
        with_path(fs, path, found).paths,
        q,
        0,
    ) == find_path(fs.paths, q, 0) && 0 <= find_path(fs.paths, q, 0).unwrap() < fs.paths.len() by {
        lemma_still_path(fs.paths, KnownPathView { path: p, ..found }, q, 0);
    }
}

/// What knows all that is known by a cache that knows all of another knows all of that one.
pub proof fn law_knowing_more_adds_up(a: FsView, b: FsView, c: FsView)
    requires
        extends(a, b),
        extends(b, c),
    ensures
        extends(a, c),
{
    reveal(extends);
}

} // verus!
