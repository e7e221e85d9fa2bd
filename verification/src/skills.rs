//! Skills: `SKILL.md` files, where they are found and which of them are offered.
use crate::capability;
use crate::capability::{
    found, merge_outcomes, reversed, Capability, CapabilityResult, CapabilityResultView, Level, LoadContext,
    LoadContextView, LoadOptions, LoadOptionsView, Outcome, OutcomeView, Provider, ProviderView, SkillToggles,
    SourceMeta, SourceMetaView, Sourced,
};
use crate::context_files;
use crate::context_files::{claude_config_dir, homes, make_provider, walk_stop};
use crate::files;
use crate::files::{DirEntryView, FsCache, FsView};
use crate::foreign;
use crate::frontmatter;
use crate::frontmatter::{parse_frontmatter, FrontmatterOptions, FrontmatterOptionsView};
use crate::js;
use crate::js::Order;
use crate::json;
use crate::json::{Entries, Json, JsonObject, JsonView};
use crate::paths;
use crate::paths::{ancestors_until, join_path, parent};
use crate::project;
use crate::project::{Discovery, DiscoveryView};
use crate::text;
use crate::text::{clone_all, clone_strings, concat, contains_text, is_at, same_text, slice_string, to_chars, Space};
use std::cmp::Ordering;
use vstd::prelude::*;

verus! {

/// A `SKILL.md` file.
#[derive(Debug, PartialEq)]
pub struct Skill {
    pub name: String,
    pub path: String,
    /// The text behind the frontmatter.
    pub content: String,
    pub frontmatter: JsonObject,
    pub level: Level,
    pub source: SourceMeta,
}

/// What a [`Skill`] stands for.
#[verifier::ext_equal]
pub struct SkillView {
    pub name: Seq<char>,
    pub path: Seq<char>,
    pub content: Seq<char>,
    pub frontmatter: Entries,
    pub level: Level,
    pub source: SourceMetaView,
}

impl View for Skill {
    type V = SkillView;

    open spec fn view(&self) -> SkillView {
        SkillView {
            name: self.name@,
            path: self.path@,
            content: self.content@,
            frontmatter: self.frontmatter@,
            level: self.level,
            source: self.source@,
        }
    }
}

impl Clone for Skill {
    fn clone(&self) -> (r: Skill)
        ensures
            r@ == self@,
    {
        Skill {
            name: self.name.clone(),
            path: self.path.clone(),
            content: self.content.clone(),
            frontmatter: self.frontmatter.clone(),
            level: self.level,
            source: self.source.clone(),
        }
    }
}

impl Sourced for Skill {
    open spec fn key_of(v: SkillView) -> Option<Seq<char>> {
        Some(v.name)
    }

    open spec fn aliases(earlier: SkillView, later: SkillView) -> bool {
        false
    }

    open spec fn extension_of(v: SkillView) -> Option<Seq<char>> {
        Some("skill:"@ + v.name)
    }

    open spec fn problem_of(v: SkillView) -> Option<Seq<char>> {
        if v.name.len() == 0 {
            Some("Missing skill name"@)
        } else if v.path.len() == 0 {
            Some("Missing skill path"@)
        } else {
            None
        }
    }

    open spec fn source_of(v: SkillView) -> SourceMetaView {
        v.source
    }

    open spec fn named_by(v: SkillView, name: Seq<char>) -> SkillView {
        SkillView { source: SourceMetaView { provider_name: name, ..v.source }, ..v }
    }

    fn key(&self) -> (r: Option<String>) {
        Some(self.name.clone())
    }

    fn to_extension_id(&self) -> (r: Option<String>) {
        Some(text::concat("skill:", &self.name))
    }

    fn validate(&self) -> (r: Option<String>) {
        if to_chars(&self.name).len() == 0 {
            Some("Missing skill name".to_string())
        } else if to_chars(&self.path).len() == 0 {
            Some("Missing skill path".to_string())
        } else {
            None
        }
    }

    fn source(&self) -> (r: &SourceMeta) {
        &self.source
    }

    fn set_provider_name(self, name: &str) -> (r: Skill) {
        let mut skill = self;
        skill.source.provider_name = name.to_string();
        skill
    }

    fn equivalent(&self, _later: &Skill) -> (r: bool) {
        false
    }

    fn duplicate(&self) -> (r: Skill) {
        self.clone()
    }
}

// ------------------------------------------------------------------ order

/// What `str::to_lowercase` makes of a text.
pub uninterp spec fn lowercase(s: Seq<char>) -> Seq<char>;

/// `str::to_lowercase`: the text in lower case letters, named [`lowercase`].
#[verifier::external_body]
fn to_lower(s: &str) -> (r: String)
    ensures
        r@ == lowercase(s@),
{
    s.to_lowercase()
}

/// The order of two skills, given their names in lower case letters: by these, then by the names,
/// then by the paths.
pub open spec fn order_by(
    a_lower: Seq<char>,
    a_name: Seq<char>,
    a_path: Seq<char>,
    b_lower: Seq<char>,
    b_name: Seq<char>,
    b_path: Seq<char>,
) -> Order {
    match js::text_order(a_lower, b_lower) {
        Order::Equal => match js::text_order(a_name, b_name) {
            Order::Equal => js::text_order(a_path, b_path),
            o => o,
        },
        o => o,
    }
}

/// The order of two skills: by the names in lower case letters, then by the names, then by the
/// paths.
pub open spec fn skill_order(
    a_name: Seq<char>,
    a_path: Seq<char>,
    b_name: Seq<char>,
    b_path: Seq<char>,
) -> Order {
    order_by(lowercase(a_name), a_name, a_path, lowercase(b_name), b_name, b_path)
}

/// The order of two skills, given their names in lower case letters.
pub fn order_of(
    a_lower: &str,
    a_name: &str,
    a_path: &str,
    b_lower: &str,
    b_name: &str,
    b_path: &str,
) -> (r: Order)
    ensures
        r == order_by(a_lower@, a_name@, a_path@, b_lower@, b_name@, b_path@),
{
    match js::compare_text(a_lower, b_lower) {
        Order::Equal => match js::compare_text(a_name, b_name) {
            Order::Equal => js::compare_text(a_path, b_path),
            o => o,
        },
        o => o,
    }
}

fn find_order(a_name: &str, a_path: &str, b_name: &str, b_path: &str) -> (r: Order)
    ensures
        r == skill_order(a_name@, a_path@, b_name@, b_path@),
{
    order_of(&to_lower(a_name), a_name, a_path, &to_lower(b_name), b_name, b_path)
}

/// The order of two skills.
pub fn compare_skill_order(a_name: &str, a_path: &str, b_name: &str, b_path: &str) -> (r: Ordering)
    ensures
        r == js::ordering_of(skill_order(a_name@, a_path@, b_name@, b_path@)),
{
    match find_order(a_name, a_path, b_name, b_path) {
        Order::Less => Ordering::Less,
        Order::Equal => Ordering::Equal,
        Order::Greater => Ordering::Greater,
    }
}

/// Something that has a place among skills.
pub trait Placed: View + Sized {
    spec fn name_of(v: Self::V) -> Seq<char>;

    spec fn path_of(v: Self::V) -> Seq<char>;

    fn place_name(&self) -> (r: &str)
        ensures
            r@ == Self::name_of(self@),
    ;

    fn place_path(&self) -> (r: &str)
        ensures
            r@ == Self::path_of(self@),
    ;
}

/// Whether one is to come behind another.
pub open spec fn comes_after<T: Placed>(a: T::V, b: T::V) -> bool {
    skill_order(T::name_of(a), T::path_of(a), T::name_of(b), T::path_of(b)) == Order::Greater
}

/// The list with one more: in front of those that come after it.
pub open spec fn placed_in<T: Placed>(list: Seq<T::V>, v: T::V) -> Seq<T::V>
    decreases list.len(),
{
    if list.len() == 0 || !comes_after::<T>(list.last(), v) {
        list.push(v)
    } else {
        placed_in::<T>(list.drop_last(), v).push(list.last())
    }
}

/// The list in order; what is equal keeps its place.
pub open spec fn placed<T: Placed>(list: Seq<T::V>) -> Seq<T::V>
    decreases list.len(),
{
    if list.len() == 0 {
        list
    } else {
        placed_in::<T>(placed::<T>(list.drop_last()), list.last())
    }
}

proof fn lemma_placed_in<T: Placed>(list: Seq<T::V>, v: T::V, k: int)
    requires
        0 <= k <= list.len(),
        k == 0 || !comes_after::<T>(list[k - 1], v),
        forall|j: int| k <= j < list.len() ==> comes_after::<T>(#[trigger] list[j], v),
    ensures
        placed_in::<T>(list, v) == list.insert(k, v),
    decreases list.len(),
{
    if k == list.len() {
        assert(list.insert(k, v) =~= list.push(v));
    } else {
        assert(comes_after::<T>(list[list.len() - 1], v));
        assert forall|j: int| k <= j < list.drop_last().len() implies comes_after::<T>(
            #[trigger] list.drop_last()[j],
            v,
        ) by {
            assert(list.drop_last()[j] == list[j]);
        }
        lemma_placed_in::<T>(list.drop_last(), v, k);
        assert(list.drop_last().insert(k, v).push(list.last()) =~= list.insert(k, v));
    }
}

fn sort_placed<T: Placed>(items: Vec<T>) -> (r: Vec<T>)
    ensures
        text::views(r@) == placed::<T>(text::views(items@)),
{
    let ghost all = text::views(items@);
    let n: usize = items.len();
    let mut turned = reversed(items);
    let mut out: Vec<T> = Vec::new();
    let mut i: usize = 0;
    proof {
        assert(all.take(0) =~= Seq::<T::V>::empty());
        assert(text::views(out@) =~= all.take(0));
    }
    while turned.len() > 0
        invariant
            turned@.len() + i == n,
            n == all.len(),
            forall|j: int|
                0 <= j < turned@.len() ==> (#[trigger] turned@[j])@ == all[n - 1 - j],
            text::views(out@) == placed::<T>(all.take(i as int)),
        decreases turned@.len(),
    {
        let ghost last = turned@.last()@;
        proof {
            assert(last == all[i as int]);
            assert(all.take(i as int + 1).drop_last() =~= all.take(i as int));
            assert(all.take(i as int + 1).last() == all[i as int]);
        }
        match turned.pop() {
            Some(item) => {
                let k: usize = place_of(&out, &item);
                let ghost have = text::views(out@);
                proof {
                    lemma_placed_in::<T>(have, item@, k as int);
                }
                out.insert(k, item);
                assert(text::views(out@) =~= have.insert(k as int, item@));
            },
            None => {},
        }
        i += 1;
    }
    assert(all.take(i as int) =~= all);
    out
}

fn is_after<T: Placed>(a: &T, b: &T) -> (r: bool)
    ensures
        r == comes_after::<T>(a@, b@),
{
    match find_order(a.place_name(), a.place_path(), b.place_name(), b.place_path()) {
        Order::Greater => true,
        _ => false,
    }
}

fn place_of<T: Placed>(list: &Vec<T>, item: &T) -> (k: usize)
    ensures
        0 <= k <= list@.len(),
        k == 0 || !comes_after::<T>(text::views(list@)[k - 1], item@),
        forall|j: int|
            k <= j < list@.len() ==> comes_after::<T>(#[trigger] text::views(list@)[j], item@),
{
    let ghost have = text::views(list@);
    let mut k: usize = list.len();
    while k > 0
        invariant
            k <= list@.len(),
            have == text::views(list@),
            forall|j: int| k <= j < have.len() ==> comes_after::<T>(#[trigger] have[j], item@),
        decreases k,
    {
        assert(have[k as int - 1] == list@[k as int - 1]@);
        if !is_after(&list[k - 1], item) {
            return k;
        }
        k -= 1;
    }
    k
}

impl Placed for Skill {
    open spec fn name_of(v: SkillView) -> Seq<char> {
        v.name
    }

    open spec fn path_of(v: SkillView) -> Seq<char> {
        v.path
    }

    fn place_name(&self) -> (r: &str) {
        self.name.as_str()
    }

    fn place_path(&self) -> (r: &str) {
        self.path.as_str()
    }
}

// ------------------------------------------------------------------ scanning

/// What was found in a directory.
pub struct Scan {
    pub items: Vec<Skill>,
    pub warnings: Vec<String>,
}

/// What a [`Scan`] stands for.
#[verifier::ext_equal]
pub struct ScanView {
    pub items: Seq<SkillView>,
    pub warnings: Seq<Seq<char>>,
}

impl View for Scan {
    type V = ScanView;

    open spec fn view(&self) -> ScanView {
        ScanView { items: text::views(self.items@), warnings: text::views(self.warnings@) }
    }
}

/// Nothing was found.
pub open spec fn empty_scan() -> ScanView {
    ScanView { items: Seq::empty(), warnings: Seq::empty() }
}

fn nothing() -> (r: Scan)
    ensures
        r@ == empty_scan(),
{
    let r = Scan { items: Vec::new(), warnings: Vec::new() };
    assert(r@.items =~= Seq::empty());
    assert(r@.warnings =~= Seq::empty());
    r
}

/// How the frontmatter of a skill is read.
pub open spec fn skill_options(path: Seq<char>) -> FrontmatterOptionsView {
    FrontmatterOptionsView { source: Some(path), ..frontmatter::default_options() }
}

/// Whether a skill is left out by its frontmatter.
pub open spec fn is_left_out(fm: Entries, require_description: bool) -> bool {
    ||| json::lookup(fm, "enabled"@) == Some(JsonView::Bool(false))
    ||| require_description && !(json::lookup(fm, "description"@) is Some && js::is_truthy(
        json::lookup(fm, "description"@).unwrap(),
    ))
}

/// The name of a skill: that of its frontmatter, or else that of its directory.
pub open spec fn skill_name(fm: Entries, dir_name: Seq<char>) -> Seq<char> {
    match json::lookup(fm, "name"@) {
        Some(JsonView::String(n)) => if text::trim(Space::Js, n).len() > 0 {
            text::trim(Space::Js, n)
        } else {
            dir_name
        },
        _ => dir_name,
    }
}

/// What a directory is scanned for.
#[verifier::ext_equal]
pub struct AimView {
    pub current: Seq<char>,
    pub provider: Seq<char>,
    pub level: Level,
    pub require_description: bool,
}

/// The skill of a file, by what was read of it.
pub open spec fn skill_of(
    aim: AimView,
    path: Seq<char>,
    dir_name: Seq<char>,
    fm: Entries,
    body: Seq<char>,
) -> SkillView {
    SkillView {
        name: skill_name(fm, dir_name),
        path,
        content: body,
        frontmatter: fm,
        level: aim.level,
        source: capability::source_meta(aim.current, aim.provider, path, aim.level),
    }
}

/// The scan with a file of a text.
pub open spec fn with_skill(
    scan: ScanView,
    aim: AimView,
    path: Seq<char>,
    dir_name: Seq<char>,
    content: Seq<char>,
) -> ScanView {
    match frontmatter::frontmatter_of(content, skill_options(path)) {
        Err(_) => ScanView {
            warnings: scan.warnings.push("Failed to read skill file: "@ + path),
            ..scan
        },
        Ok(f) => if is_left_out(f.frontmatter, aim.require_description) {
            scan
        } else {
            ScanView {
                items: scan.items.push(skill_of(aim, path, dir_name, f.frontmatter, f.body)),
                ..scan
            }
        },
    }
}

/// The file of a skill in a directory.
pub open spec fn skill_file(dir: Seq<char>, name: Seq<char>) -> Seq<char> {
    paths::joined(paths::joined(dir, name), "SKILL.md"@)
}

/// The scan of entries: those that are hidden, or neither directories nor links, do not count.
pub open spec fn scan_entries(
    fs: FsView,
    dir: Seq<char>,
    aim: AimView,
    entries: Seq<DirEntryView>,
) -> ScanView
    decreases entries.len(),
{
    if entries.len() == 0 {
        empty_scan()
    } else {
        let have = scan_entries(fs, dir, aim, entries.drop_last());
        let e = entries.last();
        let path = skill_file(dir, e.name);
        if (e.name.len() > 0 && e.name[0] == '.') || !(e.is_dir || e.is_link) {
            have
        } else {
            match files::file_at(fs, path) {
                Some(content) => if content.len() > 0 {
                    with_skill(have, aim, path, e.name, content)
                } else {
                    have
                },
                None => have,
            }
        }
    }
}

/// What is wrong with a directory that could not be read.
pub open spec fn unreadable(dir: Seq<char>, failure: Seq<char>) -> Seq<char> {
    "Failed to read skills directory: "@ + dir + " ("@ + failure + ")"@
}

/// The skills of a directory, in order.
pub open spec fn scanned(fs: FsView, dir: Seq<char>, aim: AimView) -> ScanView {
    let listing = files::listing_at(fs, dir);
    match listing.failure {
        Some(e) => ScanView { items: Seq::empty(), warnings: seq![unreadable(dir, e)] },
        None => {
            let s = scan_entries(fs, dir, aim, listing.entries);
            ScanView { items: placed::<Skill>(s.items), ..s }
        },
    }
}

fn left_out(fm: &JsonObject, require_description: bool) -> (r: bool)
    ensures
        r == is_left_out(fm@, require_description),
{
    let off = match fm.get("enabled") {
        Some(Json::Bool(b)) => !*b,
        _ => false,
    };
    let described = match fm.get("description") {
        Some(d) => js::truthy(d),
        None => false,
    };
    off || (require_description && !described)
}

fn find_name(fm: &JsonObject, dir_name: &str) -> (r: String)
    ensures
        r@ == skill_name(fm@, dir_name@),
{
    match fm.get("name") {
        Some(Json::String(n)) => {
            let t = js::trim(n);
            if to_chars(&t).len() > 0 {
                t
            } else {
                dir_name.to_string()
            }
        },
        _ => dir_name.to_string(),
    }
}

fn add_skill(
    scan: &mut Scan,
    current: &str,
    provider: &str,
    level: Level,
    require_description: bool,
    path: String,
    dir_name: &str,
    content: &str,
)
    ensures
        final(scan)@ == with_skill(
            old(scan)@,
            (AimView { current: current@, provider: provider@, level, require_description }),
            path@,
            dir_name@,
            content@,
        ),
{
    let mut options = FrontmatterOptions::default();
    options.source = Some(path.clone());
    assert(options@ =~= skill_options(path@));
    match parse_frontmatter(content, &options) {
        Err(_) => {
            let m = text::concat("Failed to read skill file: ", &path);
            proof {
                text::lemma_views_push(scan.warnings@, m);
            }
            scan.warnings.push(m);
        },
        Ok(f) => {
            if !left_out(&f.frontmatter, require_description) {
                let name = find_name(&f.frontmatter, dir_name);
                let source = SourceMeta::new(current, provider, &path, level);
                let skill = Skill {
                    name,
                    path,
                    content: f.body,
                    frontmatter: f.frontmatter,
                    level,
                    source,
                };
                proof {
                    text::lemma_views_push(scan.items@, skill);
                }
                scan.items.push(skill);
            }
        },
    }
}

/// The skills of a directory, in order: a `SKILL.md` in each directory that is not hidden.
pub fn scan_skills_from_dir(
    fs: &mut FsCache,
    dir: &str,
    provider: &str,
    level: Level,
    require_description: bool,
) -> (r: Scan)
    ensures
        final(fs)@ == old(fs)@,
        r@ == scanned(
            old(fs)@,
            dir@,
            (AimView { current: old(fs)@.current, provider: provider@, level, require_description }),
        ),
        files::only_adds(old(fs).wanted@, final(fs).wanted@),
        files::asked_nothing(old(fs).wanted@, final(fs).wanted@) ==> forall|more: FsView| #[trigger]
            files::extends(more, old(fs)@) ==>
                scanned(more, dir@, (AimView { current: old(fs)@.current, provider: provider@, level, require_description }))
                    == scanned(old(fs)@, dir@, (AimView { current: old(fs)@.current, provider: provider@, level, require_description })),
{
    let ghost known = fs@;
    let ghost aim = AimView { current: known.current, provider: provider@, level, require_description };
    let listing = fs.read_listing(dir);
    match &listing.failure {
        Some(e) => {
            let mut m = "Failed to read skills directory: ".to_string();
            m.append(dir);
            m.append(" (");
            m.append(e);
            m.append(")");
            let ghost mv = m@;
            let mut scan = nothing();
            scan.warnings.push(m);
            proof {
                assert(text::views(scan.warnings@) =~= seq![mv]);
            }
            return scan;
        },
        None => {},
    }
    let ghost all = text::views(listing.entries@);
    let mut scan = nothing();
    let mut i: usize = 0;
    assert(all.take(0) =~= Seq::<DirEntryView>::empty());
    while i < listing.entries.len()
        invariant
            i <= listing.entries@.len(),
            fs@ == known,
            known == old(fs)@,
            all == text::views(listing.entries@),
            aim == (AimView {
                current: known.current,
                provider: provider@,
                level,
                require_description,
            }),
            scan@ == scan_entries(known, dir@, aim, all.take(i as int)),
            files::only_adds(old(fs).wanted@, fs.wanted@),
            files::asked_nothing(old(fs).wanted@, fs.wanted@) ==> forall|more: FsView| #[trigger]
                files::extends(more, known) ==>
                    scan_entries(more, dir@, aim, all.take(i as int))
                        == scan_entries(known, dir@, aim, all.take(i as int)),
            files::asked_nothing(old(fs).wanted@, fs.wanted@) ==> forall|more: FsView| #[trigger]
                files::extends(more, known) ==> files::listing_at(more, dir@)
                    == files::listing_at(known, dir@),
        decreases listing.entries@.len() - i,
    {
        proof {
            assert(all.take(i as int + 1).drop_last() =~= all.take(i as int));
            assert(all.take(i as int + 1).last() == listing.entries@[i as int]@);
        }
        let e = &listing.entries[i];
        let name = to_chars(&e.name);
        let hidden = name.len() > 0 && name[0] == '.';
        if !hidden && (e.is_dir || e.is_link) {
            let path = join_path(&join_path(dir, &e.name), "SKILL.md");
            match fs.read_file(&path) {
                Some(content) => {
                    if to_chars(&content).len() > 0 {
                        add_skill(
                            &mut scan,
                            &fs.current,
                            provider,
                            level,
                            require_description,
                            path,
                            &e.name,
                            &content,
                        );
                    }
                },
                None => {},
            }
        }
        i += 1;
    }
    assert(all.take(i as int) =~= all);
    Scan { items: sort_placed(scan.items), warnings: scan.warnings }
}

// ------------------------------------------------------------------ providers

/// A directory of skills.
#[derive(Debug, PartialEq)]
pub struct Root {
    pub dir: String,
    pub level: Level,
    pub require_description: bool,
}

/// What a [`Root`] stands for.
#[verifier::ext_equal]
pub struct RootView {
    pub dir: Seq<char>,
    pub level: Level,
    pub require_description: bool,
}

impl View for Root {
    type V = RootView;

    open spec fn view(&self) -> RootView {
        RootView {
            dir: self.dir@,
            level: self.level,
            require_description: self.require_description,
        }
    }
}

impl Clone for Root {
    fn clone(&self) -> (r: Root)
        ensures
            r@ == self@,
    {
        Root {
            dir: self.dir.clone(),
            level: self.level,
            require_description: self.require_description,
        }
    }
}

/// A directory of skills.
pub open spec fn root(dir: Seq<char>, level: Level, require_description: bool) -> RootView {
    RootView { dir, level, require_description }
}

fn make_root(dir: String, level: Level, require_description: bool) -> (r: Root)
    ensures
        r@ == root(dir@, level, require_description),
{
    Root { dir, level, require_description }
}

/// The skills of directories, one after the other.
pub open spec fn scan_all(fs: FsView, provider: Seq<char>, roots: Seq<RootView>) -> ScanView
    decreases roots.len(),
{
    if roots.len() == 0 {
        empty_scan()
    } else {
        let have = scan_all(fs, provider, roots.drop_last());
        let r = roots.last();
        let more = scanned(
            fs,
            r.dir,
            AimView {
                current: fs.current,
                provider,
                level: r.level,
                require_description: r.require_description,
            },
        );
        ScanView { items: have.items + more.items, warnings: have.warnings + more.warnings }
    }
}

fn append_skills(out: &mut Vec<Skill>, more: &Vec<Skill>)
    ensures
        text::views(final(out)@) == text::views(old(out)@) + text::views(more@),
{
    let ghost before = text::views(out@);
    let ghost all = text::views(more@);
    let mut i: usize = 0;
    assert(before + all.take(0) =~= before);
    while i < more.len()
        invariant
            i <= more@.len(),
            all == text::views(more@),
            text::views(out@) == before + all.take(i as int),
        decreases more@.len() - i,
    {
        let m = more[i].clone();
        proof {
            text::lemma_views_push(out@, m);
            assert(before + all.take(i as int + 1) =~= (before + all.take(i as int)).push(m@));
        }
        out.push(m);
        i += 1;
    }
    assert(all.take(i as int) =~= all);
}

fn scan_roots(fs: &mut FsCache, provider: &str, roots: &Vec<Root>) -> (r: Scan)
    ensures
        final(fs)@ == old(fs)@,
        r@ == scan_all(old(fs)@, provider@, text::views(roots@)),
        files::only_adds(old(fs).wanted@, final(fs).wanted@),
        files::asked_nothing(old(fs).wanted@, final(fs).wanted@) ==> forall|more: FsView| #[trigger]
            files::extends(more, old(fs)@) ==>
                scan_all(more, provider@, text::views(roots@))
                    == scan_all(old(fs)@, provider@, text::views(roots@)),
{
    proof {
        files::lemma_extends_current(fs@);
    }
    let ghost known = fs@;
    let ghost all = text::views(roots@);
    let mut out = nothing();
    let mut i: usize = 0;
    assert(all.take(0) =~= Seq::<RootView>::empty());
    while i < roots.len()
        invariant
            i <= roots@.len(),
            fs@ == known,
            known == old(fs)@,
            all == text::views(roots@),
            out@ == scan_all(known, provider@, all.take(i as int)),
            forall|more: FsView| #[trigger]
                files::extends(more, known) ==> more.current == known.current,
            files::only_adds(old(fs).wanted@, fs.wanted@),
            files::asked_nothing(old(fs).wanted@, fs.wanted@) ==> forall|more: FsView| #[trigger]
                files::extends(more, known) ==>
                    scan_all(more, provider@, all.take(i as int))
                        == scan_all(known, provider@, all.take(i as int)),
        decreases roots@.len() - i,
    {
        proof {
            assert(all.take(i as int + 1).drop_last() =~= all.take(i as int));
            assert(all.take(i as int + 1).last() == roots@[i as int]@);
        }
        let r = &roots[i];
        let more = scan_skills_from_dir(fs, &r.dir, provider, r.level, r.require_description);
        append_skills(&mut out.items, &more.items);
        capability::append_all(&mut out.warnings, &more.warnings);
        i += 1;
    }
    assert(all.take(i as int) =~= all);
    out
}

/// The directories `sub` of directories other than `skipped`.
pub open spec fn roots_below(
    dirs: Seq<Seq<char>>,
    skipped: Option<Seq<char>>,
    sub: Seq<char>,
    level: Level,
    require_description: bool,
) -> Seq<RootView>
    decreases dirs.len(),
{
    if dirs.len() == 0 {
        Seq::empty()
    } else {
        let have = roots_below(dirs.drop_last(), skipped, sub, level, require_description);
        if skipped matches Some(s) && paths::same_place(dirs.last(), s) {
            have
        } else {
            have.push(
                root(
                    paths::joined(paths::joined(dirs.last(), sub), "skills"@),
                    level,
                    require_description,
                ),
            )
        }
    }
}

fn find_roots_below(
    dirs: &Vec<String>,
    skipped: Option<&str>,
    sub: &str,
    level: Level,
    require_description: bool,
) -> (r: Vec<Root>)
    ensures
        text::views(r@) == roots_below(
            text::views(dirs@),
            match skipped {
                Some(s) => Some(s@),
                None => None,
            },
            sub@,
            level,
            require_description,
        ),
{
    let ghost all = text::views(dirs@);
    let ghost off = match skipped {
        Some(s) => Some(s@),
        None => None,
    };
    let mut out: Vec<Root> = Vec::new();
    let mut i: usize = 0;
    proof {
        assert(all.take(0) =~= Seq::<Seq<char>>::empty());
        assert(text::views(out@) =~= Seq::empty());
    }
    while i < dirs.len()
        invariant
            i <= dirs@.len(),
            all == text::views(dirs@),
            off == (match skipped {
                Some(s) => Some(s@),
                None => None,
            }),
            text::views(out@) == roots_below(
                all.take(i as int),
                off,
                sub@,
                level,
                require_description,
            ),
        decreases dirs@.len() - i,
    {
        proof {
            assert(all.take(i as int + 1).drop_last() =~= all.take(i as int));
            assert(all.take(i as int + 1).last() == dirs@[i as int]@);
        }
        let skip = match skipped {
            Some(s) => paths::is_same_place(&dirs[i], s),
            None => false,
        };
        if !skip {
            let r = make_root(
                join_path(&join_path(&dirs[i], sub), "skills"),
                level,
                require_description,
            );
            proof {
                text::lemma_views_push(out@, r);
            }
            out.push(r);
        }
        i += 1;
    }
    assert(all.take(i as int) =~= all);
    out
}

/// The `.agent` and `.agents` directories of directories other than `skipped`.
pub open spec fn agent_roots(dirs: Seq<Seq<char>>, skipped: Option<Seq<char>>, level: Level) -> Seq<
    RootView,
>
    decreases dirs.len(),
{
    if dirs.len() == 0 {
        Seq::empty()
    } else {
        let have = agent_roots(dirs.drop_last(), skipped, level);
        if skipped matches Some(s) && paths::same_place(dirs.last(), s) {
            have
        } else {
            have.push(
                root(
                    paths::joined(paths::joined(dirs.last(), ".agent"@), "skills"@),
                    level,
                    false,
                ),
            ).push(
                root(
                    paths::joined(paths::joined(dirs.last(), ".agents"@), "skills"@),
                    level,
                    false,
                ),
            )
        }
    }
}

fn push_agent_roots(out: &mut Vec<Root>, dirs: &Vec<String>, skipped: Option<&str>, level: Level)
    ensures
        text::views(final(out)@) == text::views(old(out)@) + agent_roots(
            text::views(dirs@),
            match skipped {
                Some(s) => Some(s@),
                None => None,
            },
            level,
        ),
{
    let ghost before = text::views(out@);
    let ghost all = text::views(dirs@);
    let ghost off = match skipped {
        Some(s) => Some(s@),
        None => None,
    };
    let mut i: usize = 0;
    proof {
        assert(all.take(0) =~= Seq::<Seq<char>>::empty());
        assert(before + Seq::<RootView>::empty() =~= before);
    }
    while i < dirs.len()
        invariant
            i <= dirs@.len(),
            all == text::views(dirs@),
            off == (match skipped {
                Some(s) => Some(s@),
                None => None,
            }),
            text::views(out@) == before + agent_roots(all.take(i as int), off, level),
        decreases dirs@.len() - i,
    {
        proof {
            assert(all.take(i as int + 1).drop_last() =~= all.take(i as int));
            assert(all.take(i as int + 1).last() == dirs@[i as int]@);
        }
        let skip = match skipped {
            Some(s) => paths::is_same_place(&dirs[i], s),
            None => false,
        };
        if !skip {
            let ghost have = agent_roots(all.take(i as int), off, level);
            let a = make_root(join_path(&join_path(&dirs[i], ".agent"), "skills"), level, false);
            let b = make_root(join_path(&join_path(&dirs[i], ".agents"), "skills"), level, false);
            let ghost av = a@;
            let ghost bv = b@;
            proof {
                text::lemma_views_push(out@, a);
            }
            out.push(a);
            proof {
                text::lemma_views_push(out@, b);
            }
            out.push(b);
            assert((before + have).push(av).push(bv) =~= before + have.push(av).push(bv));
        }
        i += 1;
    }
    assert(all.take(i as int) =~= all);
}

/// A directory, where it counts.
pub open spec fn root_if(cond: bool, dir: Seq<char>) -> Seq<RootView> {
    if cond {
        seq![root(dir, Level::User, false)]
    } else {
        Seq::empty()
    }
}

fn find_root_if(cond: bool, dir: String) -> (r: Vec<Root>)
    ensures
        text::views(r@) == root_if(cond, dir@),
{
    let mut out: Vec<Root> = Vec::new();
    if cond {
        out.push(make_root(dir, Level::User, false));
    }
    assert(text::views(out@) =~= root_if(cond, dir@));
    out
}

/// The directories of the working directory's ancestors.
pub open spec fn walk(ctx: LoadContextView) -> Seq<Seq<char>> {
    paths::upwards(ctx.cwd, context_files::walk_end(ctx))
}

/// The directories where a provider looks for skills.
pub open spec fn roots_of(ctx: LoadContextView, id: Seq<char>) -> Seq<RootView> {
    if id == "native"@ {
        roots_below(walk(ctx), None, ctx.dirs.native_project_dir, Level::Project, true).push(
            root(paths::joined(ctx.dirs.native_user_dir, "skills"@), Level::User, true),
        )
    } else if id == foreign::id() {
        root_if(
            ctx.skill_toggles.claude_user || capability::user_source_enabled(ctx, foreign::id()),
            paths::joined(context_files::claude_dir(ctx), "skills"@),
        ) + roots_below(walk(ctx), Some(ctx.home), foreign::dir(), Level::Project, false)
    } else if id == "agents"@ {
        agent_roots(walk(ctx), Some(ctx.home), Level::Project) + agent_roots(
            context_files::home_dirs(ctx.home, ctx.dirs.extra_user_homes),
            None,
            Level::User,
        )
    } else if id == "codex"@ {
        root_if(
            ctx.skill_toggles.codex_user || capability::user_source_enabled(ctx, "codex"@),
            paths::joined(ctx.home, ".codex/skills"@),
        ).push(root(paths::joined(ctx.cwd, ".codex/skills"@), Level::Project, false))
    } else if id == "opencode"@ {
        root_if(
            capability::user_source_enabled(ctx, "opencode"@),
            paths::joined(ctx.home, ".config/opencode/skills"@),
        ).push(root(paths::joined(ctx.cwd, ".opencode/skills"@), Level::Project, false))
    } else if id == "github"@ {
        seq![root(paths::joined(ctx.cwd, ".github/skills"@), Level::Project, true)]
    } else {
        Seq::empty()
    }
}

fn find_roots(ctx: &LoadContext, id: &str) -> (r: Vec<Root>)
    ensures
        text::views(r@) == roots_of(ctx@, id@),
{
    let dirs = ancestors_until(&ctx.cwd, &walk_stop(ctx));
    if same_text(id, "native") {
        let mut out = find_roots_below(
            &dirs,
            None,
            &ctx.dirs.native_project_dir,
            Level::Project,
            true,
        );
        let r = make_root(join_path(&ctx.dirs.native_user_dir, "skills"), Level::User, true);
        proof {
            text::lemma_views_push(out@, r);
        }
        out.push(r);
        out
    } else if same_text(id, &foreign::id_text()) {
        let on = ctx.skill_toggles.claude_user || ctx.is_user_source_enabled(&foreign::id_text());
        let mut out = find_root_if(on, join_path(&claude_config_dir(ctx), "skills"));
        let more = find_roots_below(&dirs, Some(&ctx.home), &foreign::dir_text(), Level::Project, false);
        append_roots(&mut out, &more);
        out
    } else if same_text(id, "agents") {
        let mut out: Vec<Root> = Vec::new();
        assert(text::views(out@) =~= Seq::empty());
        push_agent_roots(&mut out, &dirs, Some(&ctx.home), Level::Project);
        push_agent_roots(&mut out, &homes(ctx), None, Level::User);
        assert(text::views(out@) =~= roots_of(ctx@, id@));
        out
    } else if same_text(id, "codex") {
        let on = ctx.skill_toggles.codex_user || ctx.is_user_source_enabled("codex");
        let mut out = find_root_if(on, join_path(&ctx.home, ".codex/skills"));
        let r = make_root(join_path(&ctx.cwd, ".codex/skills"), Level::Project, false);
        proof {
            text::lemma_views_push(out@, r);
        }
        out.push(r);
        out
    } else if same_text(id, "opencode") {
        let on = ctx.is_user_source_enabled("opencode");
        let mut out = find_root_if(on, join_path(&ctx.home, ".config/opencode/skills"));
        let r = make_root(join_path(&ctx.cwd, ".opencode/skills"), Level::Project, false);
        proof {
            text::lemma_views_push(out@, r);
        }
        out.push(r);
        out
    } else {
        let mut out: Vec<Root> = Vec::new();
        if same_text(id, "github") {
            out.push(make_root(join_path(&ctx.cwd, ".github/skills"), Level::Project, true));
        }
        assert(text::views(out@) =~= roots_of(ctx@, id@));
        out
    }
}

fn append_roots(out: &mut Vec<Root>, more: &Vec<Root>)
    ensures
        text::views(final(out)@) == text::views(old(out)@) + text::views(more@),
{
    let ghost before = text::views(out@);
    let ghost all = text::views(more@);
    let mut i: usize = 0;
    assert(before + all.take(0) =~= before);
    while i < more.len()
        invariant
            i <= more@.len(),
            all == text::views(more@),
            text::views(out@) == before + all.take(i as int),
        decreases more@.len() - i,
    {
        let m = more[i].clone();
        proof {
            text::lemma_views_push(out@, m);
            assert(before + all.take(i as int + 1) =~= (before + all.take(i as int)).push(m@));
        }
        out.push(m);
        i += 1;
    }
    assert(all.take(i as int) =~= all);
}

/// What a provider finds.
pub fn load_provider(fs: &mut FsCache, ctx: &LoadContext, id: &str) -> (r: Scan)
    ensures
        final(fs)@ == old(fs)@,
        r@ == scan_all(old(fs)@, id@, roots_of(ctx@, id@)),
        files::only_adds(old(fs).wanted@, final(fs).wanted@),
        files::asked_nothing(old(fs).wanted@, final(fs).wanted@) ==> forall|more: FsView| #[trigger]
            files::extends(more, old(fs)@) ==>
                scan_all(more, id@, roots_of(ctx@, id@))
                    == scan_all(old(fs)@, id@, roots_of(ctx@, id@)),
{
    let roots = find_roots(ctx, id);
    scan_roots(fs, id, &roots)
}

/// The providers of skills, as they are added.
pub open spec fn skill_providers(native_name: Seq<char>) -> Seq<ProviderView> {
    seq![
        context_files::provider_view("native"@, native_name, "Skills from "@ + native_name, 100),
        context_files::provider_view(foreign::id(), foreign::title(), "Skills from "@ + foreign::title(), 80),
        context_files::provider_view(
            "agents"@,
            "Agent Dirs (.agent/.agents)"@,
            "Skills from Agent Dirs (.agent/.agents)"@,
            70,
        ),
        context_files::provider_view("codex"@, "OpenAI Codex"@, "Skills from OpenAI Codex"@, 70),
        context_files::provider_view("opencode"@, "OpenCode"@, "Skills from OpenCode"@, 55),
        context_files::provider_view("github"@, "GitHub Copilot"@, "Skills from GitHub Copilot"@, 30),
    ]
}

/// Skills, with their providers.
pub fn skill_capability(native_name: &str) -> (r: Capability)
    ensures
        r@.id == "skills"@,
        r@.display_name == "Skills"@,
        r@.description
            == "Specialized knowledge and workflow files that extend agent capabilities"@,
        r@.providers == capability::all_registered(Seq::empty(), skill_providers(native_name@)),
{
    let mut kind = Capability::new(
        "skills",
        "Skills",
        "Specialized knowledge and workflow files that extend agent capabilities",
    );
    let mut all: Vec<Provider> = Vec::new();
    all.push(make_provider("native", native_name, &text::concat("Skills from ", native_name), 100));
    all.push(make_provider(&foreign::id_text(), &foreign::title_text(), &concat("Skills from ", &foreign::title_text()), 80));
    all.push(
        make_provider(
            "agents",
            "Agent Dirs (.agent/.agents)",
            "Skills from Agent Dirs (.agent/.agents)",
            70,
        ),
    );
    all.push(make_provider("codex", "OpenAI Codex", "Skills from OpenAI Codex", 70));
    all.push(make_provider("opencode", "OpenCode", "Skills from OpenCode", 55));
    all.push(make_provider("github", "GitHub Copilot", "Skills from GitHub Copilot", 30));
    assert(text::views(all@) =~= skill_providers(native_name@));
    kind.register_all(&all);
    kind
}

/// What comes of asking providers.
pub open spec fn skill_outcomes(
    fs: FsView,
    ctx: LoadContextView,
    providers: Seq<ProviderView>,
) -> Seq<OutcomeView<SkillView>> {
    providers.map_values(
        |p: ProviderView|
            capability::found_items(
                scan_all(fs, p.id, roots_of(ctx, p.id)).items,
                scan_all(fs, p.id, roots_of(ctx, p.id)).warnings,
            ),
    )
}

/// The skills that are found.
pub open spec fn skills_found(
    fs: FsView,
    ctx: LoadContextView,
    providers: Seq<ProviderView>,
    options: LoadOptionsView,
) -> CapabilityResultView<SkillView> {
    let asked = capability::asked(providers, ctx.policy, options);
    capability::loaded::<Skill>(asked, skill_outcomes(fs, ctx, asked), options)
}

/// The skills that are found.
pub fn load(fs: &mut FsCache, ctx: &LoadContext, kind: &Capability, options: &LoadOptions) -> (r:
    CapabilityResult<Skill>)
    ensures
        final(fs)@ == old(fs)@,
        r@ == skills_found(old(fs)@, ctx@, kind@.providers, options@),
        files::only_adds(old(fs).wanted@, final(fs).wanted@),
        files::asked_nothing(old(fs).wanted@, final(fs).wanted@) ==> forall|more: FsView| #[trigger]
            files::extends(more, old(fs)@) ==>
                skills_found(more, ctx@, kind@.providers, options@)
                    == skills_found(old(fs)@, ctx@, kind@.providers, options@),
{
    let ghost known = fs@;
    let asked = kind.selected(&ctx.policy, options);
    let ghost all = text::views(asked@);
    let ghost outs = skill_outcomes(known, ctx@, all);
    let mut outcomes: Vec<Outcome<Skill>> = Vec::new();
    let mut i: usize = 0;
    assert(text::views(outcomes@) =~= outs.take(0));
    while i < asked.len()
        invariant
            i <= asked@.len(),
            fs@ == known,
            known == old(fs)@,
            all == text::views(asked@),
            outs == skill_outcomes(known, ctx@, all),
            text::views(outcomes@) == outs.take(i as int),
            outcomes@.len() == i,
            files::only_adds(old(fs).wanted@, fs.wanted@),
            files::asked_nothing(old(fs).wanted@, fs.wanted@) ==> forall|more: FsView, j: int|
                #![trigger files::extends(more, known), all[j]]
                files::extends(more, known) && 0 <= j < i ==> scan_all(
                    more,
                    all[j].id,
                    roots_of(ctx@, all[j].id),
                ) == scan_all(known, all[j].id, roots_of(ctx@, all[j].id)),
        decreases asked@.len() - i,
    {
        let scan = load_provider(fs, ctx, &asked[i].id);
        let o = found(scan.items, scan.warnings);
        proof {
            text::lemma_views_push(outcomes@, o);
            assert(all[i as int] == asked@[i as int]@);
            assert(outs[i as int] == o@);
            assert(outs.take(i as int + 1) =~= outs.take(i as int).push(o@));
        }
        outcomes.push(o);
        i += 1;
    }
    assert(outs.take(i as int) =~= outs);
    proof {
        if files::asked_nothing(old(fs).wanted@, fs.wanted@) {
            assert forall|more: FsView| #[trigger] files::extends(more, known) implies skill_outcomes(
                more,
                ctx@,
                all,
            ) == outs by {
                assert(skill_outcomes(more, ctx@, all) =~= outs);
            }
        }
    }
    merge_outcomes(&asked, outcomes, options)
}

// ------------------------------------------------------------------ loading

/// Which skills are offered.
#[derive(Debug)]
pub struct SkillsSettings {
    pub enabled: bool,
    pub enable_codex_user: bool,
    pub enable_claude_user: bool,
    pub enable_claude_project: bool,
    pub enable_native_user: bool,
    pub enable_native_project: bool,
    pub enable_agents_user: bool,
    pub enable_agents_project: bool,
    pub custom_directories: Vec<String>,
    /// Globs on the names.
    pub ignored_skills: Vec<String>,
    pub include_skills: Vec<String>,
    pub disabled_extensions: Vec<String>,
}

/// What a [`SkillsSettings`] stands for.
#[verifier::ext_equal]
pub struct SkillsSettingsView {
    pub enabled: bool,
    pub enable_codex_user: bool,
    pub enable_claude_user: bool,
    pub enable_claude_project: bool,
    pub enable_native_user: bool,
    pub enable_native_project: bool,
    pub enable_agents_user: bool,
    pub enable_agents_project: bool,
    pub custom_directories: Seq<Seq<char>>,
    pub ignored_skills: Seq<Seq<char>>,
    pub include_skills: Seq<Seq<char>>,
    pub disabled_extensions: Seq<Seq<char>>,
}

impl View for SkillsSettings {
    type V = SkillsSettingsView;

    open spec fn view(&self) -> SkillsSettingsView {
        SkillsSettingsView {
            enabled: self.enabled,
            enable_codex_user: self.enable_codex_user,
            enable_claude_user: self.enable_claude_user,
            enable_claude_project: self.enable_claude_project,
            enable_native_user: self.enable_native_user,
            enable_native_project: self.enable_native_project,
            enable_agents_user: self.enable_agents_user,
            enable_agents_project: self.enable_agents_project,
            custom_directories: text::views(self.custom_directories@),
            ignored_skills: text::views(self.ignored_skills@),
            include_skills: text::views(self.include_skills@),
            disabled_extensions: text::views(self.disabled_extensions@),
        }
    }
}

impl Clone for SkillsSettings {
    fn clone(&self) -> (r: SkillsSettings)
        ensures
            r@ == self@,
    {
        SkillsSettings {
            enabled: self.enabled,
            enable_codex_user: self.enable_codex_user,
            enable_claude_user: self.enable_claude_user,
            enable_claude_project: self.enable_claude_project,
            enable_native_user: self.enable_native_user,
            enable_native_project: self.enable_native_project,
            enable_agents_user: self.enable_agents_user,
            enable_agents_project: self.enable_agents_project,
            custom_directories: clone_strings(&self.custom_directories),
            ignored_skills: clone_strings(&self.ignored_skills),
            include_skills: clone_strings(&self.include_skills),
            disabled_extensions: clone_strings(&self.disabled_extensions),
        }
    }
}

impl Default for SkillsSettings {
    fn default() -> (r: SkillsSettings)
        ensures
            r@ == (SkillsSettingsView {
                enabled: true,
                enable_codex_user: false,
                enable_claude_user: false,
                enable_claude_project: true,
                enable_native_user: true,
                enable_native_project: true,
                enable_agents_user: true,
                enable_agents_project: true,
                custom_directories: Seq::empty(),
                ignored_skills: Seq::empty(),
                include_skills: Seq::empty(),
                disabled_extensions: Seq::empty(),
            }),
    {
        let r = SkillsSettings {
            enabled: true,
            enable_codex_user: false,
            enable_claude_user: false,
            enable_claude_project: true,
            enable_native_user: true,
            enable_native_project: true,
            enable_agents_user: true,
            enable_agents_project: true,
            custom_directories: Vec::new(),
            ignored_skills: Vec::new(),
            include_skills: Vec::new(),
            disabled_extensions: Vec::new(),
        };
        assert(r@.custom_directories =~= Seq::empty());
        assert(r@.ignored_skills =~= Seq::empty());
        assert(r@.include_skills =~= Seq::empty());
        assert(r@.disabled_extensions =~= Seq::empty());
        r
    }
}

/// A skill that is offered.
#[derive(Debug, PartialEq)]
pub struct LoadedSkill {
    pub name: String,
    pub description: String,
    pub file_path: String,
    /// The directory of the file.
    pub base_dir: String,
    /// The provider and the level.
    pub source: String,
    /// Whether the skill is left out of the system prompt.
    pub hide: bool,
    pub meta: SourceMeta,
}

/// What a [`LoadedSkill`] stands for.
#[verifier::ext_equal]
pub struct LoadedSkillView {
    pub name: Seq<char>,
    pub description: Seq<char>,
    pub file_path: Seq<char>,
    pub base_dir: Seq<char>,
    pub source: Seq<char>,
    pub hide: bool,
    pub meta: SourceMetaView,
}

impl View for LoadedSkill {
    type V = LoadedSkillView;

    open spec fn view(&self) -> LoadedSkillView {
        LoadedSkillView {
            name: self.name@,
            description: self.description@,
            file_path: self.file_path@,
            base_dir: self.base_dir@,
            source: self.source@,
            hide: self.hide,
            meta: self.meta@,
        }
    }
}

impl Clone for LoadedSkill {
    fn clone(&self) -> (r: LoadedSkill)
        ensures
            r@ == self@,
    {
        LoadedSkill {
            name: self.name.clone(),
            description: self.description.clone(),
            file_path: self.file_path.clone(),
            base_dir: self.base_dir.clone(),
            source: self.source.clone(),
            hide: self.hide,
            meta: self.meta.clone(),
        }
    }
}

/// What is wrong with a skill.
#[derive(Debug, PartialEq)]
pub struct SkillWarning {
    pub skill_path: String,
    pub message: String,
}

/// What a [`SkillWarning`] stands for.
#[verifier::ext_equal]
pub struct SkillWarningView {
    pub skill_path: Seq<char>,
    pub message: Seq<char>,
}

impl View for SkillWarning {
    type V = SkillWarningView;

    open spec fn view(&self) -> SkillWarningView {
        SkillWarningView {
            skill_path: self.skill_path@,
            message: self.message@,
        }
    }
}

impl Clone for SkillWarning {
    fn clone(&self) -> (r: SkillWarning)
        ensures
            r@ == self@,
    {
        SkillWarning {
            skill_path: self.skill_path.clone(),
            message: self.message.clone(),
        }
    }
}

impl Placed for LoadedSkill {
    open spec fn name_of(v: LoadedSkillView) -> Seq<char> {
        v.name
    }

    open spec fn path_of(v: LoadedSkillView) -> Seq<char> {
        v.file_path
    }

    fn place_name(&self) -> (r: &str) {
        self.name.as_str()
    }

    fn place_path(&self) -> (r: &str) {
        self.file_path.as_str()
    }
}

/// The text of a member, or nothing.
pub open spec fn member_text(fm: Entries, key: Seq<char>) -> Seq<char> {
    match json::lookup(fm, key) {
        Some(JsonView::String(s)) => s,
        _ => Seq::empty(),
    }
}

/// Whether a member is true.
pub open spec fn is_true(fm: Entries, key: Seq<char>) -> bool {
    json::lookup(fm, key) == Some(JsonView::Bool(true))
}

/// A skill as it is offered.
pub open spec fn offered(skill: SkillView, source: Seq<char>, meta: SourceMetaView) -> LoadedSkillView {
    LoadedSkillView {
        name: skill.name,
        description: member_text(skill.frontmatter, "description"@),
        file_path: skill.path,
        base_dir: match paths::parent_of(skill.path) {
            Some(d) => d,
            None => Seq::empty(),
        },
        source,
        hide: is_true(skill.frontmatter, "hide"@) || is_true(
            skill.frontmatter,
            "disableModelInvocation"@,
        ),
        meta,
    }
}

fn has_true(fm: &JsonObject, key: &str) -> (r: bool)
    ensures
        r == is_true(fm@, key@),
{
    match fm.get(key) {
        Some(Json::Bool(b)) => *b,
        _ => false,
    }
}

fn offer(skill: &Skill, source: String, meta: SourceMeta) -> (r: LoadedSkill)
    ensures
        r@ == offered(skill@, source@, meta@),
{
    let empty = String::new();
    assert(empty@ =~= Seq::empty());
    let description = match skill.frontmatter.get("description") {
        Some(Json::String(s)) => s.clone(),
        _ => empty,
    };
    let empty = String::new();
    assert(empty@ =~= Seq::empty());
    let base_dir = match parent(&skill.path) {
        Some(d) => d,
        None => empty,
    };
    LoadedSkill {
        name: skill.name.clone(),
        description,
        file_path: skill.path.clone(),
        base_dir,
        source,
        hide: has_true(&skill.frontmatter, "hide") || has_true(
            &skill.frontmatter,
            "disableModelInvocation",
        ),
        meta,
    }
}

/// The provider and the level that a source names: what stands before and behind the first colon.
pub open spec fn source_parts(source: Seq<char>) -> (Seq<char>, Level) {
    let (provider, rest) = match text::find_char(source, ':', 0) {
        Some(i) => (source.take(i), Some(source.skip(i + 1))),
        None => (source, None),
    };
    (
        if provider.len() > 0 { provider } else { "custom"@ },
        if rest == Some("project"@) { Level::Project } else { Level::User },
    )
}

fn split_source(source: &str) -> (r: (String, Level))
    ensures
        (r.0@, r.1) == source_parts(source@),
{
    let v = to_chars(source);
    let n: usize = v.len();
    proof {
        text::lemma_find_char(v@, ':', 0);
    }
    let (provider, level) = match text::find_char_at(&v, ':', 0) {
        Some(i) => {
            let head = slice_string(&v, 0, i);
            let tail = slice_string(&v, i + 1, n);
            assert(head@ =~= source@.take(i as int));
            assert(tail@ =~= source@.skip(i as int + 1));
            let level = if same_text(&tail, "project") { Level::Project } else { Level::User };
            (head, level)
        },
        None => (source.to_string(), Level::User),
    };
    if to_chars(&provider).len() > 0 {
        (provider, level)
    } else {
        ("custom".to_string(), level)
    }
}

/// The skills of a scan as they are offered.
pub open spec fn all_offered(items: Seq<SkillView>, source: Seq<char>) -> Seq<LoadedSkillView> {
    items.map_values(|s: SkillView| offered(s, source, s.source))
}

/// The warnings of a directory.
pub open spec fn warnings_of(dir: Seq<char>, messages: Seq<Seq<char>>) -> Seq<SkillWarningView> {
    messages.map_values(|m: Seq<char>| SkillWarningView { skill_path: dir, message: m })
}

fn push_warnings(out: &mut Vec<SkillWarning>, dir: &str, messages: &Vec<String>)
    ensures
        text::views(final(out)@) == text::views(old(out)@) + warnings_of(
            dir@,
            text::views(messages@),
        ),
{
    let ghost before = text::views(out@);
    let ghost all = warnings_of(dir@, text::views(messages@));
    let mut i: usize = 0;
    assert(before + all.take(0) =~= before);
    while i < messages.len()
        invariant
            i <= messages@.len(),
            all == warnings_of(dir@, text::views(messages@)),
            text::views(out@) == before + all.take(i as int),
        decreases messages@.len() - i,
    {
        let w = SkillWarning { skill_path: dir.to_string(), message: messages[i].clone() };
        proof {
            text::lemma_views_push(out@, w);
            assert(all[i as int] == w@);
            assert(before + all.take(i as int + 1) =~= (before + all.take(i as int)).push(w@));
        }
        out.push(w);
        i += 1;
    }
    assert(all.take(i as int) =~= all);
}

/// The skills of one directory, of which descriptions are required, as they are offered.
pub fn load_skills_from_dir(fs: &mut FsCache, dir: &str, source: &str) -> (r: (
    Vec<LoadedSkill>,
    Vec<SkillWarning>,
))
    ensures
        final(fs)@ == old(fs)@,
        ({
            let (provider, level) = source_parts(source@);
            let scan = scanned(
                old(fs)@,
                dir@,
                AimView { current: old(fs)@.current, provider, level, require_description: true },
            );
            &&& text::views(r.0@) == all_offered(scan.items, source@)
            &&& text::views(r.1@) == warnings_of(dir@, scan.warnings)
        }),
        files::only_adds(old(fs).wanted@, final(fs).wanted@),
        files::asked_nothing(old(fs).wanted@, final(fs).wanted@) ==> forall|more: FsView| #[trigger]
            files::extends(more, old(fs)@) ==>
                scanned(more, dir@, (AimView { current: old(fs)@.current, provider: source_parts(source@).0, level: source_parts(source@).1, require_description: true }))
                    == scanned(old(fs)@, dir@, (AimView { current: old(fs)@.current, provider: source_parts(source@).0, level: source_parts(source@).1, require_description: true })),
{
    let (provider, level) = split_source(source);
    let scan = scan_skills_from_dir(fs, dir, &provider, level, true);
    let ghost done = all_offered(text::views(scan.items@), source@);
    let mut skills: Vec<LoadedSkill> = Vec::new();
    let mut i: usize = 0;
    assert(text::views(skills@) =~= done.take(0));
    while i < scan.items.len()
        invariant
            i <= scan.items@.len(),
            done == all_offered(text::views(scan.items@), source@),
            text::views(skills@) == done.take(i as int),
        decreases scan.items@.len() - i,
    {
        let s = offer(&scan.items[i], source.to_string(), scan.items[i].source.clone());
        proof {
            text::lemma_views_push(skills@, s);
            assert(done[i as int] == s@);
            assert(done.take(i as int + 1) =~= done.take(i as int).push(s@));
        }
        skills.push(s);
        i += 1;
    }
    assert(done.take(i as int) =~= done);
    let mut warnings: Vec<SkillWarning> = Vec::new();
    assert(text::views(warnings@) =~= Seq::empty());
    push_warnings(&mut warnings, dir, &scan.warnings);
    assert(text::views(warnings@) =~= warnings_of(dir@, text::views(scan.warnings@)));
    (skills, warnings)
}

/// A path with `~` replaced by the home directory.
pub open spec fn untilded(path: Seq<char>, home: Seq<char>) -> Seq<char> {
    if path == seq!['~'] {
        home
    } else if path.len() >= 2 && path[0] == '~' && (path[1] == '/' || path[1] == '\\') {
        home + path.skip(1)
    } else if path.len() >= 1 && path[0] == '~' {
        paths::joined(home, path.skip(1))
    } else {
        path
    }
}

/// A path with `~` replaced by the home directory.
pub fn expand_tilde(path: &str, home: &str) -> (r: String)
    ensures
        r@ == untilded(path@, home@),
{
    let v = to_chars(path);
    let n: usize = v.len();
    if n == 0 || v[0] != '~' {
        assert(path@ != seq!['~']) by {
            if path@ == seq!['~'] {
                assert(path@.len() == 1 && path@[0] == '~');
            }
        }
        return path.to_string();
    }
    if n == 1 {
        assert(path@ =~= seq!['~']);
        return home.to_string();
    }
    let rest = slice_string(&v, 1, n);
    assert(rest@ =~= path@.skip(1));
    if v[1] == '/' || v[1] == '\\' {
        text::concat(home, &rest)
    } else {
        join_path(home, &rest)
    }
}

/// Whether a glob of `globset` matches a name: nothing where the glob is none, or compiles to more
/// than a regular expression may hold.
pub uninterp spec fn glob_match(pattern: Seq<char>, name: Seq<char>) -> Option<bool>;

/// `globset::Glob::new` and `globset::GlobMatcher::is_match`. `globset::Glob::compile_matcher`
/// panics where the regular expression of the glob is too large or too deeply nested, so
/// `regex::bytes::RegexBuilder::build`, which has the same limits, is asked first. The outcome is
/// named [`glob_match`].
#[verifier::external_body]
fn match_glob(pattern: &str, name: &str) -> (r: Option<bool>)
    ensures
        r == glob_match(pattern@, name@),
{
    let glob = globset::Glob::new(pattern).ok()?;
    regex::bytes::RegexBuilder::new(glob.regex()).dot_matches_new_line(true).build().ok()?;
    Some(glob.compile_matcher().is_match(name))
}

/// Whether any of the globs matches a name.
pub open spec fn any_glob(patterns: Seq<Seq<char>>, name: Seq<char>) -> bool {
    exists|i: int| 0 <= i < patterns.len() && glob_match(#[trigger] patterns[i], name) == Some(true)
}

/// Whether any of the globs matches a name.
pub fn glob_matches(patterns: &Vec<String>, name: &str) -> (r: bool)
    ensures
        r == any_glob(text::views(patterns@), name@),
{
    let ghost all = text::views(patterns@);
    let mut i: usize = 0;
    while i < patterns.len()
        invariant
            i <= patterns@.len(),
            all == text::views(patterns@),
            forall|j: int|
                0 <= j < i ==> glob_match(#[trigger] all[j], name@) != Some(true),
        decreases patterns@.len() - i,
    {
        assert(all[i as int] == patterns@[i as int]@);
        match match_glob(&patterns[i], name) {
            Some(true) => {
                assert(any_glob(all, name@));
                return true;
            },
            _ => {},
        }
        i += 1;
    }
    false
}

/// Whether the settings want skills of a name.
pub open spec fn is_wanted(s: SkillsSettingsView, name: Seq<char>) -> bool {
    &&& !s.disabled_extensions.contains("skill:"@ + name)
    &&& !any_glob(s.ignored_skills, name)
    &&& s.include_skills.len() == 0 || any_glob(s.include_skills, name)
}

fn wanted(s: &SkillsSettings, name: &str) -> (r: bool)
    ensures
        r == is_wanted(s@, name@),
{
    !contains_text(&s.disabled_extensions, &text::concat("skill:", name)) && !glob_matches(
        &s.ignored_skills,
        name,
    ) && (s.include_skills.len() == 0 || glob_matches(&s.include_skills, name))
}

/// Whether the settings want skills of a source.
pub open spec fn source_enabled(
    ctx: LoadContextView,
    s: SkillsSettingsView,
    meta: SourceMetaView,
) -> bool {
    let p = meta.provider;
    let user = meta.level == Level::User;
    let project = meta.level == Level::Project;
    if p == "codex"@ && user {
        s.enable_codex_user || capability::user_source_enabled(ctx, "codex"@)
    } else if p == foreign::id() && user {
        s.enable_claude_user || capability::user_source_enabled(ctx, foreign::id())
    } else if p == foreign::id() && project {
        s.enable_claude_project
    } else if p == "native"@ && user {
        s.enable_native_user
    } else if p == "native"@ && project {
        s.enable_native_project
    } else if p == "agents"@ && user {
        s.enable_agents_user
    } else if p == "agents"@ && project {
        s.enable_agents_project
    } else if user {
        capability::user_source_enabled(ctx, p)
    } else {
        true
    }
}

fn is_source_enabled(ctx: &LoadContext, s: &SkillsSettings, meta: &SourceMeta) -> (r: bool)
    ensures
        r == source_enabled(ctx@, s@, meta@),
{
    let p = &meta.provider;
    let user = meta.level == Level::User;
    let project = meta.level == Level::Project;
    if same_text(p, "codex") && user {
        s.enable_codex_user || ctx.is_user_source_enabled("codex")
    } else if same_text(p, &foreign::id_text()) && user {
        s.enable_claude_user || ctx.is_user_source_enabled(&foreign::id_text())
    } else if same_text(p, &foreign::id_text()) && project {
        s.enable_claude_project
    } else if same_text(p, "native") && user {
        s.enable_native_user
    } else if same_text(p, "native") && project {
        s.enable_native_project
    } else if same_text(p, "agents") && user {
        s.enable_agents_user
    } else if same_text(p, "agents") && project {
        s.enable_agents_project
    } else if user {
        ctx.is_user_source_enabled(p)
    } else {
        true
    }
}

/// The skills chosen so far, with their real paths, the names that were seen, and warnings.
#[derive(Debug)]
pub struct Chosen {
    pub skills: Vec<LoadedSkill>,
    pub reals: Vec<String>,
    pub names: Vec<String>,
    pub warnings: Vec<SkillWarning>,
}

/// What a [`Chosen`] stands for.
#[verifier::ext_equal]
pub struct ChosenView {
    pub skills: Seq<LoadedSkillView>,
    pub reals: Seq<Seq<char>>,
    pub names: Seq<Seq<char>>,
    pub warnings: Seq<SkillWarningView>,
}

impl View for Chosen {
    type V = ChosenView;

    open spec fn view(&self) -> ChosenView {
        ChosenView {
            skills: text::views(self.skills@),
            reals: text::views(self.reals@),
            names: text::views(self.names@),
            warnings: text::views(self.warnings@),
        }
    }
}

impl Clone for Chosen {
    fn clone(&self) -> (r: Chosen)
        ensures
            r@ == self@,
    {
        Chosen {
            skills: clone_all(&self.skills),
            reals: clone_strings(&self.reals),
            names: clone_strings(&self.names),
            warnings: clone_all(&self.warnings),
        }
    }
}

/// No skill is chosen.
pub open spec fn none_chosen() -> ChosenView {
    ChosenView {
        skills: Seq::empty(),
        reals: Seq::empty(),
        names: Seq::empty(),
        warnings: Seq::empty(),
    }
}

/// The choice after a skill of a provider: the first of its name that is wanted counts, unless its
/// file is there already under another path.
pub open spec fn choose_default(
    c: ChosenView,
    fs: FsView,
    ctx: LoadContextView,
    s: SkillsSettingsView,
    skill: SkillView,
) -> ChosenView {
    if !is_wanted(s, skill.name) || !source_enabled(ctx, s, skill.source) || c.names.contains(
        skill.name,
    ) {
        c
    } else {
        let seen = ChosenView { names: c.names.push(skill.name), ..c };
        let path = files::real_at(fs, skill.path);
        if paths::holds_place(c.reals, path) {
            seen
        } else {
            ChosenView {
                skills: c.skills.push(
                    offered(
                        skill,
                        skill.source.provider + ":"@ + capability::level_word(skill.level),
                        skill.source,
                    ),
                ),
                reals: c.reals.push(path),
                ..seen
            }
        }
    }
}

/// The choice after the skills of the providers.
pub open spec fn choose_defaults(
    fs: FsView,
    ctx: LoadContextView,
    s: SkillsSettingsView,
    all: Seq<(SkillView, bool)>,
) -> ChosenView
    decreases all.len(),
{
    if all.len() == 0 {
        none_chosen()
    } else {
        choose_default(choose_defaults(fs, ctx, s, all.drop_last()), fs, ctx, s, all.last().0)
    }
}

/// The index of the first skill of a name, from `i` on.
pub open spec fn find_named(skills: Seq<LoadedSkillView>, name: Seq<char>, i: int) -> Option<int>
    decreases skills.len() - i,
{
    if i < 0 || i >= skills.len() {
        None
    } else if skills[i].name == name {
        Some(i)
    } else {
        find_named(skills, name, i + 1)
    }
}

/// What is wrong with a second skill of a name.
pub open spec fn collision(skill: SkillView, other: LoadedSkillView) -> SkillWarningView {
    SkillWarningView {
        skill_path: skill.path,
        message: "name collision: \""@ + skill.name + "\" already loaded from "@
            + other.file_path + ", skipping this one"@,
    }
}

/// The choice after a skill of a custom directory: it replaces one of a provider with its name, and
/// gives way to one of an earlier custom directory.
pub open spec fn choose_custom(c: ChosenView, fs: FsView, skill: SkillView) -> ChosenView {
    let path = files::real_at(fs, skill.path);
    let entry = offered(
        skill,
        "custom:user"@,
        SourceMetaView { provider_name: "Custom"@, ..skill.source },
    );
    if paths::holds_place(c.reals, path) {
        c
    } else {
        match find_named(c.skills, skill.name, 0) {
            None => ChosenView { skills: c.skills.push(entry), reals: c.reals.push(path), ..c },
            Some(i) => if text::stands_at(c.skills[i].source, 0, "custom:"@) {
                ChosenView { warnings: c.warnings.push(collision(skill, c.skills[i])), ..c }
            } else {
                ChosenView {
                    skills: c.skills.update(i, entry),
                    reals: c.reals.push(path),
                    ..c
                }
            },
        }
    }
}

/// The choice after the skills of custom directories.
pub open spec fn choose_customs(c: ChosenView, fs: FsView, skills: Seq<SkillView>) -> ChosenView
    decreases skills.len(),
{
    if skills.len() == 0 {
        c
    } else {
        choose_custom(choose_customs(c, fs, skills.drop_last()), fs, skills.last())
    }
}

/// The skills that the settings want.
pub open spec fn wanted_ones(s: SkillsSettingsView, skills: Seq<SkillView>) -> Seq<SkillView>
    decreases skills.len(),
{
    if skills.len() == 0 {
        Seq::empty()
    } else {
        let have = wanted_ones(s, skills.drop_last());
        if is_wanted(s, skills.last().name) {
            have.push(skills.last())
        } else {
            have
        }
    }
}

/// The scan of a custom directory.
pub open spec fn custom_scan(fs: FsView, dir: Seq<char>) -> ScanView {
    scanned(
        fs,
        dir,
        AimView {
            current: fs.current,
            provider: "custom"@,
            level: Level::User,
            require_description: true,
        },
    )
}

/// The wanted skills of custom directories, and their warnings.
pub open spec fn custom_skills(
    fs: FsView,
    home: Seq<char>,
    s: SkillsSettingsView,
    dirs: Seq<Seq<char>>,
) -> (Seq<SkillView>, Seq<SkillWarningView>)
    decreases dirs.len(),
{
    if dirs.len() == 0 {
        (Seq::empty(), Seq::empty())
    } else {
        let have = custom_skills(fs, home, s, dirs.drop_last());
        let dir = untilded(dirs.last(), home);
        let scan = custom_scan(fs, dir);
        (
            have.0 + wanted_ones(s, scan.items),
            have.1 + warnings_of(dir, scan.warnings),
        )
    }
}

/// What the providers of skills are given.
pub open spec fn skills_context(d: DiscoveryView, cwd: Seq<char>, s: SkillsSettingsView) -> LoadContextView {
    LoadContextView {
        skill_toggles: SkillToggles {
            claude_user: s.enable_claude_user,
            codex_user: s.enable_codex_user,
        },
        ..project::context_at(d, cwd)
    }
}

/// The skills that are offered, in order, and what is wrong.
pub open spec fn offered_skills(d: DiscoveryView, cwd: Seq<char>, s: SkillsSettingsView) -> (
    Seq<LoadedSkillView>,
    Seq<SkillWarningView>,
) {
    if !s.enabled {
        (Seq::empty(), Seq::empty())
    } else {
        let ctx = skills_context(d, cwd, s);
        let result = skills_found(
            d.fs,
            ctx,
            d.skills.providers,
            project::without_extensions(s.disabled_extensions),
        );
        let base = choose_defaults(d.fs, ctx, s, result.all);
        let custom = custom_skills(d.fs, d.home, s, s.custom_directories);
        let c = choose_customs(
            ChosenView { warnings: base.warnings + custom.1, ..base },
            d.fs,
            custom.0,
        );
        (
            placed::<LoadedSkill>(c.skills),
            warnings_of(Seq::empty(), result.warnings) + c.warnings,
        )
    }
}

fn position_named(skills: &Vec<LoadedSkill>, name: &str) -> (r: Option<usize>)
    ensures
        match r {
            Some(i) => find_named(text::views(skills@), name@, 0) == Some(i as int) && i
                < skills@.len(),
            None => find_named(text::views(skills@), name@, 0) is None,
        },
{
    let ghost all = text::views(skills@);
    let mut i: usize = 0;
    while i < skills.len()
        invariant
            i <= skills@.len(),
            all == text::views(skills@),
            find_named(all, name@, 0) == find_named(all, name@, i as int),
        decreases skills@.len() - i,
    {
        assert(all[i as int] == skills@[i as int]@);
        if same_text(&skills[i].name, name) {
            return Some(i);
        }
        i += 1;
    }
    None
}

impl Chosen {
    fn take_default(
        &mut self,
        fs: &mut FsCache,
        ctx: &LoadContext,
        s: &SkillsSettings,
        skill: &Skill,
    )
        ensures
            final(fs)@ == old(fs)@,
            final(self)@ == choose_default(old(self)@, old(fs)@, ctx@, s@, skill@),
            files::only_adds(old(fs).wanted@, final(fs).wanted@),
            files::asked_nothing(old(fs).wanted@, final(fs).wanted@) ==> forall|more: FsView| #[trigger]
                files::extends(more, old(fs)@) ==>
                    choose_default(old(self)@, more, ctx@, s@, skill@)
                        == choose_default(old(self)@, old(fs)@, ctx@, s@, skill@),
    {
        if !wanted(s, &skill.name) || !is_source_enabled(ctx, s, &skill.source) || contains_text(
            &self.names,
            &skill.name,
        ) {
            return;
        }
        let name = skill.name.clone();
        proof {
            text::lemma_views_push(self.names@, name);
        }
        self.names.push(name);
        let path = fs.real_path(&skill.path);
        if paths::contains_place(&self.reals, &path) {
            return;
        }
        let mut source = skill.source.provider.clone();
        source.append(":");
        source.append(skill.level.as_str());
        let entry = offer(skill, source, skill.source.clone());
        proof {
            text::lemma_views_push(self.skills@, entry);
            text::lemma_views_push(self.reals@, path);
        }
        self.skills.push(entry);
        self.reals.push(path);
    }

    fn take_custom(&mut self, fs: &mut FsCache, skill: &Skill)
        ensures
            final(fs)@ == old(fs)@,
            final(self)@ == choose_custom(old(self)@, old(fs)@, skill@),
            files::only_adds(old(fs).wanted@, final(fs).wanted@),
            files::asked_nothing(old(fs).wanted@, final(fs).wanted@) ==> forall|more: FsView| #[trigger]
                files::extends(more, old(fs)@) ==>
                    choose_custom(old(self)@, more, skill@)
                        == choose_custom(old(self)@, old(fs)@, skill@),
    {
        let path = fs.real_path(&skill.path);
        if paths::contains_place(&self.reals, &path) {
            return;
        }
        let mut meta = skill.source.clone();
        meta.provider_name = "Custom".to_string();
        let entry = offer(skill, "custom:user".to_string(), meta);
        match position_named(&self.skills, &skill.name) {
            None => {
                proof {
                    text::lemma_views_push(self.skills@, entry);
                    text::lemma_views_push(self.reals@, path);
                }
                self.skills.push(entry);
                self.reals.push(path);
            },
            Some(i) => {
                let source = to_chars(&self.skills[i].source);
                if is_at(&source, 0, "custom:") {
                    let mut m = "name collision: \"".to_string();
                    m.append(&skill.name);
                    m.append("\" already loaded from ");
                    m.append(&self.skills[i].file_path);
                    m.append(", skipping this one");
                    let w = SkillWarning { skill_path: skill.path.clone(), message: m };
                    proof {
                        text::lemma_views_push(self.warnings@, w);
                    }
                    self.warnings.push(w);
                } else {
                    let ghost before = text::views(self.skills@);
                    proof {
                        text::lemma_views_push(self.reals@, path);
                    }
                    self.skills.set(i, entry);
                    assert(text::views(self.skills@) =~= before.update(i as int, entry@));
                    self.reals.push(path);
                }
            },
        }
    }
}

fn choose_all(
    fs: &mut FsCache,
    ctx: &LoadContext,
    s: &SkillsSettings,
    all: &Vec<(Skill, bool)>,
) -> (r: Chosen)
    ensures
        final(fs)@ == old(fs)@,
        r@ == choose_defaults(old(fs)@, ctx@, s@, capability::flagged(all@)),
        files::only_adds(old(fs).wanted@, final(fs).wanted@),
        files::asked_nothing(old(fs).wanted@, final(fs).wanted@) ==> forall|more: FsView| #[trigger]
            files::extends(more, old(fs)@) ==>
                choose_defaults(more, ctx@, s@, capability::flagged(all@))
                    == choose_defaults(old(fs)@, ctx@, s@, capability::flagged(all@)),
{
    let ghost known = fs@;
    let ghost f = capability::flagged(all@);
    let mut c = Chosen {
        skills: Vec::new(),
        reals: Vec::new(),
        names: Vec::new(),
        warnings: Vec::new(),
    };
    let mut i: usize = 0;
    proof {
        assert(f.take(0) =~= Seq::<(SkillView, bool)>::empty());
        assert(c@ =~= none_chosen());
    }
    while i < all.len()
        invariant
            i <= all@.len(),
            fs@ == known,
            known == old(fs)@,
            f == capability::flagged(all@),
            c@ == choose_defaults(known, ctx@, s@, f.take(i as int)),
            files::only_adds(old(fs).wanted@, fs.wanted@),
            files::asked_nothing(old(fs).wanted@, fs.wanted@) ==> forall|more: FsView| #[trigger]
                files::extends(more, known) ==>
                    choose_defaults(more, ctx@, s@, f.take(i as int))
                        == choose_defaults(known, ctx@, s@, f.take(i as int)),
        decreases all@.len() - i,
    {
        proof {
            assert(f.take(i as int + 1).drop_last() =~= f.take(i as int));
            assert(f.take(i as int + 1).last() == (all@[i as int].0@, all@[i as int].1));
        }
        c.take_default(fs, ctx, s, &all[i].0);
        i += 1;
    }
    assert(f.take(i as int) =~= f);
    c
}

fn keep_wanted(s: &SkillsSettings, skills: &Vec<Skill>) -> (r: Vec<Skill>)
    ensures
        text::views(r@) == wanted_ones(s@, text::views(skills@)),
{
    let ghost all = text::views(skills@);
    let mut out: Vec<Skill> = Vec::new();
    let mut i: usize = 0;
    proof {
        assert(all.take(0) =~= Seq::<SkillView>::empty());
        assert(text::views(out@) =~= Seq::empty());
    }
    while i < skills.len()
        invariant
            i <= skills@.len(),
            all == text::views(skills@),
            text::views(out@) == wanted_ones(s@, all.take(i as int)),
        decreases skills@.len() - i,
    {
        proof {
            assert(all.take(i as int + 1).drop_last() =~= all.take(i as int));
            assert(all.take(i as int + 1).last() == skills@[i as int]@);
        }
        if wanted(s, &skills[i].name) {
            let k = skills[i].clone();
            proof {
                text::lemma_views_push(out@, k);
            }
            out.push(k);
        }
        i += 1;
    }
    assert(all.take(i as int) =~= all);
    out
}

fn scan_custom(fs: &mut FsCache, home: &str, s: &SkillsSettings) -> (r: (
    Vec<Skill>,
    Vec<SkillWarning>,
))
    ensures
        final(fs)@ == old(fs)@,
        (text::views(r.0@), text::views(r.1@)) == custom_skills(
            old(fs)@,
            home@,
            s@,
            s@.custom_directories,
        ),
        files::only_adds(old(fs).wanted@, final(fs).wanted@),
        files::asked_nothing(old(fs).wanted@, final(fs).wanted@) ==> forall|more: FsView| #[trigger]
            files::extends(more, old(fs)@) ==>
                custom_skills(more, home@, s@, s@.custom_directories)
                    == custom_skills(old(fs)@, home@, s@, s@.custom_directories),
{
    proof {
        files::lemma_extends_current(fs@);
    }
    let ghost known = fs@;
    let ghost all = s@.custom_directories;
    let mut skills: Vec<Skill> = Vec::new();
    let mut warnings: Vec<SkillWarning> = Vec::new();
    let mut i: usize = 0;
    proof {
        assert(all.take(0) =~= Seq::<Seq<char>>::empty());
        assert(text::views(skills@) =~= Seq::empty());
        assert(text::views(warnings@) =~= Seq::empty());
    }
    while i < s.custom_directories.len()
        invariant
            i <= s.custom_directories@.len(),
            fs@ == known,
            known == old(fs)@,
            all == text::views(s.custom_directories@),
            (text::views(skills@), text::views(warnings@)) == custom_skills(
                known,
                home@,
                s@,
                all.take(i as int),
            ),
            forall|more: FsView| #[trigger]
                files::extends(more, known) ==> more.current == known.current,
            files::only_adds(old(fs).wanted@, fs.wanted@),
            files::asked_nothing(old(fs).wanted@, fs.wanted@) ==> forall|more: FsView| #[trigger]
                files::extends(more, known) ==>
                    custom_skills(more, home@, s@, all.take(i as int))
                        == custom_skills(known, home@, s@, all.take(i as int)),
        decreases s.custom_directories@.len() - i,
    {
        proof {
            assert(all.take(i as int + 1).drop_last() =~= all.take(i as int));
            assert(all.take(i as int + 1).last() == s.custom_directories@[i as int]@);
        }
        let dir = expand_tilde(&s.custom_directories[i], home);
        let scan = scan_skills_from_dir(fs, &dir, "custom", Level::User, true);
        append_skills(&mut skills, &keep_wanted(s, &scan.items));
        push_warnings(&mut warnings, &dir, &scan.warnings);
        i += 1;
    }
    assert(all.take(i as int) =~= all);
    (skills, warnings)
}

fn append_warnings(out: &mut Vec<SkillWarning>, more: &Vec<SkillWarning>)
    ensures
        text::views(final(out)@) == text::views(old(out)@) + text::views(more@),
{
    let ghost before = text::views(out@);
    let ghost all = text::views(more@);
    let mut i: usize = 0;
    assert(before + all.take(0) =~= before);
    while i < more.len()
        invariant
            i <= more@.len(),
            all == text::views(more@),
            text::views(out@) == before + all.take(i as int),
        decreases more@.len() - i,
    {
        let m = more[i].clone();
        proof {
            text::lemma_views_push(out@, m);
            assert(before + all.take(i as int + 1) =~= (before + all.take(i as int)).push(m@));
        }
        out.push(m);
        i += 1;
    }
    assert(all.take(i as int) =~= all);
}

impl Discovery {
    /// The skills that are offered, in order, and what is wrong: the first wanted skill of each name,
    /// each file once, and custom directories before the providers.
    pub fn load_skills(&mut self, cwd: &str, settings: &SkillsSettings) -> (r: (
        Vec<LoadedSkill>,
        Vec<SkillWarning>,
    ))
        ensures
            final(self)@ == old(self)@,
            (text::views(r.0@), text::views(r.1@)) == offered_skills(
                old(self)@,
                cwd@,
                settings@,
            ),
            files::only_adds(old(self).fs.wanted@, final(self).fs.wanted@),
            files::asked_nothing(old(self).fs.wanted@, final(self).fs.wanted@) ==> forall|more: FsView| #[trigger]
                files::extends(more, old(self)@.fs) ==>
                    offered_skills((DiscoveryView { fs: more, ..old(self)@ }), cwd@, settings@)
                        == offered_skills(old(self)@, cwd@, settings@),
    {
        let ghost d = self@;
        let mut warnings: Vec<SkillWarning> = Vec::new();
        assert(text::views(warnings@) =~= Seq::empty());
        if !settings.enabled {
            let none: Vec<LoadedSkill> = Vec::new();
            assert(text::views(none@) =~= Seq::empty());
            return (none, warnings);
        }
        let mut ctx = self.context(cwd);
        ctx.skill_toggles = SkillToggles {
            claude_user: settings.enable_claude_user,
            codex_user: settings.enable_codex_user,
        };
        let mut options = LoadOptions::default();
        options.disabled_extensions = clone_strings(&settings.disabled_extensions);
        assert(options@ =~= project::without_extensions(settings@.disabled_extensions));
        let result = load(&mut self.fs, &ctx, &self.skills, &options);
        let mut c = choose_all(&mut self.fs, &ctx, settings, &result.all);
        let (custom, more) = scan_custom(&mut self.fs, &self.home, settings);
        append_warnings(&mut c.warnings, &more);
        let ghost base = c@;
        let ghost all = text::views(custom@);
        let mut i: usize = 0;
        assert(all.take(0) =~= Seq::<SkillView>::empty());
        let ghost asked = self.fs.wanted@;
        while i < custom.len()
            invariant
                i <= custom@.len(),
                self@ == d,
                d == old(self)@,
                all == text::views(custom@),
                c@ == choose_customs(base, d.fs, all.take(i as int)),
                files::only_adds(old(self).fs.wanted@, asked),
                files::only_adds(asked, self.fs.wanted@),
                files::asked_nothing(asked, self.fs.wanted@) ==> forall|more: FsView| #[trigger]
                    files::extends(more, d.fs) ==> choose_customs(base, more, all.take(i as int))
                        == choose_customs(base, d.fs, all.take(i as int)),
            decreases custom@.len() - i,
        {
            proof {
                assert(all.take(i as int + 1).drop_last() =~= all.take(i as int));
                assert(all.take(i as int + 1).last() == custom@[i as int]@);
            }
            c.take_custom(&mut self.fs, &custom[i]);
            i += 1;
        }
        assert(all.take(i as int) =~= all);
        proof {
            reveal_strlit("");
            assert(""@ =~= Seq::empty());
        }
        push_warnings(&mut warnings, "", &result.warnings);
        assert(text::views(warnings@) =~= warnings_of(Seq::empty(), result@.warnings));
        append_warnings(&mut warnings, &c.warnings);
        (sort_placed(c.skills), warnings)
    }
}

// ------------------------------------------------------------------ laws

/// No two skills have the same name.
pub open spec fn distinct_names(skills: Seq<LoadedSkillView>) -> bool {
    forall|i: int, j: int|
        0 <= i < j < skills.len() ==> (#[trigger] skills[i]).name != (#[trigger] skills[j]).name
}

/// Every name of a skill was seen.
pub open spec fn names_seen(c: ChosenView) -> bool {
    forall|i: int| 0 <= i < c.skills.len() ==> c.names.contains((#[trigger] c.skills[i]).name)
}

proof fn lemma_defaults_distinct(
    fs: FsView,
    ctx: LoadContextView,
    s: SkillsSettingsView,
    all: Seq<(SkillView, bool)>,
)
    ensures
        distinct_names(choose_defaults(fs, ctx, s, all).skills),
        names_seen(choose_defaults(fs, ctx, s, all)),
    decreases all.len(),
{
    if all.len() > 0 {
        lemma_defaults_distinct(fs, ctx, s, all.drop_last());
        let c = choose_defaults(fs, ctx, s, all.drop_last());
        let skill = all.last().0;
        let next = choose_default(c, fs, ctx, s, skill);
        let names = c.names.push(skill.name);
        assert forall|n: Seq<char>| c.names.contains(n) implies names.contains(n) by {
            let k = choose|k: int| 0 <= k < c.names.len() && c.names[k] == n;
            assert(names[k] == n);
        }
        assert(names[c.names.len() as int] == skill.name);
        if next.skills != c.skills {
            assert forall|i: int| 0 <= i < next.skills.len() implies next.names.contains(
                (#[trigger] next.skills[i]).name,
            ) by {
                if i < c.skills.len() {
                    assert(next.skills[i] == c.skills[i]);
                }
            }
        }
    }
}

proof fn lemma_find_named(skills: Seq<LoadedSkillView>, name: Seq<char>, i: int)
    requires
        0 <= i,
    ensures
        match find_named(skills, name, i) {
            Some(k) => i <= k < skills.len() && skills[k].name == name,
            None => forall|k: int| i <= k < skills.len() ==> (#[trigger] skills[k]).name != name,
        },
    decreases skills.len() - i,
{
    if i < skills.len() && skills[i].name != name {
        lemma_find_named(skills, name, i + 1);
    }
}

proof fn lemma_customs_distinct(c: ChosenView, fs: FsView, skills: Seq<SkillView>)
    requires
        distinct_names(c.skills),
    ensures
        distinct_names(choose_customs(c, fs, skills).skills),
    decreases skills.len(),
{
    if skills.len() > 0 {
        lemma_customs_distinct(c, fs, skills.drop_last());
        let before = choose_customs(c, fs, skills.drop_last());
        lemma_find_named(before.skills, skills.last().name, 0);
    }
}

proof fn lemma_placed_in_distinct(list: Seq<LoadedSkillView>, v: LoadedSkillView)
    requires
        distinct_names(list),
        forall|i: int| 0 <= i < list.len() ==> (#[trigger] list[i]).name != v.name,
    ensures
        distinct_names(placed_in::<LoadedSkill>(list, v)),
        forall|i: int|
            0 <= i < placed_in::<LoadedSkill>(list, v).len() ==> (#[trigger] placed_in::<
                LoadedSkill,
            >(list, v)[i] == v || list.contains(placed_in::<LoadedSkill>(list, v)[i])),
    decreases list.len(),
{
    let after = placed_in::<LoadedSkill>(list, v);
    if list.len() == 0 || !comes_after::<LoadedSkill>(list.last(), v) {
        assert forall|i: int| 0 <= i < after.len() implies (#[trigger] after[i] == v
            || list.contains(after[i])) by {
            if i < list.len() {
                assert(after[i] == list[i]);
            }
        }
    } else {
        let t = list.drop_last();
        assert forall|i: int, j: int| 0 <= i < j < t.len() implies (#[trigger] t[i]).name != (
        #[trigger] t[j]).name by {
            assert(t[i] == list[i] && t[j] == list[j]);
        }
        assert forall|i: int| 0 <= i < t.len() implies (#[trigger] t[i]).name != v.name by {
            assert(t[i] == list[i]);
        }
        lemma_placed_in_distinct(t, v);
        let inner = placed_in::<LoadedSkill>(t, v);
        assert forall|i: int| 0 <= i < after.len() implies (#[trigger] after[i] == v
            || list.contains(after[i])) by {
            if i < inner.len() {
                assert(after[i] == inner[i]);
                if inner[i] != v {
                    let k = choose|k: int| 0 <= k < t.len() && t[k] == inner[i];
                    assert(list[k] == after[i]);
                }
            } else {
                assert(list[list.len() - 1] == after[i]);
            }
        }
        assert forall|i: int, j: int| 0 <= i < j < after.len() implies (#[trigger] after[i]).name
            != (#[trigger] after[j]).name by {
            assert(after[i] == inner[i]);
            if j < inner.len() {
                assert(after[j] == inner[j]);
            } else {
                assert(after[j] == list[list.len() - 1]);
                if inner[i] != v {
                    let k = choose|k: int| 0 <= k < t.len() && t[k] == inner[i];
                    assert(list[k] == after[i]);
                }
            }
        }
    }
}

proof fn lemma_placed_distinct(list: Seq<LoadedSkillView>)
    requires
        distinct_names(list),
    ensures
        distinct_names(placed::<LoadedSkill>(list)),
        forall|i: int|
            0 <= i < placed::<LoadedSkill>(list).len() ==> list.contains(
                #[trigger] placed::<LoadedSkill>(list)[i],
            ),
    decreases list.len(),
{
    if list.len() > 0 {
        let t = list.drop_last();
        assert forall|i: int, j: int| 0 <= i < j < t.len() implies (#[trigger] t[i]).name != (
        #[trigger] t[j]).name by {
            assert(t[i] == list[i] && t[j] == list[j]);
        }
        lemma_placed_distinct(t);
        let inner = placed::<LoadedSkill>(t);
        assert forall|i: int| 0 <= i < inner.len() implies (#[trigger] inner[i]).name
            != list.last().name by {
            let k = choose|k: int| 0 <= k < t.len() && t[k] == inner[i];
            assert(list[k] == inner[i]);
            assert(list[list.len() - 1] == list.last());
        }
        lemma_placed_in_distinct(inner, list.last());
        let after = placed::<LoadedSkill>(list);
        assert forall|i: int| 0 <= i < after.len() implies list.contains(#[trigger] after[i]) by {
            if after[i] == list.last() {
                assert(list[list.len() - 1] == after[i]);
            } else {
                let m = choose|m: int| 0 <= m < inner.len() && inner[m] == after[i];
                let k = choose|k: int| 0 <= k < t.len() && t[k] == inner[m];
                assert(list[k] == after[i]);
            }
        }
    }
}

/// No two skills that are offered have the same name.
pub proof fn law_offered_names_are_distinct(d: DiscoveryView, cwd: Seq<char>, s: SkillsSettingsView)
    ensures
        distinct_names(offered_skills(d, cwd, s).0),
{
    if s.enabled {
        let ctx = skills_context(d, cwd, s);
        let result = skills_found(
            d.fs,
            ctx,
            d.skills.providers,
            project::without_extensions(s.disabled_extensions),
        );
        lemma_defaults_distinct(d.fs, ctx, s, result.all);
        let base = choose_defaults(d.fs, ctx, s, result.all);
        let custom = custom_skills(d.fs, d.home, s, s.custom_directories);
        let start = ChosenView { warnings: base.warnings + custom.1, ..base };
        lemma_customs_distinct(start, d.fs, custom.0);
        lemma_placed_distinct(choose_customs(start, d.fs, custom.0).skills);
    }
}

proof fn lemma_comes_after<T: Placed>(a: T::V, b: T::V, c: T::V)
    ensures
        comes_after::<T>(a, b) ==> !comes_after::<T>(b, a),
        !comes_after::<T>(a, b) && !comes_after::<T>(b, c) ==> !comes_after::<T>(a, c),
{
    let (x, y, z) = (T::name_of(a), T::name_of(b), T::name_of(c));
    js::law_texts_are_in_total_order(lowercase(x), lowercase(y), lowercase(z));
    js::law_texts_are_in_total_order(x, y, z);
    js::law_texts_are_in_total_order(T::path_of(a), T::path_of(b), T::path_of(c));
}

/// Nothing in a list comes after something behind it.
pub open spec fn is_placed<T: Placed>(list: Seq<T::V>) -> bool {
    forall|i: int, j: int|
        0 <= i < j < list.len() ==> !comes_after::<T>(#[trigger] list[i], #[trigger] list[j])
}

proof fn lemma_placed_in_order<T: Placed>(list: Seq<T::V>, v: T::V)
    requires
        is_placed::<T>(list),
    ensures
        is_placed::<T>(placed_in::<T>(list, v)),
        placed_in::<T>(list, v).to_multiset() == list.to_multiset().insert(v),
    decreases list.len(),
{
    broadcast use vstd::multiset::group_multiset_axioms;

    let after = placed_in::<T>(list, v);
    if list.len() == 0 || !comes_after::<T>(list.last(), v) {
        list.to_multiset_ensures();
        assert forall|i: int, j: int| 0 <= i < j < after.len() implies !comes_after::<T>(
            #[trigger] after[i],
            #[trigger] after[j],
        ) by {
            if j == list.len() {
                let last = list[list.len() - 1];
                if i < list.len() - 1 {
                    assert(!comes_after::<T>(list[i], last));
                    lemma_comes_after::<T>(list[i], last, v);
                }
            } else {
                assert(!comes_after::<T>(list[i], list[j]));
            }
        }
    } else {
        let t = list.drop_last();
        let last = list[list.len() - 1];
        assert forall|i: int, j: int| 0 <= i < j < t.len() implies !comes_after::<T>(
            #[trigger] t[i],
            #[trigger] t[j],
        ) by {
            assert(!comes_after::<T>(list[i], list[j]));
        }
        lemma_placed_in_order::<T>(t, v);
        let inner = placed_in::<T>(t, v);
        inner.to_multiset_ensures();
        t.to_multiset_ensures();
        assert(list =~= t.push(last));
        assert(after.to_multiset() =~= list.to_multiset().insert(v));
        assert forall|i: int, j: int| 0 <= i < j < after.len() implies !comes_after::<T>(
            #[trigger] after[i],
            #[trigger] after[j],
        ) by {
            if j < inner.len() {
                assert(!comes_after::<T>(inner[i], inner[j]));
            } else {
                assert(inner.contains(inner[i]));
                assert(inner.to_multiset().count(inner[i]) > 0);
                lemma_comes_after::<T>(last, v, v);
                if inner[i] != v {
                    assert(t.to_multiset().count(inner[i]) > 0);
                    let k = choose|k: int| 0 <= k < t.len() && t[k] == inner[i];
                    assert(!comes_after::<T>(list[k], last));
                }
            }
        }
    }
}

/// To place things in order keeps each of them, as often as it is there, and puts nothing in front
/// of what it comes after.
pub proof fn law_placing_sorts<T: Placed>(list: Seq<T::V>)
    ensures
        is_placed::<T>(placed::<T>(list)),
        placed::<T>(list).to_multiset() == list.to_multiset(),
    decreases list.len(),
{
    if list.len() > 0 {
        let t = list.drop_last();
        law_placing_sorts::<T>(t);
        lemma_placed_in_order::<T>(placed::<T>(t), list.last());
        t.to_multiset_ensures();
        assert(list =~= t.push(list.last()));
    }
}

/// The skills that are offered are in order: by their names in lower case letters, then by their
/// names, then by their paths.
pub proof fn law_offered_skills_are_in_order(
    d: DiscoveryView,
    cwd: Seq<char>,
    s: SkillsSettingsView,
    i: int,
    j: int,
)
    requires
        0 <= i < j < offered_skills(d, cwd, s).0.len(),
    ensures
        ({
            let (a, b) = (offered_skills(d, cwd, s).0[i], offered_skills(d, cwd, s).0[j]);
            skill_order(a.name, a.file_path, b.name, b.file_path) != Order::Greater
        }),
{
    let ctx = skills_context(d, cwd, s);
    let result = skills_found(
        d.fs,
        ctx,
        d.skills.providers,
        project::without_extensions(s.disabled_extensions),
    );
    let base = choose_defaults(d.fs, ctx, s, result.all);
    let custom = custom_skills(d.fs, d.home, s, s.custom_directories);
    let start = ChosenView { warnings: base.warnings + custom.1, ..base };
    law_placing_sorts::<LoadedSkill>(choose_customs(start, d.fs, custom.0).skills);
    let (a, b) = (offered_skills(d, cwd, s).0[i], offered_skills(d, cwd, s).0[j]);
    assert(!comes_after::<LoadedSkill>(a, b));
}

/// Nothing is offered where skills are off.
pub proof fn law_skills_can_be_off(d: DiscoveryView, cwd: Seq<char>, s: SkillsSettingsView)
    requires
        !s.enabled,
    ensures
        offered_skills(d, cwd, s).0.len() == 0,
        offered_skills(d, cwd, s).1.len() == 0,
{
}

} // verus!
