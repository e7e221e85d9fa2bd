//! Context files: the instruction files of a project and of its user, and where they are found.
use crate::capability;
use crate::capability::{
    found, merge_outcomes, Capability, CapabilityResult, CapabilityResultView, Level, LoadContext, LoadContextView,
    LoadOptions, LoadOptionsView, Outcome, OutcomeView, Provider, ProviderView, SourceMeta, SourceMetaView, Sourced,
};
use crate::files;
use crate::files::{FsCache, FsView};
use crate::foreign;
use crate::paths;
use crate::paths::{ancestors_until, calculate_depth, is_within, join_path, parent, resolve};
use crate::text;
use crate::text::{contains_text, same_text, to_chars};
use vstd::prelude::*;

verus! {

/// An instruction file.
#[derive(Debug, PartialEq)]
pub struct ContextFile {
    pub path: String,
    pub content: String,
    pub level: Level,
    /// How far above the working directory a file of a project lies: zero in it, negative below it.
    pub depth: Option<i64>,
    pub source: SourceMeta,
}

/// What a [`ContextFile`] stands for.
#[verifier::ext_equal]
pub struct ContextFileView {
    pub path: Seq<char>,
    pub content: Seq<char>,
    pub level: Level,
    pub depth: Option<i64>,
    pub source: SourceMetaView,
}

impl View for ContextFile {
    type V = ContextFileView;

    open spec fn view(&self) -> ContextFileView {
        ContextFileView {
            path: self.path@,
            content: self.content@,
            level: self.level,
            depth: self.depth,
            source: self.source@,
        }
    }
}

impl Clone for ContextFile {
    fn clone(&self) -> (r: ContextFile)
        ensures
            r@ == self@,
    {
        ContextFile {
            path: self.path.clone(),
            content: self.content.clone(),
            level: self.level,
            depth: self.depth,
            source: self.source.clone(),
        }
    }
}

/// A file that a provider has just found.
pub open spec fn context_file(
    current: Seq<char>,
    provider: Seq<char>,
    path: Seq<char>,
    content: Seq<char>,
    level: Level,
    depth: Option<i64>,
) -> ContextFileView {
    ContextFileView {
        path,
        content,
        level,
        depth,
        source: capability::source_meta(current, provider, path, level),
    }
}

impl ContextFile {
    /// A file that a provider has just found, seen from `current`.
    pub fn new(
        current: &str,
        provider: &str,
        path: String,
        content: String,
        level: Level,
        depth: Option<i64>,
    ) -> (r: ContextFile)
        ensures
            r@ == context_file(current@, provider@, path@, content@, level, depth),
    {
        let source = SourceMeta::new(current, provider, &path, level);
        ContextFile { path, content, level, depth, source }
    }
}

/// The number of a depth in keys: what lies below the working directory counts as in it.
pub open spec fn scope_of(depth: Option<i64>) -> int {
    match depth {
        Some(d) => if d > 0 { d as int } else { 0 },
        None => 0,
    }
}

impl Sourced for ContextFile {
    /// There is one file of the user, and one file of the project for each depth.
    open spec fn key_of(v: ContextFileView) -> Option<Seq<char>> {
        if v.level == Level::User {
            Some("user"@)
        } else {
            Some("project:"@ + text::decimal(scope_of(v.depth) as nat))
        }
    }

    open spec fn aliases(earlier: ContextFileView, later: ContextFileView) -> bool {
        false
    }

    open spec fn extension_of(v: ContextFileView) -> Option<Seq<char>> {
        Some(
            "context-file:"@ + capability::level_word(v.level) + ":"@ + paths::name_of(v.path),
        )
    }

    open spec fn problem_of(v: ContextFileView) -> Option<Seq<char>> {
        if v.path.len() == 0 {
            Some("Missing path"@)
        } else if v.level == Level::Native {
            Some("Invalid level: must be 'user' or 'project'"@)
        } else {
            None
        }
    }

    open spec fn source_of(v: ContextFileView) -> SourceMetaView {
        v.source
    }

    open spec fn named_by(v: ContextFileView, name: Seq<char>) -> ContextFileView {
        ContextFileView { source: SourceMetaView { provider_name: name, ..v.source }, ..v }
    }

    fn key(&self) -> (r: Option<String>) {
        if self.level == Level::User {
            return Some("user".to_string());
        }
        let scope: u64 = match self.depth {
            Some(d) => if d > 0 { d as u64 } else { 0 },
            None => 0,
        };
        Some(text::concat("project:", &text::decimal_text(scope)))
    }

    fn to_extension_id(&self) -> (r: Option<String>) {
        let mut out = "context-file:".to_string();
        out.append(self.level.as_str());
        out.append(":");
        out.append(&paths::file_name(&self.path));
        Some(out)
    }

    fn validate(&self) -> (r: Option<String>) {
        if to_chars(&self.path).len() == 0 {
            Some("Missing path".to_string())
        } else if self.level == Level::Native {
            Some("Invalid level: must be 'user' or 'project'".to_string())
        } else {
            None
        }
    }

    fn source(&self) -> (r: &SourceMeta) {
        &self.source
    }

    fn set_provider_name(self, name: &str) -> (r: ContextFile) {
        let mut file = self;
        file.source.provider_name = name.to_string();
        file
    }

    fn equivalent(&self, _later: &ContextFile) -> (r: bool) {
        false
    }

    fn duplicate(&self) -> (r: ContextFile) {
        self.clone()
    }
}

// ------------------------------------------------------------------ spots

/// A place where a provider looks.
#[derive(Debug, PartialEq)]
pub struct Spot {
    pub path: String,
    pub level: Level,
    pub depth: Option<i64>,
    /// Whether an empty file counts.
    pub keep_empty: bool,
}

/// What a [`Spot`] stands for.
#[verifier::ext_equal]
pub struct SpotView {
    pub path: Seq<char>,
    pub level: Level,
    pub depth: Option<i64>,
    pub keep_empty: bool,
}

impl View for Spot {
    type V = SpotView;

    open spec fn view(&self) -> SpotView {
        SpotView {
            path: self.path@,
            level: self.level,
            depth: self.depth,
            keep_empty: self.keep_empty,
        }
    }
}

impl Clone for Spot {
    fn clone(&self) -> (r: Spot)
        ensures
            r@ == self@,
    {
        Spot {
            path: self.path.clone(),
            level: self.level,
            depth: self.depth,
            keep_empty: self.keep_empty,
        }
    }
}

/// A place for a file of the user.
pub open spec fn user_spot(path: Seq<char>) -> SpotView {
    SpotView { path, level: Level::User, depth: None, keep_empty: false }
}

/// A place for a file of the project.
pub open spec fn project_spot(path: Seq<char>, depth: int) -> SpotView {
    SpotView { path, level: Level::Project, depth: Some(depth as i64), keep_empty: false }
}

fn at_user(path: String) -> (r: Spot)
    ensures
        r@ == user_spot(path@),
{
    Spot { path, level: Level::User, depth: None, keep_empty: false }
}

fn at_project(path: String, depth: i64) -> (r: Spot)
    ensures
        r@ == project_spot(path@, depth as int),
{
    Spot { path, level: Level::Project, depth: Some(depth), keep_empty: false }
}

/// The files that are at the spots.
pub open spec fn files_at(fs: FsView, provider: Seq<char>, spots: Seq<SpotView>) -> Seq<
    ContextFileView,
>
    decreases spots.len(),
{
    if spots.len() == 0 {
        Seq::empty()
    } else {
        let have = files_at(fs, provider, spots.drop_last());
        let s = spots.last();
        match files::file_at(fs, s.path) {
            Some(content) => if content.len() > 0 || s.keep_empty {
                have.push(context_file(fs.current, provider, s.path, content, s.level, s.depth))
            } else {
                have
            },
            None => have,
        }
    }
}

fn read_spots(fs: &mut FsCache, provider: &str, spots: &Vec<Spot>) -> (r: Vec<ContextFile>)
    ensures
        final(fs)@ == old(fs)@,
        text::views(r@) == files_at(old(fs)@, provider@, text::views(spots@)),
        files::only_adds(old(fs).wanted@, final(fs).wanted@),
        files::asked_nothing(old(fs).wanted@, final(fs).wanted@) ==> forall|more: FsView| #[trigger]
            files::extends(more, old(fs)@) ==>
                files_at(more, provider@, text::views(spots@))
                    == files_at(old(fs)@, provider@, text::views(spots@)),
{
    proof {
        files::lemma_extends_current(fs@);
    }
    let ghost known = fs@;
    let ghost all = text::views(spots@);
    let mut out: Vec<ContextFile> = Vec::new();
    let mut i: usize = 0;
    proof {
        assert(all.take(0) =~= Seq::<SpotView>::empty());
        assert(text::views(out@) =~= Seq::empty());
    }
    while i < spots.len()
        invariant
            i <= spots@.len(),
            fs@ == known,
            known == old(fs)@,
            all == text::views(spots@),
            text::views(out@) == files_at(known, provider@, all.take(i as int)),
            forall|more: FsView| #[trigger]
                files::extends(more, known) ==> more.current == known.current,
            files::only_adds(old(fs).wanted@, fs.wanted@),
            files::asked_nothing(old(fs).wanted@, fs.wanted@) ==> forall|more: FsView| #[trigger]
                files::extends(more, known) ==>
                    files_at(more, provider@, all.take(i as int))
                        == files_at(known, provider@, all.take(i as int)),
        decreases spots@.len() - i,
    {
        proof {
            assert(all.take(i as int + 1).drop_last() =~= all.take(i as int));
            assert(all.take(i as int + 1).last() == spots@[i as int]@);
        }
        let s = &spots[i];
        match fs.read_file(&s.path) {
            Some(content) => {
                if s.keep_empty || to_chars(&content).len() > 0 {
                    let f = ContextFile::new(
                        &fs.current,
                        provider,
                        s.path.clone(),
                        content,
                        s.level,
                        s.depth,
                    );
                    proof {
                        text::lemma_views_push(out@, f);
                    }
                    out.push(f);
                }
            },
            None => {},
        }
        i += 1;
    }
    assert(all.take(i as int) =~= all);
    out
}

// ------------------------------------------------------------------ native

/// The nearest native directory of a project that holds anything, from `dir` up to the root of
/// the repository, and how far above the working directory it lies.
pub open spec fn nearest_native(
    fs: FsView,
    ctx: LoadContextView,
    dir: Seq<char>,
    depth: int,
) -> Option<(Seq<char>, int)>
    decreases dir.len(),
    via nearest_native_ends
{
    let native = paths::joined(dir, ctx.dirs.native_project_dir);
    if files::listing_at(fs, native).entries.len() > 0 {
        Some((paths::resolved(fs.current, native), depth))
    } else if ctx.repo_root matches Some(root) && paths::same_place(root, dir) {
        None
    } else {
        match paths::parent_of(dir) {
            Some(up) => nearest_native(fs, ctx, up, if depth < i64::MAX { depth + 1 } else { depth }),
            None => None,
        }
    }
}

#[via_fn]
proof fn nearest_native_ends(fs: FsView, ctx: LoadContextView, dir: Seq<char>, depth: int) {
    paths::lemma_parent_is_shorter(dir);
}

fn is_repo_root(ctx: &LoadContext, dir: &str) -> (r: bool)
    ensures
        r == (ctx@.repo_root matches Some(root) && paths::same_place(root, dir@)),
{
    match &ctx.repo_root {
        Some(root) => paths::is_same_place(root, dir),
        None => false,
    }
}

/// The nearest native directory of a project that holds anything, and how far above the working
/// directory it lies.
pub fn nearest_native_project_dir(fs: &mut FsCache, ctx: &LoadContext) -> (r: Option<(String, i64)>)
    ensures
        final(fs)@ == old(fs)@,
        match r {
            Some((dir, depth)) => nearest_native(old(fs)@, ctx@, ctx@.cwd, 0) == Some(
                (dir@, depth as int),
            ),
            None => nearest_native(old(fs)@, ctx@, ctx@.cwd, 0) is None,
        },
        files::only_adds(old(fs).wanted@, final(fs).wanted@),
        files::asked_nothing(old(fs).wanted@, final(fs).wanted@) ==> forall|more: FsView| #[trigger]
            files::extends(more, old(fs)@) ==>
                nearest_native(more, ctx@, ctx@.cwd, 0)
                    == nearest_native(old(fs)@, ctx@, ctx@.cwd, 0),
{
    let ghost known = fs@;
    proof {
        files::lemma_extends_current(fs@);
    }
    let mut here = ctx.cwd.clone();
    let mut depth: i64 = 0;
    loop
        invariant
            fs@ == known,
            known == old(fs)@,
            depth >= 0,
            nearest_native(known, ctx@, ctx@.cwd, 0) == nearest_native(
                known,
                ctx@,
                here@,
                depth as int,
            ),
            forall|more: FsView| #[trigger]
                files::extends(more, known) ==> more.current == known.current,
            files::only_adds(old(fs).wanted@, fs.wanted@),
            files::asked_nothing(old(fs).wanted@, fs.wanted@) ==> forall|more: FsView| #[trigger]
                files::extends(more, known) ==> nearest_native(more, ctx@, ctx@.cwd, 0)
                    == nearest_native(more, ctx@, here@, depth as int),
        decreases here@.len(),
    {
        let native = join_path(&here, &ctx.dirs.native_project_dir);
        let entries = fs.read_dir_entries(&native);
        if entries.len() > 0 {
            return Some((resolve(&fs.current, &native), depth));
        }
        if is_repo_root(ctx, &here) {
            return None;
        }
        let up = parent(&here);
        proof {
            paths::lemma_parent_is_shorter(here@);
        }
        match up {
            Some(next) => {
                here = next;
                if depth < i64::MAX {
                    depth += 1;
                }
            },
            None => {
                return None;
            },
        }
    }
}

/// The native places.
pub open spec fn native_spots(fs: FsView, ctx: LoadContextView) -> Seq<SpotView> {
    let user = user_spot(paths::joined(ctx.dirs.native_user_dir, "AGENTS.md"@));
    match nearest_native(fs, ctx, ctx.cwd, 0) {
        Some((dir, depth)) => seq![
            user,
            project_spot(paths::joined(dir, "AGENTS.md"@), depth),
        ],
        None => seq![user],
    }
}

fn find_native_spots(fs: &mut FsCache, ctx: &LoadContext) -> (r: Vec<Spot>)
    ensures
        final(fs)@ == old(fs)@,
        text::views(r@) == native_spots(old(fs)@, ctx@),
        files::only_adds(old(fs).wanted@, final(fs).wanted@),
        files::asked_nothing(old(fs).wanted@, final(fs).wanted@) ==> forall|more: FsView| #[trigger]
            files::extends(more, old(fs)@) ==>
                native_spots(more, ctx@) == native_spots(old(fs)@, ctx@),
{
    let mut out: Vec<Spot> = Vec::new();
    out.push(at_user(join_path(&ctx.dirs.native_user_dir, "AGENTS.md")));
    match nearest_native_project_dir(fs, ctx) {
        Some((dir, depth)) => {
            out.push(at_project(join_path(&dir, "AGENTS.md"), depth));
        },
        None => {},
    }
    assert(text::views(out@) =~= native_spots(old(fs)@, ctx@));
    out
}

// ------------------------------------------------------------------ foreign tools

/// The configuration directory of the foreign agent for the user.
pub open spec fn claude_dir(ctx: LoadContextView) -> Seq<char> {
    match ctx.dirs.claude_config_dir {
        Some(d) => d,
        None => paths::joined(ctx.home, foreign::dir()),
    }
}

/// The configuration directory of the foreign agent for the user.
pub fn claude_config_dir(ctx: &LoadContext) -> (r: String)
    ensures
        r@ == claude_dir(ctx@),
{
    match &ctx.dirs.claude_config_dir {
        Some(d) => d.clone(),
        None => join_path(&ctx.home, &foreign::dir_text()),
    }
}

/// How far above the working directory the directory lies that holds `path`.
pub open spec fn depth_above(cwd: Seq<char>, path: Seq<char>) -> int {
    paths::depth_of(
        cwd,
        match paths::parent_of(path) {
            Some(d) => d,
            None => cwd,
        },
    )
}

/// The places of the foreign agent, where empty files count.
pub open spec fn claude_spots(ctx: LoadContextView) -> Seq<SpotView> {
    let base = paths::joined(ctx.cwd, foreign::dir());
    let project = SpotView {
        keep_empty: true,
        ..project_spot(paths::joined(base, foreign::file()), depth_above(ctx.cwd, base))
    };
    if capability::user_source_enabled(ctx, foreign::id()) {
        seq![
            SpotView {
                keep_empty: true,
                ..user_spot(paths::joined(claude_dir(ctx), foreign::file()))
            },
            project,
        ]
    } else {
        seq![project]
    }
}

fn find_claude_spots(ctx: &LoadContext) -> (r: Vec<Spot>)
    ensures
        text::views(r@) == claude_spots(ctx@),
{
    let mut out: Vec<Spot> = Vec::new();
    if ctx.is_user_source_enabled(&foreign::id_text()) {
        let mut s = at_user(join_path(&claude_config_dir(ctx), &foreign::file_text()));
        s.keep_empty = true;
        out.push(s);
    }
    let base = join_path(&ctx.cwd, &foreign::dir_text());
    let depth: i64 = match parent(&base) {
        Some(d) => calculate_depth(&ctx.cwd, &d),
        None => calculate_depth(&ctx.cwd, &ctx.cwd),
    };
    let mut s = at_project(join_path(&base, &foreign::file_text()), depth);
    s.keep_empty = true;
    out.push(s);
    assert(text::views(out@) =~= claude_spots(ctx@));
    out
}

/// Where the walk up from the working directory stops.
pub open spec fn walk_end(ctx: LoadContextView) -> Seq<char> {
    match ctx.repo_root {
        Some(root) => root,
        None => ctx.home,
    }
}

/// Where the walk up from the working directory stops.
pub fn walk_stop(ctx: &LoadContext) -> (r: String)
    ensures
        r@ == walk_end(ctx@),
{
    match &ctx.repo_root {
        Some(root) => root.clone(),
        None => ctx.home.clone(),
    }
}

/// The home directories: that of the user and the further ones, each once.
pub open spec fn home_dirs(home: Seq<char>, extra: Seq<Seq<char>>) -> Seq<Seq<char>>
    decreases extra.len(),
{
    if extra.len() == 0 {
        seq![home]
    } else {
        let have = home_dirs(home, extra.drop_last());
        if paths::holds_place(have, extra.last()) {
            have
        } else {
            have.push(extra.last())
        }
    }
}

/// The home directories: that of the user and the further ones, each once.
pub fn homes(ctx: &LoadContext) -> (r: Vec<String>)
    ensures
        text::views(r@) == home_dirs(ctx@.home, ctx@.dirs.extra_user_homes),
{
    let ghost extra = ctx@.dirs.extra_user_homes;
    let mut out: Vec<String> = Vec::new();
    out.push(ctx.home.clone());
    let mut i: usize = 0;
    proof {
        assert(extra.take(0) =~= Seq::<Seq<char>>::empty());
        assert(text::views(out@) =~= seq![ctx@.home]);
    }
    while i < ctx.dirs.extra_user_homes.len()
        invariant
            i <= ctx.dirs.extra_user_homes@.len(),
            extra == text::views(ctx.dirs.extra_user_homes@),
            text::views(out@) == home_dirs(ctx@.home, extra.take(i as int)),
        decreases ctx.dirs.extra_user_homes@.len() - i,
    {
        proof {
            assert(extra.take(i as int + 1).drop_last() =~= extra.take(i as int));
            assert(extra.take(i as int + 1).last() == ctx.dirs.extra_user_homes@[i as int]@);
        }
        if !paths::contains_place(&out, &ctx.dirs.extra_user_homes[i]) {
            let h = ctx.dirs.extra_user_homes[i].clone();
            proof {
                text::lemma_views_push(out@, h);
            }
            out.push(h);
        }
        i += 1;
    }
    assert(extra.take(i as int) =~= extra);
    out
}

/// How far above the working directory the directory lies that holds the directory of `path`.
pub open spec fn depth_two_above(cwd: Seq<char>, path: Seq<char>) -> int {
    let dir = match paths::parent_of(path) {
        Some(d) => paths::parent_of(d),
        None => None,
    };
    paths::depth_of(
        cwd,
        match dir {
            Some(d) => d,
            None => seq!['/'],
        },
    )
}

fn compute_depth_two_above(cwd: &str, path: &str) -> (r: i64)
    ensures
        r == depth_two_above(cwd@, path@),
{
    proof {
        reveal_strlit("/");
        assert("/"@ =~= seq!['/']);
    }
    let dir = match parent(path) {
        Some(d) => parent(&d),
        None => None,
    };
    match dir {
        Some(d) => calculate_depth(cwd, &d),
        None => calculate_depth(cwd, "/"),
    }
}

/// The two places of a directory.
pub open spec fn agent_pair(ctx: LoadContextView, dir: Seq<char>, level: Level) -> Seq<SpotView> {
    let one = paths::joined(paths::joined(dir, ".agent"@), "AGENTS.md"@);
    let two = paths::joined(paths::joined(dir, ".agents"@), "AGENTS.md"@);
    if level == Level::Project {
        seq![
            project_spot(one, depth_two_above(ctx.cwd, one)),
            project_spot(two, depth_two_above(ctx.cwd, two)),
        ]
    } else {
        seq![user_spot(one), user_spot(two)]
    }
}

/// The places of the directories; in a project the home directory does not count.
pub open spec fn agent_pairs(ctx: LoadContextView, dirs: Seq<Seq<char>>, level: Level) -> Seq<
    SpotView,
>
    decreases dirs.len(),
{
    if dirs.len() == 0 {
        Seq::empty()
    } else {
        let have = agent_pairs(ctx, dirs.drop_last(), level);
        if level == Level::Project && paths::same_place(dirs.last(), ctx.home) {
            have
        } else {
            have + agent_pair(ctx, dirs.last(), level)
        }
    }
}

fn push_agent_pairs(
    out: &mut Vec<Spot>,
    ctx: &LoadContext,
    dirs: &Vec<String>,
    level: Level,
)
    requires
        level == Level::Project || level == Level::User,
    ensures
        text::views(final(out)@) == text::views(old(out)@) + agent_pairs(
            ctx@,
            text::views(dirs@),
            level,
        ),
{
    let ghost before = text::views(out@);
    let ghost all = text::views(dirs@);
    let mut i: usize = 0;
    proof {
        assert(all.take(0) =~= Seq::<Seq<char>>::empty());
        assert(before + Seq::<SpotView>::empty() =~= before);
    }
    while i < dirs.len()
        invariant
            i <= dirs@.len(),
            level == Level::Project || level == Level::User,
            all == text::views(dirs@),
            text::views(out@) == before + agent_pairs(ctx@, all.take(i as int), level),
        decreases dirs@.len() - i,
    {
        let ghost have = text::views(out@);
        proof {
            assert(all.take(i as int + 1).drop_last() =~= all.take(i as int));
            assert(all.take(i as int + 1).last() == dirs@[i as int]@);
        }
        if !(level == Level::Project && paths::is_same_place(&dirs[i], &ctx.home)) {
            let one = join_path(&join_path(&dirs[i], ".agent"), "AGENTS.md");
            let two = join_path(&join_path(&dirs[i], ".agents"), "AGENTS.md");
            if level == Level::Project {
                let a: i64 = compute_depth_two_above(&ctx.cwd, &one);
                let b: i64 = compute_depth_two_above(&ctx.cwd, &two);
                out.push(at_project(one, a));
                out.push(at_project(two, b));
            } else {
                out.push(at_user(one));
                out.push(at_user(two));
            }
            proof {
                assert(text::views(out@) =~= have + agent_pair(ctx@, dirs@[i as int]@, level));
                assert(have + agent_pair(ctx@, dirs@[i as int]@, level) =~= before + (agent_pairs(
                    ctx@,
                    all.take(i as int),
                    level,
                ) + agent_pair(ctx@, dirs@[i as int]@, level)));
            }
        }
        i += 1;
    }
    assert(all.take(i as int) =~= all);
}

/// The places in `.agent` and `.agents`.
pub open spec fn agents_spots(ctx: LoadContextView) -> Seq<SpotView> {
    agent_pairs(ctx, paths::upwards(ctx.cwd, walk_end(ctx)), Level::Project) + agent_pairs(
        ctx,
        home_dirs(ctx.home, ctx.dirs.extra_user_homes),
        Level::User,
    )
}

fn find_agents_spots(ctx: &LoadContext) -> (r: Vec<Spot>)
    ensures
        text::views(r@) == agents_spots(ctx@),
{
    let dirs = ancestors_until(&ctx.cwd, &walk_stop(ctx));
    let mut out: Vec<Spot> = Vec::new();
    assert(text::views(out@) =~= Seq::empty());
    push_agent_pairs(&mut out, ctx, &dirs, Level::Project);
    push_agent_pairs(&mut out, ctx, &homes(ctx), Level::User);
    assert(text::views(out@) =~= agents_spots(ctx@));
    out
}

/// The place of a foreign tool in the home directory, where its configuration counts.
pub open spec fn foreign_spot(ctx: LoadContextView, provider: Seq<char>, path: Seq<char>) -> Seq<
    SpotView,
> {
    if capability::user_source_enabled(ctx, provider) {
        seq![user_spot(path)]
    } else {
        Seq::empty()
    }
}

fn find_foreign_spot(ctx: &LoadContext, provider: &str, path: String) -> (r: Vec<Spot>)
    ensures
        text::views(r@) == foreign_spot(ctx@, provider@, path@),
{
    let mut out: Vec<Spot> = Vec::new();
    if ctx.is_user_source_enabled(provider) {
        out.push(at_user(path));
    }
    assert(text::views(out@) =~= foreign_spot(ctx@, provider@, path@));
    out
}

/// The place of Codex.
pub open spec fn codex_spots(ctx: LoadContextView) -> Seq<SpotView> {
    foreign_spot(
        ctx,
        "codex"@,
        paths::joined(paths::joined(ctx.home, ".codex"@), "AGENTS.md"@),
    )
}

/// The place of OpenCode.
pub open spec fn opencode_spots(ctx: LoadContextView) -> Seq<SpotView> {
    foreign_spot(
        ctx,
        "opencode"@,
        paths::joined(
            paths::joined(paths::joined(ctx.home, ".config"@), "opencode"@),
            "AGENTS.md"@,
        ),
    )
}

/// The place below the working directory, which lies one level deeper.
pub open spec fn below_spot(ctx: LoadContextView, dir: Seq<char>, name: Seq<char>) -> SpotView {
    let base = paths::joined(ctx.cwd, dir);
    project_spot(paths::joined(base, name), paths::depth_of(ctx.cwd, base))
}

fn find_below_spot(ctx: &LoadContext, dir: &str, name: &str) -> (r: Spot)
    ensures
        r@ == below_spot(ctx@, dir@, name@),
{
    let base = join_path(&ctx.cwd, dir);
    let depth: i64 = calculate_depth(&ctx.cwd, &base);
    at_project(join_path(&base, name), depth)
}

/// The places of Gemini.
pub open spec fn gemini_spots(ctx: LoadContextView) -> Seq<SpotView> {
    foreign_spot(
        ctx,
        "gemini"@,
        paths::joined(paths::joined(ctx.home, ".gemini"@), "GEMINI.md"@),
    ).push(below_spot(ctx, ".gemini"@, "GEMINI.md"@))
}

fn find_gemini_spots(ctx: &LoadContext) -> (r: Vec<Spot>)
    ensures
        text::views(r@) == gemini_spots(ctx@),
{
    let mut out = find_foreign_spot(
        ctx,
        "gemini",
        join_path(&join_path(&ctx.home, ".gemini"), "GEMINI.md"),
    );
    let s = find_below_spot(ctx, ".gemini", "GEMINI.md");
    proof {
        text::lemma_views_push(out@, s);
    }
    out.push(s);
    out
}

/// The places of files of the user in directories.
pub open spec fn dir_spots(dirs: Seq<Seq<char>>) -> Seq<SpotView> {
    dirs.map_values(|d: Seq<char>| user_spot(paths::joined(d, "AGENTS.md"@)))
}

/// The configuration directory of GitHub Copilot for the user.
pub open spec fn copilot_dir(ctx: LoadContextView) -> Seq<char> {
    match ctx.dirs.copilot_home {
        Some(d) => d,
        None => paths::joined(ctx.home, ".copilot"@),
    }
}

/// The places of GitHub Copilot.
pub open spec fn github_spots(ctx: LoadContextView) -> Seq<SpotView> {
    seq![below_spot(ctx, ".github"@, "copilot-instructions.md"@)] + foreign_spot(
        ctx,
        "github"@,
        paths::joined(copilot_dir(ctx), "copilot-instructions.md"@),
    ) + dir_spots(ctx.dirs.copilot_custom_instruction_dirs)
}

fn find_github_spots(ctx: &LoadContext) -> (r: Vec<Spot>)
    ensures
        text::views(r@) == github_spots(ctx@),
{
    let ghost dirs = ctx@.dirs.copilot_custom_instruction_dirs;
    let ghost last = dir_spots(dirs);
    let mut out: Vec<Spot> = Vec::new();
    out.push(find_below_spot(ctx, ".github", "copilot-instructions.md"));
    if ctx.is_user_source_enabled("github") {
        let home = match &ctx.dirs.copilot_home {
            Some(d) => d.clone(),
            None => join_path(&ctx.home, ".copilot"),
        };
        out.push(at_user(join_path(&home, "copilot-instructions.md")));
    }
    let ghost before = text::views(out@);
    let mut i: usize = 0;
    proof {
        assert(before =~= seq![below_spot(ctx@, ".github"@, "copilot-instructions.md"@)]
            + foreign_spot(
            ctx@,
            "github"@,
            paths::joined(copilot_dir(ctx@), "copilot-instructions.md"@),
        ));
        assert(before + last.take(0) =~= before);
    }
    while i < ctx.dirs.copilot_custom_instruction_dirs.len()
        invariant
            i <= ctx.dirs.copilot_custom_instruction_dirs@.len(),
            dirs == text::views(ctx.dirs.copilot_custom_instruction_dirs@),
            last == dir_spots(dirs),
            text::views(out@) == before + last.take(i as int),
        decreases ctx.dirs.copilot_custom_instruction_dirs@.len() - i,
    {
        let s = at_user(join_path(&ctx.dirs.copilot_custom_instruction_dirs[i], "AGENTS.md"));
        proof {
            text::lemma_views_push(out@, s);
            assert(last[i as int] == s@);
            assert(before + last.take(i as int + 1) =~= (before + last.take(i as int)).push(s@));
        }
        out.push(s);
        i += 1;
    }
    assert(last.take(i as int) =~= last);
    out
}

// ------------------------------------------------------------------ standalone files

/// How far up standalone files are looked for.
#[verifier::ext_equal]
pub struct ReachView {
    /// The last directory.
    pub boundary: Seq<char>,
    /// Whether the last directory counts.
    pub with_boundary: bool,
    /// Whether the walk goes on from the repository to the home directory, which does not count.
    pub to_home: bool,
}

/// How far up standalone files are looked for: in a repository below the home directory up to
/// that, which does not count; else up to the root of the repository; outside of repositories up
/// to the home directory, or to the root of the file system, which does not count.
pub open spec fn reach(
    current: Seq<char>,
    home: Seq<char>,
    cwd: Seq<char>,
    repo: Option<Seq<char>>,
) -> ReachView {
    let under_home = paths::within(current, home, cwd);
    let repo_is_home = repo == Some(home);
    let to_home = repo is Some && under_home && paths::within(current, home, repo.unwrap())
        && !repo_is_home;
    let boundary = if to_home {
        home
    } else {
        match repo {
            Some(r) => r,
            None => if under_home { home } else { seq!['/'] },
        }
    };
    ReachView {
        boundary,
        with_boundary: match repo {
            None => under_home,
            Some(_) => boundary != home || repo_is_home,
        },
        to_home,
    }
}

/// Whether a directory is hidden.
pub open spec fn is_hidden(dir: Seq<char>) -> bool {
    paths::name_of(dir).len() > 0 && paths::name_of(dir)[0] == '.'
}

/// Whether a directory counts.
pub open spec fn counts(r: ReachView, home: Seq<char>, dir: Seq<char>) -> bool {
    &&& !(r.to_home && dir == home)
    &&& !(dir == r.boundary && !r.with_boundary)
    &&& !is_hidden(dir)
}

/// The places in the directories that count.
pub open spec fn standalone_spots(
    r: ReachView,
    home: Seq<char>,
    cwd: Seq<char>,
    dirs: Seq<Seq<char>>,
    name: Seq<char>,
) -> Seq<SpotView>
    decreases dirs.len(),
{
    if dirs.len() == 0 {
        Seq::empty()
    } else {
        let have = standalone_spots(r, home, cwd, dirs.drop_last(), name);
        let dir = dirs.last();
        if counts(r, home, dir) {
            have.push(project_spot(paths::joined(dir, name), paths::depth_of(cwd, dir)))
        } else {
            have
        }
    }
}

/// The standalone files of a name, from the working directory upwards.
pub open spec fn standalone_files(
    fs: FsView,
    ctx: LoadContextView,
    provider: Seq<char>,
    name: Seq<char>,
) -> Seq<ContextFileView> {
    let home = paths::resolved(fs.current, ctx.home);
    let cwd = paths::resolved(fs.current, ctx.cwd);
    let repo = match ctx.repo_root {
        Some(r) => Some(paths::resolved(fs.current, r)),
        None => None,
    };
    let r = reach(fs.current, home, cwd, repo);
    files_at(
        fs,
        provider,
        standalone_spots(r, home, cwd, paths::upwards(cwd, r.boundary), name),
    )
}

fn hidden(dir: &str) -> (r: bool)
    ensures
        r == is_hidden(dir@),
{
    let v = to_chars(&paths::file_name(dir));
    v.len() > 0 && v[0] == '.'
}

/// The standalone files of a name, from the working directory upwards.
pub fn load_standalone_context_files(
    fs: &mut FsCache,
    ctx: &LoadContext,
    provider: &str,
    file_name: &str,
) -> (r: Vec<ContextFile>)
    ensures
        final(fs)@ == old(fs)@,
        text::views(r@) == standalone_files(old(fs)@, ctx@, provider@, file_name@),
        files::only_adds(old(fs).wanted@, final(fs).wanted@),
        files::asked_nothing(old(fs).wanted@, final(fs).wanted@) ==> forall|more: FsView| #[trigger]
            files::extends(more, old(fs)@) ==>
                standalone_files(more, ctx@, provider@, file_name@)
                    == standalone_files(old(fs)@, ctx@, provider@, file_name@),
{
    proof {
        files::lemma_extends_current(fs@);
        reveal_strlit("/");
        assert("/"@ =~= seq!['/']);
    }
    let home = resolve(&fs.current, &ctx.home);
    let cwd = resolve(&fs.current, &ctx.cwd);
    let repo = match &ctx.repo_root {
        Some(r) => Some(resolve(&fs.current, r)),
        None => None,
    };
    let ghost far = reach(fs@.current, home@, cwd@, text::opt_view(repo));
    let under_home = is_within(&fs.current, &home, &cwd);
    let (repo_is_home, repo_under_home) = match &repo {
        Some(r) => (same_text(r, &home), is_within(&fs.current, &home, r)),
        None => (false, false),
    };
    let to_home = repo.is_some() && under_home && repo_under_home && !repo_is_home;
    let boundary = if to_home {
        home.clone()
    } else {
        match &repo {
            Some(r) => r.clone(),
            None => if under_home {
                home.clone()
            } else {
                "/".to_string()
            },
        }
    };
    let with_boundary = match &repo {
        None => under_home,
        Some(_) => !same_text(&boundary, &home) || repo_is_home,
    };
    assert(far == (ReachView { boundary: boundary@, with_boundary, to_home }));
    let dirs = ancestors_until(&cwd, &boundary);
    let ghost all = text::views(dirs@);
    let mut spots: Vec<Spot> = Vec::new();
    let mut i: usize = 0;
    proof {
        assert(all.take(0) =~= Seq::<Seq<char>>::empty());
        assert(text::views(spots@) =~= Seq::empty());
    }
    while i < dirs.len()
        invariant
            i <= dirs@.len(),
            all == text::views(dirs@),
            far == (ReachView { boundary: boundary@, with_boundary, to_home }),
            text::views(spots@) == standalone_spots(
                far,
                home@,
                cwd@,
                all.take(i as int),
                file_name@,
            ),
        decreases dirs@.len() - i,
    {
        proof {
            assert(all.take(i as int + 1).drop_last() =~= all.take(i as int));
            assert(all.take(i as int + 1).last() == dirs@[i as int]@);
        }
        let dir = &dirs[i];
        let at_home = to_home && same_text(dir, &home);
        let at_boundary = same_text(dir, &boundary);
        if !at_home && !(at_boundary && !with_boundary) && !hidden(dir) {
            let depth: i64 = calculate_depth(&cwd, dir);
            let s = at_project(join_path(dir, file_name), depth);
            proof {
                text::lemma_views_push(spots@, s);
            }
            spots.push(s);
        }
        i += 1;
    }
    assert(all.take(i as int) =~= all);
    read_spots(fs, provider, &spots)
}

// ------------------------------------------------------------------ the kind

/// What a provider finds.
pub open spec fn context_files_of(fs: FsView, ctx: LoadContextView, id: Seq<char>) -> Seq<
    ContextFileView,
> {
    if id == "native"@ {
        files_at(fs, id, native_spots(fs, ctx))
    } else if id == foreign::id() {
        files_at(fs, id, claude_spots(ctx))
    } else if id == "agents"@ {
        files_at(fs, id, agents_spots(ctx))
    } else if id == "codex"@ {
        files_at(fs, id, codex_spots(ctx))
    } else if id == "gemini"@ {
        files_at(fs, id, gemini_spots(ctx))
    } else if id == "opencode"@ {
        files_at(fs, id, opencode_spots(ctx))
    } else if id == "github"@ {
        files_at(fs, id, github_spots(ctx))
    } else if id == "agents-md"@ {
        standalone_files(fs, ctx, id, "AGENTS.md"@)
    } else if id == foreign::file_id() {
        standalone_files(fs, ctx, id, foreign::file())
    } else {
        Seq::empty()
    }
}

/// What a provider finds.
pub fn load_provider(fs: &mut FsCache, ctx: &LoadContext, id: &str) -> (r: Vec<ContextFile>)
    ensures
        final(fs)@ == old(fs)@,
        text::views(r@) == context_files_of(old(fs)@, ctx@, id@),
        files::only_adds(old(fs).wanted@, final(fs).wanted@),
        files::asked_nothing(old(fs).wanted@, final(fs).wanted@) ==> forall|more: FsView| #[trigger]
            files::extends(more, old(fs)@) ==>
                context_files_of(more, ctx@, id@) == context_files_of(old(fs)@, ctx@, id@),
{
    let spots: Vec<Spot> = if same_text(id, "native") {
        find_native_spots(fs, ctx)
    } else if same_text(id, &foreign::id_text()) {
        find_claude_spots(ctx)
    } else if same_text(id, "agents") {
        find_agents_spots(ctx)
    } else if same_text(id, "codex") {
        find_foreign_spot(ctx, "codex", join_path(&join_path(&ctx.home, ".codex"), "AGENTS.md"))
    } else if same_text(id, "gemini") {
        find_gemini_spots(ctx)
    } else if same_text(id, "opencode") {
        find_foreign_spot(
            ctx,
            "opencode",
            join_path(&join_path(&join_path(&ctx.home, ".config"), "opencode"), "AGENTS.md"),
        )
    } else if same_text(id, "github") {
        find_github_spots(ctx)
    } else if same_text(id, "agents-md") {
        return load_standalone_context_files(fs, ctx, id, "AGENTS.md");
    } else if same_text(id, &foreign::file_id_text()) {
        return load_standalone_context_files(fs, ctx, id, &foreign::file_text());
    } else {
        Vec::new()
    };
    read_spots(fs, id, &spots)
}

/// A provider.
pub open spec fn provider_view(
    id: Seq<char>,
    display_name: Seq<char>,
    description: Seq<char>,
    priority: i32,
) -> ProviderView {
    ProviderView { id, display_name, description, priority }
}

/// A provider.
pub fn make_provider(id: &str, display_name: &str, description: &str, priority: i32) -> (r: Provider)
    ensures
        r@ == provider_view(id@, display_name@, description@, priority),
{
    Provider {
        id: id.to_string(),
        display_name: display_name.to_string(),
        description: description.to_string(),
        priority,
    }
}

/// The providers of context files, as they are added.
pub open spec fn context_providers(native_name: Seq<char>) -> Seq<ProviderView> {
    seq![
        provider_view("agents-md"@, "AGENTS.md"@, "Standalone AGENTS.md files (Codex/Gemini style)"@, 10),
        provider_view(foreign::file_id(), foreign::file(), "Standalone "@ + foreign::file() + " files ("@ + foreign::title() + " style)"@, 10),
        provider_view("native"@, native_name, "Load AGENTS.md from native config directories"@, 100),
        provider_view(foreign::id(), foreign::title(), "Load "@ + foreign::file() + " from ~/"@ + foreign::dir() + " and "@ + foreign::dir() + "/"@, 80),
        provider_view("agents"@, "Agent Dirs (.agent/.agents)"@, "Load AGENTS.md from .agent/ and .agents/"@, 70),
        provider_view("codex"@, "OpenAI Codex"@, "Load AGENTS.md from ~/.codex"@, 70),
        provider_view("gemini"@, "Gemini CLI"@, "Load GEMINI.md from ~/.gemini and .gemini/"@, 60),
        provider_view("opencode"@, "OpenCode"@, "Load AGENTS.md from ~/.config/opencode"@, 55),
        provider_view("github"@, "GitHub Copilot"@, "Load copilot-instructions.md from .github/ and ~/.copilot/; AGENTS.md from COPILOT_CUSTOM_INSTRUCTIONS_DIRS"@, 30),
    ]
}

/// Context files, with their providers.
pub fn context_file_capability(native_name: &str) -> (r: Capability)
    ensures
        r@.id == "context-files"@,
        r@.display_name == "Context Files"@,
        r@.description
            == "Persistent instruction files ("@ + foreign::file() + ", AGENTS.md, etc.) that guide agent behavior"@,
        r@.providers == capability::all_registered(Seq::empty(), context_providers(native_name@)),
{
    let mut about = "Persistent instruction files (".to_string();
    about.append(&foreign::file_text());
    about.append(", AGENTS.md, etc.) that guide agent behavior");
    let mut standalone = "Standalone ".to_string();
    standalone.append(&foreign::file_text());
    standalone.append(" files (");
    standalone.append(&foreign::title_text());
    standalone.append(" style)");
    let mut loads = "Load ".to_string();
    loads.append(&foreign::file_text());
    loads.append(" from ~/");
    loads.append(&foreign::dir_text());
    loads.append(" and ");
    loads.append(&foreign::dir_text());
    loads.append("/");
    let mut kind = Capability::new("context-files", "Context Files", &about);
    let mut all: Vec<Provider> = Vec::new();
    all.push(make_provider("agents-md", "AGENTS.md", "Standalone AGENTS.md files (Codex/Gemini style)", 10));
    all.push(make_provider(&foreign::file_id_text(), &foreign::file_text(), &standalone, 10));
    all.push(make_provider("native", native_name, "Load AGENTS.md from native config directories", 100));
    all.push(make_provider(&foreign::id_text(), &foreign::title_text(), &loads, 80));
    all.push(make_provider("agents", "Agent Dirs (.agent/.agents)", "Load AGENTS.md from .agent/ and .agents/", 70));
    all.push(make_provider("codex", "OpenAI Codex", "Load AGENTS.md from ~/.codex", 70));
    all.push(make_provider("gemini", "Gemini CLI", "Load GEMINI.md from ~/.gemini and .gemini/", 60));
    all.push(make_provider("opencode", "OpenCode", "Load AGENTS.md from ~/.config/opencode", 55));
    all.push(make_provider("github", "GitHub Copilot", "Load copilot-instructions.md from .github/ and ~/.copilot/; AGENTS.md from COPILOT_CUSTOM_INSTRUCTIONS_DIRS", 30));
    assert(text::views(all@) =~= context_providers(native_name@));
    kind.register_all(&all);
    kind
}

/// What comes of asking providers.
pub open spec fn context_outcomes(
    fs: FsView,
    ctx: LoadContextView,
    providers: Seq<ProviderView>,
) -> Seq<OutcomeView<ContextFileView>> {
    providers.map_values(
        |p: ProviderView|
            capability::found_items(context_files_of(fs, ctx, p.id), Seq::empty()),
    )
}

/// The context files that are found.
pub open spec fn context_files(
    fs: FsView,
    ctx: LoadContextView,
    providers: Seq<ProviderView>,
    options: LoadOptionsView,
) -> CapabilityResultView<ContextFileView> {
    let asked = capability::asked(providers, ctx.policy, options);
    capability::loaded::<ContextFile>(asked, context_outcomes(fs, ctx, asked), options)
}

/// The context files that are found.
pub fn load(fs: &mut FsCache, ctx: &LoadContext, kind: &Capability, options: &LoadOptions) -> (r:
    CapabilityResult<ContextFile>)
    ensures
        final(fs)@ == old(fs)@,
        r@ == context_files(old(fs)@, ctx@, kind@.providers, options@),
        files::only_adds(old(fs).wanted@, final(fs).wanted@),
        files::asked_nothing(old(fs).wanted@, final(fs).wanted@) ==> forall|more: FsView| #[trigger]
            files::extends(more, old(fs)@) ==>
                context_files(more, ctx@, kind@.providers, options@)
                    == context_files(old(fs)@, ctx@, kind@.providers, options@),
{
    let ghost known = fs@;
    let asked = kind.selected(&ctx.policy, options);
    let ghost all = text::views(asked@);
    let ghost outs = context_outcomes(known, ctx@, all);
    let mut outcomes: Vec<Outcome<ContextFile>> = Vec::new();
    let mut i: usize = 0;
    assert(text::views(outcomes@) =~= outs.take(0));
    while i < asked.len()
        invariant
            i <= asked@.len(),
            fs@ == known,
            known == old(fs)@,
            all == text::views(asked@),
            outs == context_outcomes(known, ctx@, all),
            text::views(outcomes@) == outs.take(i as int),
            outcomes@.len() == i,
            files::only_adds(old(fs).wanted@, fs.wanted@),
            files::asked_nothing(old(fs).wanted@, fs.wanted@) ==> forall|more: FsView, j: int|
                #![trigger files::extends(more, known), all[j]]
                files::extends(more, known) && 0 <= j < i ==> context_files_of(
                    more,
                    ctx@,
                    all[j].id,
                ) == context_files_of(known, ctx@, all[j].id),
        decreases asked@.len() - i,
    {
        let items = load_provider(fs, ctx, &asked[i].id);
        let none: Vec<String> = Vec::new();
        assert(text::views(none@) =~= Seq::<Seq<char>>::empty());
        let o = found(items, none);
        proof {
            text::lemma_views_push(outcomes@, o);
            assert(all[i as int] == asked@[i as int]@);
            assert(outs[i as int] == o@);
            assert(outs.take(i as int + 1) =~= outs.take(i as int).push(o@));
        }
        outcomes.push(o);
        i += 1;
    }
    assert(outs.take(i as int) =~= outs);
    proof {
        if files::asked_nothing(old(fs).wanted@, fs.wanted@) {
            assert forall|more: FsView| #[trigger] files::extends(more, known) implies context_outcomes(
                more,
                ctx@,
                all,
            ) == outs by {
                assert(context_outcomes(more, ctx@, all) =~= outs);
            }
        }
    }
    merge_outcomes(&asked, outcomes, options)
}

// ------------------------------------------------------------------ laws

/// In a repository that lies below the home directory, the standalone file of the home directory
/// never counts.
pub proof fn law_the_home_file_stays_out(
    current: Seq<char>,
    home: Seq<char>,
    cwd: Seq<char>,
    repo: Seq<char>,
)
    requires
        paths::within(current, home, cwd),
        paths::within(current, home, repo),
        repo != home,
    ensures
        !counts(reach(current, home, cwd, Some(repo)), home, home),
{
}

/// An empty file claims no place, except in the directories of the foreign agent.
pub proof fn law_empty_files_do_not_count(
    fs: FsView,
    provider: Seq<char>,
    spots: Seq<SpotView>,
    i: int,
)
    requires
        forall|k: int| 0 <= k < spots.len() ==> !(#[trigger] spots[k]).keep_empty,
        0 <= i < files_at(fs, provider, spots).len(),
    ensures
        files_at(fs, provider, spots)[i].content.len() > 0,
    decreases spots.len(),
{
    if spots.len() > 0 {
        let rest = spots.drop_last();
        assert(!spots[spots.len() - 1].keep_empty);
        if i < files_at(fs, provider, rest).len() {
            assert forall|k: int| 0 <= k < rest.len() implies !(#[trigger] rest[k]).keep_empty by {
                assert(rest[k] == spots[k]);
            }
            law_empty_files_do_not_count(fs, provider, rest, i);
        }
    }
}

} // verus!
