//! `SYSTEM.md` files, which customize the system prompt.
use crate::capability;
use crate::capability::{
    found, merge_outcomes, Capability, CapabilityResultView, Level, LoadContext, LoadContextView, LoadOptions,
    LoadOptionsView, Outcome, OutcomeView, Provider, ProviderView, SourceMeta, SourceMetaView, Sourced,
};
use crate::context_files;
use crate::context_files::{claude_config_dir, make_provider, nearest_native_project_dir, walk_stop};
use crate::files;
use crate::files::{FsCache, FsView};
use crate::foreign;
use crate::paths;
use crate::paths::{ancestors_until, join_path};
use crate::project;
use crate::project::{Discovery, DiscoveryView};
use crate::text;
use crate::text::{concat, same_text, to_chars};
use vstd::prelude::*;

verus! {

/// A file that customizes the system prompt.
#[derive(Debug, PartialEq)]
pub struct SystemMd {
    pub path: String,
    pub content: String,
    pub level: Level,
    pub source: SourceMeta,
}

/// What a [`SystemMd`] stands for.
#[verifier::ext_equal]
pub struct SystemMdView {
    pub path: Seq<char>,
    pub content: Seq<char>,
    pub level: Level,
    pub source: SourceMetaView,
}

impl View for SystemMd {
    type V = SystemMdView;

    open spec fn view(&self) -> SystemMdView {
        SystemMdView {
            path: self.path@,
            content: self.content@,
            level: self.level,
            source: self.source@,
        }
    }
}

impl Clone for SystemMd {
    fn clone(&self) -> (r: SystemMd)
        ensures
            r@ == self@,
    {
        SystemMd {
            path: self.path.clone(),
            content: self.content.clone(),
            level: self.level,
            source: self.source.clone(),
        }
    }
}

impl Sourced for SystemMd {
    /// There is one file for each level.
    open spec fn key_of(v: SystemMdView) -> Option<Seq<char>> {
        Some(capability::level_word(v.level))
    }

    open spec fn aliases(earlier: SystemMdView, later: SystemMdView) -> bool {
        false
    }

    open spec fn extension_of(v: SystemMdView) -> Option<Seq<char>> {
        None
    }

    open spec fn problem_of(v: SystemMdView) -> Option<Seq<char>> {
        if v.path.len() == 0 {
            Some("Missing path"@)
        } else {
            None
        }
    }

    open spec fn source_of(v: SystemMdView) -> SourceMetaView {
        v.source
    }

    open spec fn named_by(v: SystemMdView, name: Seq<char>) -> SystemMdView {
        SystemMdView { source: SourceMetaView { provider_name: name, ..v.source }, ..v }
    }

    fn key(&self) -> (r: Option<String>) {
        Some(self.level.as_str().to_string())
    }

    fn to_extension_id(&self) -> (r: Option<String>) {
        None
    }

    fn validate(&self) -> (r: Option<String>) {
        if to_chars(&self.path).len() == 0 {
            Some("Missing path".to_string())
        } else {
            None
        }
    }

    fn source(&self) -> (r: &SourceMeta) {
        &self.source
    }

    fn set_provider_name(self, name: &str) -> (r: SystemMd) {
        let mut file = self;
        file.source.provider_name = name.to_string();
        file
    }

    fn equivalent(&self, _later: &SystemMd) -> (r: bool) {
        false
    }

    fn duplicate(&self) -> (r: SystemMd) {
        self.clone()
    }
}

/// A place where a provider looks.
#[derive(Debug, PartialEq)]
pub struct PromptSpot {
    pub path: String,
    pub level: Level,
    /// Whether an empty file counts.
    pub keep_empty: bool,
}

/// What a [`PromptSpot`] stands for.
#[verifier::ext_equal]
pub struct PromptSpotView {
    pub path: Seq<char>,
    pub level: Level,
    pub keep_empty: bool,
}

impl View for PromptSpot {
    type V = PromptSpotView;

    open spec fn view(&self) -> PromptSpotView {
        PromptSpotView {
            path: self.path@,
            level: self.level,
            keep_empty: self.keep_empty,
        }
    }
}

impl Clone for PromptSpot {
    fn clone(&self) -> (r: PromptSpot)
        ensures
            r@ == self@,
    {
        PromptSpot {
            path: self.path.clone(),
            level: self.level,
            keep_empty: self.keep_empty,
        }
    }
}

/// A place.
pub open spec fn spot(path: Seq<char>, level: Level) -> PromptSpotView {
    PromptSpotView { path, level, keep_empty: false }
}

fn make_spot(path: String, level: Level) -> (r: PromptSpot)
    ensures
        r@ == spot(path@, level),
{
    PromptSpot { path, level, keep_empty: false }
}

/// The files that are at the places.
pub open spec fn prompts_at(fs: FsView, provider: Seq<char>, spots: Seq<PromptSpotView>) -> Seq<
    SystemMdView,
>
    decreases spots.len(),
{
    if spots.len() == 0 {
        Seq::empty()
    } else {
        let have = prompts_at(fs, provider, spots.drop_last());
        let s = spots.last();
        match files::file_at(fs, s.path) {
            Some(content) => if content.len() > 0 || s.keep_empty {
                have.push(
                    SystemMdView {
                        path: s.path,
                        content,
                        level: s.level,
                        source: capability::source_meta(fs.current, provider, s.path, s.level),
                    },
                )
            } else {
                have
            },
            None => have,
        }
    }
}

fn read_spots(fs: &mut FsCache, provider: &str, spots: &Vec<PromptSpot>) -> (r: Vec<SystemMd>)
    ensures
        final(fs)@ == old(fs)@,
        text::views(r@) == prompts_at(old(fs)@, provider@, text::views(spots@)),
        files::only_adds(old(fs).wanted@, final(fs).wanted@),
        files::asked_nothing(old(fs).wanted@, final(fs).wanted@) ==> forall|more: FsView| #[trigger]
            files::extends(more, old(fs)@) ==>
                prompts_at(more, provider@, text::views(spots@))
                    == prompts_at(old(fs)@, provider@, text::views(spots@)),
{
    proof {
        files::lemma_extends_current(fs@);
    }
    let ghost known = fs@;
    let ghost all = text::views(spots@);
    let mut out: Vec<SystemMd> = Vec::new();
    let mut i: usize = 0;
    proof {
        assert(all.take(0) =~= Seq::<PromptSpotView>::empty());
        assert(text::views(out@) =~= Seq::empty());
    }
    while i < spots.len()
        invariant
            i <= spots@.len(),
            fs@ == known,
            known == old(fs)@,
            all == text::views(spots@),
            text::views(out@) == prompts_at(known, provider@, all.take(i as int)),
            forall|more: FsView| #[trigger]
                files::extends(more, known) ==> more.current == known.current,
            files::only_adds(old(fs).wanted@, fs.wanted@),
            files::asked_nothing(old(fs).wanted@, fs.wanted@) ==> forall|more: FsView| #[trigger]
                files::extends(more, known) ==>
                    prompts_at(more, provider@, all.take(i as int))
                        == prompts_at(known, provider@, all.take(i as int)),
        decreases spots@.len() - i,
    {
        proof {
            assert(all.take(i as int + 1).drop_last() =~= all.take(i as int));
            assert(all.take(i as int + 1).last() == spots@[i as int]@);
        }
        let s = &spots[i];
        match fs.read_file(&s.path) {
            Some(content) => {
                if s.keep_empty || to_chars(&content).len() > 0 {
                    let source = SourceMeta::new(&fs.current, provider, &s.path, s.level);
                    let f = SystemMd { path: s.path.clone(), content, level: s.level, source };
                    proof {
                        text::lemma_views_push(out@, f);
                    }
                    out.push(f);
                }
            },
            None => {},
        }
        i += 1;
    }
    assert(all.take(i as int) =~= all);
    out
}

/// The native places.
pub open spec fn native_spots(fs: FsView, ctx: LoadContextView) -> Seq<PromptSpotView> {
    let user = spot(paths::joined(ctx.dirs.native_user_dir, "SYSTEM.md"@), Level::User);
    match context_files::nearest_native(fs, ctx, ctx.cwd, 0) {
        Some((dir, _)) => seq![user, spot(paths::joined(dir, "SYSTEM.md"@), Level::Project)],
        None => seq![user],
    }
}

fn find_native_spots(fs: &mut FsCache, ctx: &LoadContext) -> (r: Vec<PromptSpot>)
    ensures
        final(fs)@ == old(fs)@,
        text::views(r@) == native_spots(old(fs)@, ctx@),
        files::only_adds(old(fs).wanted@, final(fs).wanted@),
        files::asked_nothing(old(fs).wanted@, final(fs).wanted@) ==> forall|more: FsView| #[trigger]
            files::extends(more, old(fs)@) ==>
                native_spots(more, ctx@) == native_spots(old(fs)@, ctx@),
{
    let mut out: Vec<PromptSpot> = Vec::new();
    out.push(make_spot(join_path(&ctx.dirs.native_user_dir, "SYSTEM.md"), Level::User));
    match nearest_native_project_dir(fs, ctx) {
        Some((dir, _)) => {
            out.push(make_spot(join_path(&dir, "SYSTEM.md"), Level::Project));
        },
        None => {},
    }
    assert(text::views(out@) =~= native_spots(old(fs)@, ctx@));
    out
}

/// The place of the foreign agent, where an empty file counts.
pub open spec fn claude_spots(ctx: LoadContextView) -> Seq<PromptSpotView> {
    if capability::user_source_enabled(ctx, foreign::id()) {
        seq![
            PromptSpotView {
                keep_empty: true,
                ..spot(
                    paths::joined(context_files::claude_dir(ctx), "SYSTEM.md"@),
                    Level::User,
                )
            },
        ]
    } else {
        Seq::empty()
    }
}

fn find_claude_spots(ctx: &LoadContext) -> (r: Vec<PromptSpot>)
    ensures
        text::views(r@) == claude_spots(ctx@),
{
    let mut out: Vec<PromptSpot> = Vec::new();
    if ctx.is_user_source_enabled(&foreign::id_text()) {
        let mut s = make_spot(join_path(&claude_config_dir(ctx), "SYSTEM.md"), Level::User);
        s.keep_empty = true;
        out.push(s);
    }
    assert(text::views(out@) =~= claude_spots(ctx@));
    out
}

/// The two places of a directory.
pub open spec fn agent_pair(dir: Seq<char>, level: Level) -> Seq<PromptSpotView> {
    seq![
        spot(paths::joined(paths::joined(dir, ".agent"@), "SYSTEM.md"@), level),
        spot(paths::joined(paths::joined(dir, ".agents"@), "SYSTEM.md"@), level),
    ]
}

/// The places of the directories other than `skipped`.
pub open spec fn agent_pairs(dirs: Seq<Seq<char>>, skipped: Seq<char>, level: Level) -> Seq<
    PromptSpotView,
>
    decreases dirs.len(),
{
    if dirs.len() == 0 {
        Seq::empty()
    } else {
        let have = agent_pairs(dirs.drop_last(), skipped, level);
        if paths::same_place(dirs.last(), skipped) {
            have
        } else {
            have + agent_pair(dirs.last(), level)
        }
    }
}

fn push_agent_pair(out: &mut Vec<PromptSpot>, dir: &str, level: Level)
    ensures
        text::views(final(out)@) == text::views(old(out)@) + agent_pair(dir@, level),
{
    let ghost before = text::views(out@);
    out.push(make_spot(join_path(&join_path(dir, ".agent"), "SYSTEM.md"), level));
    out.push(make_spot(join_path(&join_path(dir, ".agents"), "SYSTEM.md"), level));
    assert(text::views(out@) =~= before + agent_pair(dir@, level));
}

fn push_agent_pairs(out: &mut Vec<PromptSpot>, dirs: &Vec<String>, skipped: &str, level: Level)
    ensures
        text::views(final(out)@) == text::views(old(out)@) + agent_pairs(
            text::views(dirs@),
            skipped@,
            level,
        ),
{
    let ghost before = text::views(out@);
    let ghost all = text::views(dirs@);
    let mut i: usize = 0;
    proof {
        assert(all.take(0) =~= Seq::<Seq<char>>::empty());
        assert(before + Seq::<PromptSpotView>::empty() =~= before);
    }
    while i < dirs.len()
        invariant
            i <= dirs@.len(),
            all == text::views(dirs@),
            text::views(out@) == before + agent_pairs(all.take(i as int), skipped@, level),
        decreases dirs@.len() - i,
    {
        proof {
            assert(all.take(i as int + 1).drop_last() =~= all.take(i as int));
            assert(all.take(i as int + 1).last() == dirs@[i as int]@);
        }
        if !paths::is_same_place(&dirs[i], skipped) {
            let ghost have = agent_pairs(all.take(i as int), skipped@, level);
            push_agent_pair(out, &dirs[i], level);
            assert(before + have + agent_pair(dirs@[i as int]@, level) =~= before + (have
                + agent_pair(dirs@[i as int]@, level)));
        }
        i += 1;
    }
    assert(all.take(i as int) =~= all);
}

/// The places in `.agent` and `.agents`.
pub open spec fn agents_spots(ctx: LoadContextView) -> Seq<PromptSpotView> {
    agent_pairs(
        paths::upwards(ctx.cwd, context_files::walk_end(ctx)),
        ctx.home,
        Level::Project,
    ) + agent_pair(ctx.home, Level::User) + agent_pairs(
        ctx.dirs.extra_user_homes,
        ctx.home,
        Level::User,
    )
}

fn find_agents_spots(ctx: &LoadContext) -> (r: Vec<PromptSpot>)
    ensures
        text::views(r@) == agents_spots(ctx@),
{
    let dirs = ancestors_until(&ctx.cwd, &walk_stop(ctx));
    let mut out: Vec<PromptSpot> = Vec::new();
    assert(text::views(out@) =~= Seq::empty());
    push_agent_pairs(&mut out, &dirs, &ctx.home, Level::Project);
    push_agent_pair(&mut out, &ctx.home, Level::User);
    push_agent_pairs(&mut out, &ctx.dirs.extra_user_homes, &ctx.home, Level::User);
    assert(text::views(out@) =~= agents_spots(ctx@));
    out
}

/// The places of Gemini.
pub open spec fn gemini_spots(ctx: LoadContextView) -> Seq<PromptSpotView> {
    let project = spot(paths::joined(ctx.cwd, ".gemini/system.md"@), Level::Project);
    if capability::user_source_enabled(ctx, "gemini"@) {
        seq![spot(paths::joined(ctx.home, ".gemini/system.md"@), Level::User), project]
    } else {
        seq![project]
    }
}

fn find_gemini_spots(ctx: &LoadContext) -> (r: Vec<PromptSpot>)
    ensures
        text::views(r@) == gemini_spots(ctx@),
{
    let mut out: Vec<PromptSpot> = Vec::new();
    if ctx.is_user_source_enabled("gemini") {
        out.push(make_spot(join_path(&ctx.home, ".gemini/system.md"), Level::User));
    }
    out.push(make_spot(join_path(&ctx.cwd, ".gemini/system.md"), Level::Project));
    assert(text::views(out@) =~= gemini_spots(ctx@));
    out
}

/// The places of a provider.
pub open spec fn spots_of(fs: FsView, ctx: LoadContextView, id: Seq<char>) -> Seq<PromptSpotView> {
    if id == "native"@ {
        native_spots(fs, ctx)
    } else if id == foreign::id() {
        claude_spots(ctx)
    } else if id == "agents"@ {
        agents_spots(ctx)
    } else if id == "gemini"@ {
        gemini_spots(ctx)
    } else {
        Seq::empty()
    }
}

fn load_provider(fs: &mut FsCache, ctx: &LoadContext, id: &str) -> (r: Vec<SystemMd>)
    ensures
        final(fs)@ == old(fs)@,
        text::views(r@) == prompts_at(old(fs)@, id@, spots_of(old(fs)@, ctx@, id@)),
        files::only_adds(old(fs).wanted@, final(fs).wanted@),
        files::asked_nothing(old(fs).wanted@, final(fs).wanted@) ==> forall|more: FsView| #[trigger]
            files::extends(more, old(fs)@) ==>
                prompts_at(more, id@, spots_of(more, ctx@, id@))
                    == prompts_at(old(fs)@, id@, spots_of(old(fs)@, ctx@, id@)),
{
    let spots: Vec<PromptSpot> = if same_text(id, "native") {
        find_native_spots(fs, ctx)
    } else if same_text(id, &foreign::id_text()) {
        find_claude_spots(ctx)
    } else if same_text(id, "agents") {
        find_agents_spots(ctx)
    } else if same_text(id, "gemini") {
        find_gemini_spots(ctx)
    } else {
        let none: Vec<PromptSpot> = Vec::new();
        assert(text::views(none@) =~= Seq::empty());
        none
    };
    read_spots(fs, id, &spots)
}

/// The providers of these files, as they are added.
pub open spec fn system_md_providers(native_name: Seq<char>) -> Seq<ProviderView> {
    seq![
        context_files::provider_view(
            "native"@,
            native_name,
            "SYSTEM.md from "@ + native_name,
            100,
        ),
        context_files::provider_view(foreign::id(), foreign::title(), "SYSTEM.md from "@ + foreign::title(), 80),
        context_files::provider_view(
            "agents"@,
            "Agent Dirs (.agent/.agents)"@,
            "SYSTEM.md from Agent Dirs (.agent/.agents)"@,
            70,
        ),
        context_files::provider_view("gemini"@, "Gemini CLI"@, "SYSTEM.md from Gemini CLI"@, 60),
    ]
}

/// The files that customize the system prompt, with their providers.
pub fn system_md_capability(native_name: &str) -> (r: Capability)
    ensures
        r@.id == "system-prompt"@,
        r@.display_name == "System Prompt"@,
        r@.description == "Custom system prompt files (SYSTEM.md) that modify agent behavior"@,
        r@.providers == capability::all_registered(Seq::empty(), system_md_providers(native_name@)),
{
    let mut kind = Capability::new(
        "system-prompt",
        "System Prompt",
        "Custom system prompt files (SYSTEM.md) that modify agent behavior",
    );
    let mut all: Vec<Provider> = Vec::new();
    all.push(
        make_provider("native", native_name, &text::concat("SYSTEM.md from ", native_name), 100),
    );
    all.push(make_provider(&foreign::id_text(), &foreign::title_text(), &concat("SYSTEM.md from ", &foreign::title_text()), 80));
    all.push(
        make_provider(
            "agents",
            "Agent Dirs (.agent/.agents)",
            "SYSTEM.md from Agent Dirs (.agent/.agents)",
            70,
        ),
    );
    all.push(make_provider("gemini", "Gemini CLI", "SYSTEM.md from Gemini CLI", 60));
    assert(text::views(all@) =~= system_md_providers(native_name@));
    kind.register_all(&all);
    kind
}

/// What comes of asking providers.
pub open spec fn system_md_outcomes(
    fs: FsView,
    ctx: LoadContextView,
    providers: Seq<ProviderView>,
) -> Seq<OutcomeView<SystemMdView>> {
    providers.map_values(
        |p: ProviderView|
            capability::found_items(prompts_at(fs, p.id, spots_of(fs, ctx, p.id)), Seq::empty()),
    )
}

/// The options that hold where none are given.
pub open spec fn no_options() -> LoadOptionsView {
    project::without_extensions(Seq::empty())
}

/// The files that count for a working directory.
pub open spec fn system_prompts(d: DiscoveryView, cwd: Seq<char>) -> CapabilityResultView<
    SystemMdView,
> {
    let ctx = project::context_at(d, cwd);
    let asked = capability::asked(
        capability::all_registered(Seq::empty(), system_md_providers(d.dirs.native_name)),
        d.policy,
        no_options(),
    );
    capability::loaded::<SystemMd>(asked, system_md_outcomes(d.fs, ctx, asked), no_options())
}

/// The first file of a level, from `i` on.
pub open spec fn first_of(items: Seq<SystemMdView>, level: Level, i: int) -> Option<SystemMdView>
    decreases items.len() - i,
{
    if i < 0 || i >= items.len() {
        None
    } else if items[i].level == level {
        Some(items[i])
    } else {
        first_of(items, level, i + 1)
    }
}

/// The file that counts: that of the project, or else that of the user.
pub open spec fn chosen(items: Seq<SystemMdView>) -> Option<SystemMdView> {
    match first_of(items, Level::Project, 0) {
        Some(f) => Some(f),
        None => first_of(items, Level::User, 0),
    }
}

fn find_first(items: &Vec<SystemMd>, level: Level) -> (r: Option<SystemMd>)
    ensures
        text::opt_view(r) == first_of(text::views(items@), level, 0),
{
    let ghost all = text::views(items@);
    let mut i: usize = 0;
    while i < items.len()
        invariant
            i <= items@.len(),
            all == text::views(items@),
            first_of(all, level, 0) == first_of(all, level, i as int),
        decreases items@.len() - i,
    {
        assert(all[i as int] == items@[i as int]@);
        if items[i].level == level {
            return Some(items[i].clone());
        }
        i += 1;
    }
    None
}

impl Discovery {
    /// The file that customizes the system prompt: that of the project, or else that of the user.
    pub fn load_system_prompt_file(&mut self, cwd: &str) -> (r: Option<SystemMd>)
        ensures
            final(self)@ == old(self)@,
            text::opt_view(r) == chosen(system_prompts(old(self)@, cwd@).items),
            files::only_adds(old(self).fs.wanted@, final(self).fs.wanted@),
            files::asked_nothing(old(self).fs.wanted@, final(self).fs.wanted@) ==> forall|more: FsView| #[trigger]
                files::extends(more, old(self)@.fs) ==>
                    system_prompts((DiscoveryView { fs: more, ..old(self)@ }), cwd@)
                        == system_prompts(old(self)@, cwd@),
    {
        let ghost d = self@;
        let kind = system_md_capability(&self.dirs.native_name);
        let ctx = self.context(cwd);
        let options = LoadOptions::default();
        let asked = kind.selected(&self.policy, &options);
        let ghost all = text::views(asked@);
        let ghost outs = system_md_outcomes(d.fs, ctx@, all);
        let mut outcomes: Vec<Outcome<SystemMd>> = Vec::new();
        let mut i: usize = 0;
        assert(text::views(outcomes@) =~= outs.take(0));
        while i < asked.len()
            invariant
                i <= asked@.len(),
                self@ == d,
                d == old(self)@,
                all == text::views(asked@),
                outs == system_md_outcomes(d.fs, ctx@, all),
                text::views(outcomes@) == outs.take(i as int),
                outcomes@.len() == i,
                files::only_adds(old(self).fs.wanted@, self.fs.wanted@),
                files::asked_nothing(old(self).fs.wanted@, self.fs.wanted@) ==> forall|
                    more: FsView,
                | #[trigger]
                    files::extends(more, d.fs) ==> project::context_at(
                        (DiscoveryView { fs: more, ..d }),
                        cwd@,
                    ) == ctx@,
                files::asked_nothing(old(self).fs.wanted@, self.fs.wanted@) ==> forall|
                    more: FsView,
                    j: int,
                |
                    #![trigger files::extends(more, d.fs), all[j]]
                    files::extends(more, d.fs) && 0 <= j < i ==> prompts_at(
                        more,
                        all[j].id,
                        spots_of(more, ctx@, all[j].id),
                    ) == prompts_at(d.fs, all[j].id, spots_of(d.fs, ctx@, all[j].id)),
            decreases asked@.len() - i,
        {
            let items = load_provider(&mut self.fs, &ctx, &asked[i].id);
            let none: Vec<String> = Vec::new();
            assert(text::views(none@) =~= Seq::<Seq<char>>::empty());
            let o = found(items, none);
            proof {
                text::lemma_views_push(outcomes@, o);
                assert(all[i as int] == asked@[i as int]@);
                assert(outs[i as int] == o@);
                assert(outs.take(i as int + 1) =~= outs.take(i as int).push(o@));
            }
            outcomes.push(o);
            i += 1;
        }
        assert(outs.take(i as int) =~= outs);
        proof {
            if files::asked_nothing(old(self).fs.wanted@, self.fs.wanted@) {
                assert forall|more: FsView| #[trigger]
                    files::extends(more, d.fs) implies system_md_outcomes(more, ctx@, all)
                    == outs by {
                    assert(system_md_outcomes(more, ctx@, all) =~= outs);
                }
            }
        }
        let result = merge_outcomes(&asked, outcomes, &options);
        match find_first(&result.items, Level::Project) {
            Some(f) => Some(f),
            None => find_first(&result.items, Level::User),
        }
    }
}

// ------------------------------------------------------------------ laws

/// Where a file of the project counts, it is chosen.
pub proof fn law_the_project_prompt_wins(items: Seq<SystemMdView>, i: int)
    requires
        0 <= i < items.len(),
        items[i].level == Level::Project,
    ensures
        chosen(items) is Some,
        chosen(items).unwrap().level == Level::Project,
{
    lemma_first_of(items, Level::Project, 0, i);
}

proof fn lemma_first_of(items: Seq<SystemMdView>, level: Level, from: int, i: int)
    requires
        0 <= from <= i < items.len(),
        items[i].level == level,
    ensures
        first_of(items, level, from) is Some,
        first_of(items, level, from).unwrap().level == level,
    decreases i - from,
{
    if items[from].level != level {
        lemma_first_of(items, level, from + 1, i);
    }
}

} // verus!
