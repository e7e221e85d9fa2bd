//! Kinds of discovered things: where they come from, and which of several counts.
use crate::foreign;
use crate::paths;
use crate::paths::{join_path, resolve};
use crate::text;
use crate::text::{
    clone_all, clone_opt_string, clone_strings, contains_text, lower_text, same_text, slice_string,
    split_text, to_chars, trim_text, Space,
};
use vstd::prelude::*;

verus! {

/// Where a thing came from.
#[derive(Clone, Copy, Debug, PartialEq, Eq, Structural)]
pub enum Level {
    User,
    Project,
    Native,
}

/// The word for a level.
pub open spec fn level_word(level: Level) -> Seq<char> {
    match level {
        Level::User => "user"@,
        Level::Project => "project"@,
        Level::Native => "native"@,
    }
}

impl Level {
    /// The word for a level.
    pub fn as_str(self) -> (r: &'static str)
        ensures
            r@ == level_word(self),
    {
        match self {
            Level::User => "user",
            Level::Project => "project",
            Level::Native => "native",
        }
    }
}

/// Where an item came from.
#[derive(Debug, PartialEq)]
pub struct SourceMeta {
    /// The provider that found it.
    pub provider: String,
    /// What that provider is called.
    pub provider_name: String,
    /// The file.
    pub path: String,
    pub level: Level,
}

/// What a [`SourceMeta`] stands for.
#[verifier::ext_equal]
pub struct SourceMetaView {
    pub provider: Seq<char>,
    pub provider_name: Seq<char>,
    pub path: Seq<char>,
    pub level: Level,
}

impl View for SourceMeta {
    type V = SourceMetaView;

    open spec fn view(&self) -> SourceMetaView {
        SourceMetaView {
            provider: self.provider@,
            provider_name: self.provider_name@,
            path: self.path@,
            level: self.level,
        }
    }
}

impl Clone for SourceMeta {
    fn clone(&self) -> (r: SourceMeta)
        ensures
            r@ == self@,
    {
        SourceMeta {
            provider: self.provider.clone(),
            provider_name: self.provider_name.clone(),
            path: self.path.clone(),
            level: self.level,
        }
    }
}

/// Where an item came from that a provider has just found in a file.
pub open spec fn source_meta(
    current: Seq<char>,
    provider: Seq<char>,
    path: Seq<char>,
    level: Level,
) -> SourceMetaView {
    SourceMetaView {
        provider,
        provider_name: Seq::empty(),
        path: paths::resolved(current, path),
        level,
    }
}

impl SourceMeta {
    /// Where an item came from that a provider has just found in a file, seen from `current`.
    pub fn new(current: &str, provider: &str, path: &str, level: Level) -> (r: SourceMeta)
        ensures
            r@ == source_meta(current@, provider@, path@, level),
    {
        let nothing = String::new();
        assert(nothing@ =~= Seq::empty());
        SourceMeta {
            provider: provider.to_string(),
            provider_name: nothing,
            path: resolve(current, path),
            level,
        }
    }
}

// ------------------------------------------------------------------ the host

/// Where the configuration of the host and of other tools lives.
#[derive(Debug)]
pub struct HostDirs {
    /// What the native provider is called.
    pub native_name: String,
    /// The native configuration of the user.
    pub native_user_dir: String,
    /// The name of the native configuration directory of a project.
    pub native_project_dir: String,
    pub claude_config_dir: Option<String>,
    pub copilot_home: Option<String>,
    pub copilot_custom_instruction_dirs: Vec<String>,
    /// More home directories to look for `.agent` and `.agents` in.
    pub extra_user_homes: Vec<String>,
}

/// What a [`HostDirs`] stands for.
#[verifier::ext_equal]
pub struct HostDirsView {
    pub native_name: Seq<char>,
    pub native_user_dir: Seq<char>,
    pub native_project_dir: Seq<char>,
    pub claude_config_dir: Option<Seq<char>>,
    pub copilot_home: Option<Seq<char>>,
    pub copilot_custom_instruction_dirs: Seq<Seq<char>>,
    pub extra_user_homes: Seq<Seq<char>>,
}

impl View for HostDirs {
    type V = HostDirsView;

    open spec fn view(&self) -> HostDirsView {
        HostDirsView {
            native_name: self.native_name@,
            native_user_dir: self.native_user_dir@,
            native_project_dir: self.native_project_dir@,
            claude_config_dir: text::opt_view(self.claude_config_dir),
            copilot_home: text::opt_view(self.copilot_home),
            copilot_custom_instruction_dirs: text::views(self.copilot_custom_instruction_dirs@),
            extra_user_homes: text::views(self.extra_user_homes@),
        }
    }
}

impl Clone for HostDirs {
    fn clone(&self) -> (r: HostDirs)
        ensures
            r@ == self@,
    {
        HostDirs {
            native_name: self.native_name.clone(),
            native_user_dir: self.native_user_dir.clone(),
            native_project_dir: self.native_project_dir.clone(),
            claude_config_dir: clone_opt_string(&self.claude_config_dir),
            copilot_home: clone_opt_string(&self.copilot_home),
            copilot_custom_instruction_dirs: clone_strings(&self.copilot_custom_instruction_dirs),
            extra_user_homes: clone_strings(&self.extra_user_homes),
        }
    }
}

/// What the environment of the process says of where other tools live.
#[derive(Debug)]
pub struct HostEnv {
    /// The directory of the process.
    pub current: String,
    /// Whether the process runs on Linux, where Windows drives may be mounted.
    pub linux: bool,
    pub claude_config_dir: Option<String>,
    pub copilot_home: Option<String>,
    pub copilot_custom_instructions_dirs: Option<String>,
    pub wsl_distro_name: Option<String>,
    pub wsl_interop: Option<String>,
    pub user_profile: Option<String>,
}

/// What a [`HostEnv`] stands for.
#[verifier::ext_equal]
pub struct HostEnvView {
    pub current: Seq<char>,
    pub linux: bool,
    pub claude_config_dir: Option<Seq<char>>,
    pub copilot_home: Option<Seq<char>>,
    pub copilot_custom_instructions_dirs: Option<Seq<char>>,
    pub wsl_distro_name: Option<Seq<char>>,
    pub wsl_interop: Option<Seq<char>>,
    pub user_profile: Option<Seq<char>>,
}

impl View for HostEnv {
    type V = HostEnvView;

    open spec fn view(&self) -> HostEnvView {
        HostEnvView {
            current: self.current@,
            linux: self.linux,
            claude_config_dir: text::opt_view(self.claude_config_dir),
            copilot_home: text::opt_view(self.copilot_home),
            copilot_custom_instructions_dirs: text::opt_view(self.copilot_custom_instructions_dirs),
            wsl_distro_name: text::opt_view(self.wsl_distro_name),
            wsl_interop: text::opt_view(self.wsl_interop),
            user_profile: text::opt_view(self.user_profile),
        }
    }
}

impl Clone for HostEnv {
    fn clone(&self) -> (r: HostEnv)
        ensures
            r@ == self@,
    {
        HostEnv {
            current: self.current.clone(),
            linux: self.linux,
            claude_config_dir: clone_opt_string(&self.claude_config_dir),
            copilot_home: clone_opt_string(&self.copilot_home),
            copilot_custom_instructions_dirs: clone_opt_string(&self.copilot_custom_instructions_dirs),
            wsl_distro_name: clone_opt_string(&self.wsl_distro_name),
            wsl_interop: clone_opt_string(&self.wsl_interop),
            user_profile: clone_opt_string(&self.user_profile),
        }
    }
}

/// A setting without white space around it; nothing where nothing is left.
pub open spec fn setting(v: Option<Seq<char>>) -> Option<Seq<char>> {
    match v {
        Some(s) => if text::trim(Space::Unicode, s).len() > 0 {
            Some(text::trim(Space::Unicode, s))
        } else {
            None
        },
        None => None,
    }
}

pub(crate) fn trimmed_setting(v: &Option<String>) -> (r: Option<String>)
    ensures
        text::opt_view(r) == setting(text::opt_view(*v)),
{
    match v {
        Some(s) => {
            let t = trim_text(Space::Unicode, s);
            if to_chars(&t).len() > 0 {
                Some(t)
            } else {
                None
            }
        },
        None => None,
    }
}

/// The pieces without white space around them, as far as anything is left of them.
pub open spec fn list_items(pieces: Seq<Seq<char>>) -> Seq<Seq<char>>
    decreases pieces.len(),
{
    if pieces.len() == 0 {
        Seq::empty()
    } else {
        let have = list_items(pieces.drop_last());
        let last = text::trim(Space::Unicode, pieces.last());
        if last.len() > 0 {
            have.push(last)
        } else {
            have
        }
    }
}

/// The items of a list with commas.
pub open spec fn comma_list(v: Option<Seq<char>>) -> Seq<Seq<char>> {
    match v {
        Some(s) => list_items(text::split(s, ',')),
        None => Seq::empty(),
    }
}

fn split_list(v: &Option<String>) -> (r: Vec<String>)
    ensures
        text::views(r@) == comma_list(text::opt_view(*v)),
{
    let mut out: Vec<String> = Vec::new();
    assert(text::views(out@) =~= Seq::empty());
    match v {
        Some(s) => {
            let pieces = split_text(s, ',');
            let ghost all = text::split(s@, ',');
            let mut i: usize = 0;
            assert(all.take(0) =~= Seq::<Seq<char>>::empty());
            while i < pieces.len()
                invariant
                    i <= pieces@.len(),
                    all == text::views(pieces@),
                    text::views(out@) == list_items(all.take(i as int)),
                decreases pieces@.len() - i,
            {
                proof {
                    assert(all.take(i as int + 1).drop_last() =~= all.take(i as int));
                    assert(all.take(i as int + 1).last() == pieces@[i as int]@);
                }
                let t = trim_text(Space::Unicode, &pieces[i]);
                if to_chars(&t).len() > 0 {
                    proof {
                        text::lemma_views_push(out@, t);
                    }
                    out.push(t);
                }
                i += 1;
            }
            assert(all.take(i as int) =~= all);
            out
        },
        None => out,
    }
}

/// A letter of ASCII.
pub open spec fn is_letter(c: char) -> bool {
    ('a' <= c && c <= 'z') || ('A' <= c && c <= 'Z')
}

/// Where Linux under Windows finds a path of Windows: `/mnt/`, the letter of the drive, and the
/// rest. A path from the root is one already. Nothing where the path is neither.
pub open spec fn wsl_mount(path: Seq<char>) -> Option<Seq<char>> {
    let p = text::trim(Space::Unicode, path);
    if paths::is_rooted(p) {
        Some(paths::resolved(seq!['/'], p))
    } else if p.len() >= 2 && is_letter(p[0]) && p[1] == ':' && (p.len() == 2 || p[2] == '\\' || p[2]
        == '/') {
        Some(
            paths::resolved(
                seq!['/'],
                "/mnt/"@ + text::lower(p.take(1)) + text::replaced(p.skip(2), "\\"@, "/"@),
            ),
        )
    } else {
        None
    }
}

/// Where Linux under Windows finds a path of Windows.
pub fn windows_path_to_wsl_mount(path: &str) -> (r: Option<String>)
    ensures
        text::opt_view(r) == wsl_mount(path@),
{
    proof {
        reveal_strlit("/");
        assert("/"@ =~= seq!['/']);
        reveal_strlit("\\");
        assert("\\"@.len() == 1);
    }
    let p = trim_text(Space::Unicode, path);
    if paths::is_absolute(&p) {
        return Some(resolve("/", &p));
    }
    let v = to_chars(&p);
    let n: usize = v.len();
    if n < 2 || v[1] != ':' {
        return None;
    }
    let drive = v[0];
    if !(('a' <= drive && drive <= 'z') || ('A' <= drive && drive <= 'Z')) {
        return None;
    }
    if n > 2 && v[2] != '\\' && v[2] != '/' {
        return None;
    }
    let letter = slice_string(&v, 0, 1);
    let rest = slice_string(&v, 2, n);
    assert(letter@ =~= p@.take(1));
    assert(rest@ =~= p@.skip(2));
    let mut out = "/mnt/".to_string();
    out.append(&lower_text(&letter));
    out.append(&text::replace_text(&rest, "\\", "/"));
    Some(resolve("/", &out))
}

/// Something that is not empty.
pub open spec fn is_set(v: Option<Seq<char>>) -> bool {
    v is Some && v.unwrap().len() > 0
}

fn has_text(v: &Option<String>) -> (r: bool)
    ensures
        r == is_set(text::opt_view(*v)),
{
    match v {
        Some(s) => to_chars(s).len() > 0,
        None => false,
    }
}

/// Where things live by default, for a home directory.
pub open spec fn default_dirs(home: Seq<char>) -> HostDirsView {
    HostDirsView {
        native_name: "ARA"@,
        native_user_dir: paths::joined(paths::joined(home, ".ara"@), "agent"@),
        native_project_dir: ".ara"@,
        claude_config_dir: None,
        copilot_home: None,
        copilot_custom_instruction_dirs: Seq::empty(),
        extra_user_homes: Seq::empty(),
    }
}

/// Where things live, given what the environment says.
pub open spec fn dirs_with_env(dirs: HostDirsView, env: HostEnvView) -> HostDirsView {
    let wsl = env.linux && (is_set(env.wsl_distro_name) || is_set(env.wsl_interop));
    let profile = match env.user_profile {
        Some(p) => wsl_mount(p),
        None => None,
    };
    HostDirsView {
        claude_config_dir: match setting(env.claude_config_dir) {
            Some(d) => Some(paths::resolved(env.current, d)),
            None => None,
        },
        copilot_home: setting(env.copilot_home),
        copilot_custom_instruction_dirs: comma_list(env.copilot_custom_instructions_dirs),
        extra_user_homes: if wsl && profile is Some {
            seq![profile.unwrap()]
        } else {
            dirs.extra_user_homes
        },
        ..dirs
    }
}

impl HostDirs {
    /// Where things live by default, for a home directory.
    pub fn ara(home: &str) -> (r: HostDirs)
        ensures
            r@ == default_dirs(home@),
    {
        let r = HostDirs {
            native_name: "ARA".to_string(),
            native_user_dir: join_path(&join_path(home, ".ara"), "agent"),
            native_project_dir: ".ara".to_string(),
            claude_config_dir: None,
            copilot_home: None,
            copilot_custom_instruction_dirs: Vec::new(),
            extra_user_homes: Vec::new(),
        };
        assert(r@.copilot_custom_instruction_dirs =~= Seq::empty());
        assert(r@.extra_user_homes =~= Seq::empty());
        r
    }

    /// Where things live, given what the environment says.
    pub fn with_env(self, env: &HostEnv) -> (r: HostDirs)
        ensures
            r@ == dirs_with_env(self@, env@),
    {
        let mut dirs = self;
        dirs.claude_config_dir = match trimmed_setting(&env.claude_config_dir) {
            Some(d) => Some(resolve(&env.current, &d)),
            None => None,
        };
        dirs.copilot_home = trimmed_setting(&env.copilot_home);
        dirs.copilot_custom_instruction_dirs = split_list(&env.copilot_custom_instructions_dirs);
        if env.linux && (has_text(&env.wsl_distro_name) || has_text(&env.wsl_interop)) {
            let profile = match &env.user_profile {
                Some(p) => windows_path_to_wsl_mount(p),
                None => None,
            };
            match profile {
                Some(p) => {
                    let mut homes: Vec<String> = Vec::new();
                    let ghost pv = p@;
                    homes.push(p);
                    assert(text::views(homes@) =~= seq![pv]);
                    dirs.extra_user_homes = homes;
                },
                None => {},
            }
        }
        dirs
    }
}

/// Which providers are on.
#[derive(Debug)]
pub struct ProviderPolicy {
    /// The providers that are off.
    pub disabled: Vec<String>,
    /// The foreign tools whose configuration of the user counts; `*` and `all` mean every one.
    pub enabled_user_sources: Vec<String>,
}

/// What a [`ProviderPolicy`] stands for.
#[verifier::ext_equal]
pub struct ProviderPolicyView {
    pub disabled: Seq<Seq<char>>,
    pub enabled_user_sources: Seq<Seq<char>>,
}

impl View for ProviderPolicy {
    type V = ProviderPolicyView;

    open spec fn view(&self) -> ProviderPolicyView {
        ProviderPolicyView {
            disabled: text::views(self.disabled@),
            enabled_user_sources: text::views(self.enabled_user_sources@),
        }
    }
}

impl Clone for ProviderPolicy {
    fn clone(&self) -> (r: ProviderPolicy)
        ensures
            r@ == self@,
    {
        ProviderPolicy {
            disabled: clone_strings(&self.disabled),
            enabled_user_sources: clone_strings(&self.enabled_user_sources),
        }
    }
}

impl Default for ProviderPolicy {
    fn default() -> (r: ProviderPolicy)
        ensures
            r@ == (ProviderPolicyView { disabled: Seq::empty(), enabled_user_sources: Seq::empty() }),
    {
        let r = ProviderPolicy { disabled: Vec::new(), enabled_user_sources: Vec::new() };
        assert(r@.disabled =~= Seq::empty());
        assert(r@.enabled_user_sources =~= Seq::empty());
        r
    }
}

/// Which skills of the user count whatever the policy says.
#[derive(Clone, Copy, Debug, PartialEq, Eq, Structural)]
pub struct SkillToggles {
    pub claude_user: bool,
    pub codex_user: bool,
}

impl Default for SkillToggles {
    fn default() -> (r: SkillToggles)
        ensures
            r == (SkillToggles { claude_user: false, codex_user: false }),
    {
        SkillToggles { claude_user: false, codex_user: false }
    }
}

/// What every provider is given.
#[derive(Debug)]
pub struct LoadContext {
    pub cwd: String,
    pub home: String,
    /// The directory that holds `.git`, if any.
    pub repo_root: Option<String>,
    /// The providers that were asked for by name.
    pub explicit_providers: Option<Vec<String>>,
    /// Whether foreign configuration of the user counts though nothing says so.
    pub include_opt_out_user_sources: bool,
    pub dirs: HostDirs,
    pub policy: ProviderPolicy,
    pub skill_toggles: SkillToggles,
}

/// What a [`LoadContext`] stands for.
#[verifier::ext_equal]
pub struct LoadContextView {
    pub cwd: Seq<char>,
    pub home: Seq<char>,
    pub repo_root: Option<Seq<char>>,
    pub explicit_providers: Option<Seq<Seq<char>>>,
    pub include_opt_out_user_sources: bool,
    pub dirs: HostDirsView,
    pub policy: ProviderPolicyView,
    pub skill_toggles: SkillToggles,
}

impl View for LoadContext {
    type V = LoadContextView;

    open spec fn view(&self) -> LoadContextView {
        LoadContextView {
            cwd: self.cwd@,
            home: self.home@,
            repo_root: text::opt_view(self.repo_root),
            explicit_providers: match self.explicit_providers { Some(v) => Some(text::views(v@)), None => None },
            include_opt_out_user_sources: self.include_opt_out_user_sources,
            dirs: self.dirs@,
            policy: self.policy@,
            skill_toggles: self.skill_toggles,
        }
    }
}

impl Clone for LoadContext {
    fn clone(&self) -> (r: LoadContext)
        ensures
            r@ == self@,
    {
        LoadContext {
            cwd: self.cwd.clone(),
            home: self.home.clone(),
            repo_root: clone_opt_string(&self.repo_root),
            explicit_providers: match &self.explicit_providers { Some(v) => Some(clone_all(v)), None => None },
            include_opt_out_user_sources: self.include_opt_out_user_sources,
            dirs: self.dirs.clone(),
            policy: self.policy.clone(),
            skill_toggles: self.skill_toggles,
        }
    }
}

/// A foreign tool whose configuration of the user counts only where something says so.
pub open spec fn is_foreign(id: Seq<char>) -> bool {
    id == "cursor"@ || id == "codex"@ || id == foreign::id() || id == foreign::plugins_id() || id
        == "gemini"@ || id == "opencode"@ || id == "windsurf"@ || id == "github"@
}

fn foreign(id: &str) -> (r: bool)
    ensures
        r == is_foreign(id@),
{
    same_text(id, "cursor") || same_text(id, "codex") || same_text(id, &foreign::id_text()) || same_text(
        id,
        &foreign::plugins_id_text(),
    ) || same_text(id, "gemini") || same_text(id, "opencode") || same_text(id, "windsurf")
        || same_text(id, "github")
}

/// The name of a provider without a leading dot.
pub open spec fn undotted(source: Seq<char>) -> Seq<char> {
    if source.len() > 0 && source[0] == '.' {
        source.skip(1)
    } else {
        source
    }
}

/// Whether the configuration of the user counts for a tool: not where the tool is off; for the
/// native one and for `.agents` always, for a foreign one where it was asked for or opted in.
pub open spec fn user_source_enabled(ctx: LoadContextView, source: Seq<char>) -> bool {
    let id = undotted(source);
    let enabled = ctx.policy.enabled_user_sources;
    if ctx.policy.disabled.contains(id) {
        false
    } else {
        ||| !is_foreign(id)
        ||| ctx.explicit_providers is Some && ctx.explicit_providers.unwrap().contains(id)
        ||| ctx.include_opt_out_user_sources
        ||| enabled.contains(id) || enabled.contains("*"@) || enabled.contains("all"@)
        ||| id == foreign::plugins_id() && enabled.contains(foreign::id())
        ||| id == foreign::id() && ctx.dirs.claude_config_dir is Some
    }
}

impl LoadContext {
    /// Whether the configuration of the user counts for a tool.
    pub fn is_user_source_enabled(&self, source: &str) -> (r: bool)
        ensures
            r == user_source_enabled(self@, source@),
    {
        let v = to_chars(source);
        let n: usize = v.len();
        let id = if n > 0 && v[0] == '.' {
            slice_string(&v, 1, n)
        } else {
            source.to_string()
        };
        assert(id@ =~= undotted(source@));
        if contains_text(&self.policy.disabled, &id) {
            return false;
        }
        if !foreign(&id) {
            return true;
        }
        let asked = match &self.explicit_providers {
            Some(p) => contains_text(p, &id),
            None => false,
        };
        if asked || self.include_opt_out_user_sources {
            return true;
        }
        let enabled = &self.policy.enabled_user_sources;
        contains_text(enabled, &id) || contains_text(enabled, "*") || contains_text(enabled, "all")
            || (same_text(&id, &foreign::plugins_id_text()) && contains_text(enabled, &foreign::id_text())) || (
        same_text(&id, &foreign::id_text()) && self.dirs.claude_config_dir.is_some())
    }
}

// ------------------------------------------------------------------ providers

/// A source of items of a kind.
#[derive(Debug)]
pub struct Provider {
    pub id: String,
    pub display_name: String,
    pub description: String,
    /// The higher comes first and wins.
    pub priority: i32,
}

/// What a [`Provider`] stands for.
#[verifier::ext_equal]
pub struct ProviderView {
    pub id: Seq<char>,
    pub display_name: Seq<char>,
    pub description: Seq<char>,
    pub priority: i32,
}

impl View for Provider {
    type V = ProviderView;

    open spec fn view(&self) -> ProviderView {
        ProviderView {
            id: self.id@,
            display_name: self.display_name@,
            description: self.description@,
            priority: self.priority,
        }
    }
}

impl Clone for Provider {
    fn clone(&self) -> (r: Provider)
        ensures
            r@ == self@,
    {
        Provider {
            id: self.id.clone(),
            display_name: self.display_name.clone(),
            description: self.description.clone(),
            priority: self.priority,
        }
    }
}

/// A kind of discovered things, with its providers.
#[derive(Debug)]
pub struct Capability {
    pub id: String,
    pub display_name: String,
    pub description: String,
    pub providers: Vec<Provider>,
}

/// What a [`Capability`] stands for.
#[verifier::ext_equal]
pub struct CapabilityView {
    pub id: Seq<char>,
    pub display_name: Seq<char>,
    pub description: Seq<char>,
    pub providers: Seq<ProviderView>,
}

impl View for Capability {
    type V = CapabilityView;

    open spec fn view(&self) -> CapabilityView {
        CapabilityView {
            id: self.id@,
            display_name: self.display_name@,
            description: self.description@,
            providers: text::views(self.providers@),
        }
    }
}

impl Clone for Capability {
    fn clone(&self) -> (r: Capability)
        ensures
            r@ == self@,
    {
        Capability {
            id: self.id.clone(),
            display_name: self.display_name.clone(),
            description: self.description.clone(),
            providers: clone_all(&self.providers),
        }
    }
}

/// Which items are wanted.
#[derive(Debug)]
pub struct LoadOptions {
    /// Only these providers.
    pub providers: Option<Vec<String>>,
    pub exclude_providers: Vec<String>,
    pub include_invalid: bool,
    /// Whether disabled extensions count too.
    pub include_disabled: bool,
    pub disabled_extensions: Vec<String>,
}

/// What a [`LoadOptions`] stands for.
#[verifier::ext_equal]
pub struct LoadOptionsView {
    pub providers: Option<Seq<Seq<char>>>,
    pub exclude_providers: Seq<Seq<char>>,
    pub include_invalid: bool,
    pub include_disabled: bool,
    pub disabled_extensions: Seq<Seq<char>>,
}

impl View for LoadOptions {
    type V = LoadOptionsView;

    open spec fn view(&self) -> LoadOptionsView {
        LoadOptionsView {
            providers: match self.providers { Some(v) => Some(text::views(v@)), None => None },
            exclude_providers: text::views(self.exclude_providers@),
            include_invalid: self.include_invalid,
            include_disabled: self.include_disabled,
            disabled_extensions: text::views(self.disabled_extensions@),
        }
    }
}

impl Clone for LoadOptions {
    fn clone(&self) -> (r: LoadOptions)
        ensures
            r@ == self@,
    {
        LoadOptions {
            providers: match &self.providers { Some(v) => Some(clone_all(v)), None => None },
            exclude_providers: clone_strings(&self.exclude_providers),
            include_invalid: self.include_invalid,
            include_disabled: self.include_disabled,
            disabled_extensions: clone_strings(&self.disabled_extensions),
        }
    }
}

impl Default for LoadOptions {
    fn default() -> (r: LoadOptions)
        ensures
            r@ == (LoadOptionsView {
                providers: None,
                exclude_providers: Seq::empty(),
                include_invalid: false,
                include_disabled: false,
                disabled_extensions: Seq::empty(),
            }),
    {
        let r = LoadOptions {
            providers: None,
            exclude_providers: Vec::new(),
            include_invalid: false,
            include_disabled: false,
            disabled_extensions: Vec::new(),
        };
        assert(r@.exclude_providers =~= Seq::empty());
        assert(r@.disabled_extensions =~= Seq::empty());
        r
    }
}

/// The first index from `i` on whose provider has a lower priority, or the length.
pub open spec fn lower_from(providers: Seq<ProviderView>, priority: i32, i: int) -> int
    decreases providers.len() - i,
{
    if i < 0 || i >= providers.len() || providers[i].priority < priority {
        i
    } else {
        lower_from(providers, priority, i + 1)
    }
}

/// The providers with one more: behind those of its priority and higher ones.
pub open spec fn registered(providers: Seq<ProviderView>, p: ProviderView) -> Seq<ProviderView> {
    providers.insert(lower_from(providers, p.priority, 0), p)
}

/// The providers after several were added one after the other.
pub open spec fn all_registered(providers: Seq<ProviderView>, more: Seq<ProviderView>) -> Seq<
    ProviderView,
>
    decreases more.len(),
{
    if more.len() == 0 {
        providers
    } else {
        registered(all_registered(providers, more.drop_last()), more.last())
    }
}

/// Whether a provider is asked.
pub open spec fn is_asked(p: ProviderView, policy: ProviderPolicyView, options: LoadOptionsView) -> bool {
    &&& !policy.disabled.contains(p.id)
    &&& options.providers is None || options.providers.unwrap().contains(p.id)
    &&& !options.exclude_providers.contains(p.id)
}

/// The providers that are asked.
pub open spec fn asked(
    providers: Seq<ProviderView>,
    policy: ProviderPolicyView,
    options: LoadOptionsView,
) -> Seq<ProviderView>
    decreases providers.len(),
{
    if providers.len() == 0 {
        Seq::empty()
    } else {
        let have = asked(providers.drop_last(), policy, options);
        if is_asked(providers.last(), policy, options) {
            have.push(providers.last())
        } else {
            have
        }
    }
}

impl Capability {
    /// A kind without providers.
    pub fn new(id: &str, display_name: &str, description: &str) -> (r: Capability)
        ensures
            r@ == (CapabilityView {
                id: id@,
                display_name: display_name@,
                description: description@,
                providers: Seq::empty(),
            }),
    {
        let r = Capability {
            id: id.to_string(),
            display_name: display_name.to_string(),
            description: description.to_string(),
            providers: Vec::new(),
        };
        assert(r@.providers =~= Seq::empty());
        r
    }

    /// Adds a provider: behind those of its priority and higher ones.
    pub fn register(&mut self, provider: Provider)
        ensures
            final(self)@ == (CapabilityView {
                providers: registered(old(self)@.providers, provider@),
                ..old(self)@
            }),
    {
        let ghost all = self@.providers;
        let n: usize = self.providers.len();
        let mut i: usize = 0;
        while i < n && self.providers[i].priority >= provider.priority
            invariant
                i <= n,
                n == self.providers@.len(),
                all == text::views(self.providers@),
                lower_from(all, provider.priority, 0) == lower_from(
                    all,
                    provider.priority,
                    i as int,
                ),
            decreases n - i,
        {
            assert(all[i as int] == self.providers@[i as int]@);
            i += 1;
        }
        proof {
            if i < n {
                assert(all[i as int] == self.providers@[i as int]@);
            }
        }
        let ghost before = self.providers@;
        self.providers.insert(i, provider);
        assert(text::views(self.providers@) =~= all.insert(i as int, provider@));
    }

    /// Adds providers one after the other.
    pub fn register_all(&mut self, more: &Vec<Provider>)
        ensures
            final(self)@ == (CapabilityView {
                providers: all_registered(old(self)@.providers, text::views(more@)),
                ..old(self)@
            }),
    {
        let ghost before = self@;
        let ghost all = text::views(more@);
        let mut i: usize = 0;
        assert(all.take(0) =~= Seq::<ProviderView>::empty());
        while i < more.len()
            invariant
                i <= more@.len(),
                all == text::views(more@),
                self@ == (CapabilityView {
                    providers: all_registered(before.providers, all.take(i as int)),
                    ..before
                }),
            decreases more@.len() - i,
        {
            proof {
                assert(all.take(i as int + 1).drop_last() =~= all.take(i as int));
                assert(all.take(i as int + 1).last() == more@[i as int]@);
            }
            self.register(more[i].clone());
            i += 1;
        }
        assert(all.take(i as int) =~= all);
    }

    /// The providers, in the order in which they are asked.
    pub fn providers(&self) -> (r: &Vec<Provider>)
        ensures
            text::views(r@) == self@.providers,
    {
        &self.providers
    }

    /// The providers that are asked, in order.
    pub fn selected(&self, policy: &ProviderPolicy, options: &LoadOptions) -> (r: Vec<Provider>)
        ensures
            text::views(r@) == asked(self@.providers, policy@, options@),
    {
        let ghost all = self@.providers;
        let mut out: Vec<Provider> = Vec::new();
        let mut i: usize = 0;
        proof {
            assert(all.take(0) =~= Seq::<ProviderView>::empty());
            assert(text::views(out@) =~= Seq::empty());
        }
        while i < self.providers.len()
            invariant
                i <= self.providers@.len(),
                all == text::views(self.providers@),
                text::views(out@) == asked(all.take(i as int), policy@, options@),
            decreases self.providers@.len() - i,
        {
            proof {
                assert(all.take(i as int + 1).drop_last() =~= all.take(i as int));
                assert(all.take(i as int + 1).last() == self.providers@[i as int]@);
            }
            let id = &self.providers[i].id;
            let named = match &options.providers {
                Some(p) => contains_text(p, id),
                None => true,
            };
            if !contains_text(&policy.disabled, id) && named && !contains_text(
                &options.exclude_providers,
                id,
            ) {
                let p = self.providers[i].clone();
                proof {
                    text::lemma_views_push(out@, p);
                }
                out.push(p);
            }
            i += 1;
        }
        assert(all.take(i as int) =~= all);
        out
    }
}

// ------------------------------------------------------------------ items

/// An item of a kind.
pub trait Sourced: View + Sized {
    /// The name under which only the first item counts; an item without one always counts.
    spec fn key_of(v: Self::V) -> Option<Seq<char>>;

    /// Whether a later item is but another name for an earlier one, though their keys differ.
    spec fn aliases(earlier: Self::V, later: Self::V) -> bool;

    /// The name under which the item can be switched off.
    spec fn extension_of(v: Self::V) -> Option<Seq<char>>;

    /// What is wrong with the item.
    spec fn problem_of(v: Self::V) -> Option<Seq<char>>;

    /// Where the item came from.
    spec fn source_of(v: Self::V) -> SourceMetaView;

    /// The item with what its provider is called.
    spec fn named_by(v: Self::V, name: Seq<char>) -> Self::V;

    fn key(&self) -> (r: Option<String>)
        ensures
            text::opt_view(r) == Self::key_of(self@),
    ;

    fn equivalent(&self, later: &Self) -> (r: bool)
        ensures
            r == Self::aliases(self@, later@),
    ;

    fn to_extension_id(&self) -> (r: Option<String>)
        ensures
            text::opt_view(r) == Self::extension_of(self@),
    ;

    fn validate(&self) -> (r: Option<String>)
        ensures
            text::opt_view(r) == Self::problem_of(self@),
    ;

    fn source(&self) -> (r: &SourceMeta)
        ensures
            r@ == Self::source_of(self@),
    ;

    fn set_provider_name(self, name: &str) -> (r: Self)
        ensures
            r@ == Self::named_by(self@, name@),
    ;

    fn duplicate(&self) -> (r: Self)
        ensures
            r@ == self@,
    ;
}

/// What the host decides of an item.
#[derive(Clone, Copy, Debug, PartialEq, Eq, Structural)]
pub enum Choice {
    Keep,
    /// The item is left out, as if it had not been found.
    Drop,
    /// The item is left out, and yet claims its key.
    Hide,
}

/// An item and what the host decides of it.
pub struct Offer<T> {
    pub item: T,
    pub choice: Choice,
}

impl<T: Sourced> View for Offer<T> {
    type V = (T::V, Choice);

    open spec fn view(&self) -> (T::V, Choice) {
        (self.item@, self.choice)
    }
}

/// What a provider found.
pub struct LoadResult<T> {
    pub items: Vec<Offer<T>>,
    pub warnings: Vec<String>,
}

/// What a [`LoadResult`] stands for.
pub struct LoadResultView<V> {
    pub items: Seq<(V, Choice)>,
    pub warnings: Seq<Seq<char>>,
}

impl<T: Sourced> View for LoadResult<T> {
    type V = LoadResultView<T::V>;

    open spec fn view(&self) -> LoadResultView<T::V> {
        LoadResultView { items: text::views(self.items@), warnings: text::views(self.warnings@) }
    }
}

/// Items that are all kept.
pub open spec fn all_kept<V>(items: Seq<V>) -> Seq<(V, Choice)> {
    items.map_values(|v: V| (v, Choice::Keep))
}

/// What came of asking a provider.
pub enum Outcome<T> {
    Found(LoadResult<T>),
    Failed(String),
}

/// What an [`Outcome`] stands for.
pub enum OutcomeView<V> {
    Found(LoadResultView<V>),
    Failed(Seq<char>),
}

impl<T: Sourced> View for Outcome<T> {
    type V = OutcomeView<T::V>;

    open spec fn view(&self) -> OutcomeView<T::V> {
        match self {
            Outcome::Found(r) => OutcomeView::Found(r@),
            Outcome::Failed(e) => OutcomeView::Failed(e@),
        }
    }
}

/// Items that were found, without warnings.
pub open spec fn found_items<V>(items: Seq<V>, warnings: Seq<Seq<char>>) -> OutcomeView<V> {
    OutcomeView::Found(LoadResultView { items: all_kept(items), warnings })
}

/// Hands items over as found.
pub fn found<T: Sourced>(items: Vec<T>, warnings: Vec<String>) -> (r: Outcome<T>)
    ensures
        r@ == found_items(text::views(items@), text::views(warnings@)),
{
    let ghost all = text::views(items@);
    let n: usize = items.len();
    let mut turned = reversed(items);
    let mut out: Vec<Offer<T>> = Vec::new();
    let mut i: usize = 0;
    assert(text::views(out@) =~= all_kept(all).take(0));
    while turned.len() > 0
        invariant
            turned@.len() + i == n,
            n == all.len(),
            forall|j: int|
                0 <= j < turned@.len() ==> (#[trigger] turned@[j])@ == all[n - 1 - j],
            text::views(out@) == all_kept(all).take(i as int),
        decreases turned@.len(),
    {
        let ghost last = turned@.last()@;
        assert(last == all[i as int]);
        match turned.pop() {
            Some(item) => {
                let o = Offer { item, choice: Choice::Keep };
                proof {
                    text::lemma_views_push(out@, o);
                    assert(all_kept(all).take(i as int + 1) =~= all_kept(all).take(i as int).push(
                        o@,
                    ));
                }
                out.push(o);
            },
            None => {},
        }
        i += 1;
    }
    assert(all_kept(all).take(i as int) =~= all_kept(all));
    Outcome::Found(LoadResult { items: out, warnings })
}

/// An item, and whether it only claims its key.
pub struct Candidate<T> {
    pub item: T,
    pub hidden: bool,
}

impl<T: Sourced> View for Candidate<T> {
    type V = (T::V, bool);

    open spec fn view(&self) -> (T::V, bool) {
        (self.item@, self.hidden)
    }
}

/// The items of a provider that count, with what it is called.
pub open spec fn candidates<T: Sourced>(
    items: Seq<(T::V, Choice)>,
    disabled: Seq<Seq<char>>,
    name: Seq<char>,
) -> Seq<(T::V, bool)>
    decreases items.len(),
{
    if items.len() == 0 {
        Seq::empty()
    } else {
        let have = candidates::<T>(items.drop_last(), disabled, name);
        let (v, choice) = items.last();
        let off = T::extension_of(v) is Some && disabled.contains(T::extension_of(v).unwrap());
        if off || choice == Choice::Drop {
            have
        } else {
            have.push((T::named_by(v, name), choice == Choice::Hide))
        }
    }
}

/// Whether any of the items is to be seen.
pub open spec fn any_visible<V>(items: Seq<(V, bool)>) -> bool {
    exists|i: int| 0 <= i < items.len() && !(#[trigger] items[i]).1
}

/// A message with what its provider is called.
pub open spec fn tagged(name: Seq<char>, message: Seq<char>) -> Seq<char> {
    "["@ + name + "] "@ + message
}

/// The messages with what their provider is called.
pub open spec fn all_tagged(name: Seq<char>, messages: Seq<Seq<char>>) -> Seq<Seq<char>> {
    messages.map_values(|m: Seq<char>| tagged(name, m))
}

/// What the providers found, taken together.
#[verifier::ext_equal]
pub struct GatheredView<V> {
    pub items: Seq<(V, bool)>,
    pub warnings: Seq<Seq<char>>,
    pub providers: Seq<Seq<char>>,
}

/// What the providers found, taken together, in their order.
pub open spec fn gathered<T: Sourced>(
    providers: Seq<ProviderView>,
    outcomes: Seq<OutcomeView<T::V>>,
    disabled: Seq<Seq<char>>,
) -> GatheredView<T::V>
    decreases outcomes.len(),
{
    if outcomes.len() == 0 || providers.len() < outcomes.len() {
        GatheredView { items: Seq::empty(), warnings: Seq::empty(), providers: Seq::empty() }
    } else {
        let have = gathered::<T>(providers, outcomes.drop_last(), disabled);
        let p = providers[outcomes.len() - 1];
        match outcomes.last() {
            OutcomeView::Failed(e) => GatheredView {
                warnings: have.warnings.push(tagged(p.display_name, "Failed to load: "@ + e)),
                ..have
            },
            OutcomeView::Found(r) => {
                let more = candidates::<T>(r.items, disabled, p.display_name);
                GatheredView {
                    items: have.items + more,
                    warnings: have.warnings + all_tagged(p.display_name, r.warnings),
                    providers: if any_visible(more) {
                        have.providers.push(p.id)
                    } else {
                        have.providers
                    },
                }
            },
        }
    }
}

/// The keys that items claim.
pub open spec fn claimed<T: Sourced>(items: Seq<(T::V, bool)>) -> Seq<Seq<char>>
    decreases items.len(),
{
    if items.len() == 0 {
        Seq::empty()
    } else {
        let have = claimed::<T>(items.drop_last());
        match T::key_of(items.last().0) {
            Some(k) => have.push(k),
            None => have,
        }
    }
}

/// Whether an item is another name for one of a list.
pub open spec fn is_alias<T: Sourced>(kept: Seq<T::V>, v: T::V) -> bool {
    exists|e: int| 0 <= e < kept.len() && #[trigger] T::aliases(kept[e], v)
}

/// Whether an item's key was claimed before it, or the item is another name for one that was
/// kept before it. An item without a key is neither.
pub open spec fn is_shadowed<T: Sourced>(items: Seq<(T::V, bool)>, i: int) -> bool
    decreases i, 1int,
{
    match T::key_of(items[i].0) {
        Some(k) => {
            ||| claimed::<T>(items.take(i)).contains(k)
            ||| is_alias::<T>(first_ones(visible::<T>(items, i)), items[i].0)
        },
        None => false,
    }
}

/// The items that are to be seen, each with whether it is shadowed.
pub open spec fn visible<T: Sourced>(items: Seq<(T::V, bool)>, n: int) -> Seq<(T::V, bool)>
    decreases n, 0int,
{
    if n <= 0 {
        Seq::empty()
    } else {
        let have = visible::<T>(items, n - 1);
        if items[n - 1].1 {
            have
        } else {
            have.push((items[n - 1].0, is_shadowed::<T>(items, n - 1)))
        }
    }
}

/// The items that are not shadowed.
pub open spec fn first_ones<V>(items: Seq<(V, bool)>) -> Seq<V>
    decreases items.len(),
{
    if items.len() == 0 {
        Seq::empty()
    } else {
        let have = first_ones(items.drop_last());
        if items.last().1 {
            have
        } else {
            have.push(items.last().0)
        }
    }
}

/// The items that nothing is wrong with.
pub open spec fn valid_ones<T: Sourced>(items: Seq<T::V>) -> Seq<T::V>
    decreases items.len(),
{
    if items.len() == 0 {
        Seq::empty()
    } else {
        let have = valid_ones::<T>(items.drop_last());
        if T::problem_of(items.last()) is Some {
            have
        } else {
            have.push(items.last())
        }
    }
}

/// What is wrong with an item, and where.
pub open spec fn complaint(source: SourceMetaView, error: Seq<char>) -> Seq<char> {
    tagged(source.provider_name, "Invalid item at "@ + source.path + ": "@ + error)
}

/// What is wrong with the items, the last of them first.
pub open spec fn complaints<T: Sourced>(items: Seq<T::V>) -> Seq<Seq<char>>
    decreases items.len(),
{
    if items.len() == 0 {
        Seq::empty()
    } else {
        let rest = complaints::<T>(items.drop_last());
        match T::problem_of(items.last()) {
            Some(e) => seq![complaint(T::source_of(items.last()), e)] + rest,
            None => rest,
        }
    }
}

/// What was found of a kind.
pub struct CapabilityResult<T> {
    /// The items that count, in the order of their providers.
    pub items: Vec<T>,
    /// Every item to be seen, with whether another one shadows it.
    pub all: Vec<(T, bool)>,
    pub warnings: Vec<String>,
    /// The providers that contributed.
    pub providers: Vec<String>,
}

/// What a [`CapabilityResult`] stands for.
#[verifier::ext_equal]
pub struct CapabilityResultView<V> {
    pub items: Seq<V>,
    pub all: Seq<(V, bool)>,
    pub warnings: Seq<Seq<char>>,
    pub providers: Seq<Seq<char>>,
}

/// Items with whether they are shadowed.
pub open spec fn flagged<T: Sourced>(all: Seq<(T, bool)>) -> Seq<(T::V, bool)> {
    all.map_values(|x: (T, bool)| (x.0@, x.1))
}

impl<T: Sourced> View for CapabilityResult<T> {
    type V = CapabilityResultView<T::V>;

    open spec fn view(&self) -> CapabilityResultView<T::V> {
        CapabilityResultView {
            items: text::views(self.items@),
            all: flagged(self.all@),
            warnings: text::views(self.warnings@),
            providers: text::views(self.providers@),
        }
    }
}

/// What was found of a kind, given what came of asking each provider that is asked.
pub open spec fn loaded<T: Sourced>(
    providers: Seq<ProviderView>,
    outcomes: Seq<OutcomeView<T::V>>,
    options: LoadOptionsView,
) -> CapabilityResultView<T::V> {
    let disabled = if options.include_disabled {
        Seq::empty()
    } else {
        options.disabled_extensions
    };
    let g = gathered::<T>(providers, outcomes, disabled);
    let all = visible::<T>(g.items, g.items.len() as int);
    let first = first_ones(all);
    CapabilityResultView {
        items: if options.include_invalid { first } else { valid_ones::<T>(first) },
        all,
        warnings: if options.include_invalid {
            g.warnings
        } else {
            g.warnings + complaints::<T>(first)
        },
        providers: g.providers,
    }
}

fn tag(name: &str, message: &str) -> (r: String)
    ensures
        r@ == tagged(name@, message@),
{
    let mut out = "[".to_string();
    out.append(name);
    out.append("] ");
    out.append(message);
    out
}

fn tag_all(out: &mut Vec<String>, name: &str, messages: &Vec<String>)
    ensures
        text::views(final(out)@) == text::views(old(out)@) + all_tagged(
            name@,
            text::views(messages@),
        ),
{
    let ghost before = text::views(out@);
    let ghost all = all_tagged(name@, text::views(messages@));
    let mut i: usize = 0;
    assert(before + all.take(0) =~= before);
    while i < messages.len()
        invariant
            i <= messages@.len(),
            all == all_tagged(name@, text::views(messages@)),
            text::views(out@) == before + all.take(i as int),
        decreases messages@.len() - i,
    {
        let m = tag(name, &messages[i]);
        proof {
            text::lemma_views_push(out@, m);
            assert(all[i as int] == m@);
            assert(before + all.take(i as int + 1) =~= (before + all.take(i as int)).push(m@));
        }
        out.push(m);
        i += 1;
    }
    assert(all.take(i as int) =~= all);
}

fn keep_candidates<T: Sourced>(
    out: &mut Vec<Candidate<T>>,
    items: Vec<Offer<T>>,
    disabled: &Vec<String>,
    name: &str,
) -> (r: bool)
    ensures
        ({
            let more = candidates::<T>(text::views(items@), text::views(disabled@), name@);
            text::views(final(out)@) == text::views(old(out)@) + more && r == any_visible(more)
        }),
{
    let ghost before = text::views(out@);
    let ghost all = text::views(items@);
    let ghost off = text::views(disabled@);
    let mut seen = false;
    let mut rest = items;
    let mut turned: Vec<Offer<T>> = Vec::new();
    let n: usize = rest.len();
    let mut i: usize = 0;
    let ghost mut more: Seq<(T::V, bool)> = Seq::empty();
    proof {
        assert(all.take(0) =~= Seq::<(T::V, Choice)>::empty());
        assert(before + more =~= before);
    }
    while rest.len() > 0
        invariant
            rest@.len() + turned@.len() == n,
            n == all.len(),
            forall|j: int| 0 <= j < rest@.len() ==> (#[trigger] rest@[j])@ == all[j],
            forall|j: int|
                0 <= j < turned@.len() ==> (#[trigger] turned@[j])@ == all[n - 1 - j],
        decreases rest@.len(),
    {
        match rest.pop() {
            Some(o) => turned.push(o),
            None => {},
        }
    }
    while turned.len() > 0
        invariant
            turned@.len() + i == n,
            n == all.len(),
            off == text::views(disabled@),
            forall|j: int|
                0 <= j < turned@.len() ==> (#[trigger] turned@[j])@ == all[n - 1 - j],
            more == candidates::<T>(all.take(i as int), off, name@),
            text::views(out@) == before + more,
            seen == any_visible(more),
        decreases turned@.len(),
    {
        let ghost last = turned@.last()@;
        match turned.pop() {
            Some(o) => {
                proof {
                    assert(last == all[i as int]);
                    assert(all.take(i as int + 1).drop_last() =~= all.take(i as int));
                    assert(all.take(i as int + 1).last() == all[i as int]);
                }
                let ghost old_more = more;
                let id = o.item.to_extension_id();
                let switched_off = match &id {
                    Some(id) => contains_text(disabled, id),
                    None => false,
                };
                if !switched_off && o.choice != Choice::Drop {
                    let hidden = o.choice == Choice::Hide;
                    let c = Candidate { item: o.item.set_provider_name(name), hidden };
                    proof {
                        text::lemma_views_push(out@, c);
                        more = old_more.push(c@);
                        assert(before + more =~= (before + old_more).push(c@));
                        assert(more[old_more.len() as int] == c@);
                        if seen {
                            let k = choose|k: int|
                                0 <= k < old_more.len() && !(#[trigger] old_more[k]).1;
                            assert(!more[k].1);
                        }
                        if any_visible(more) && hidden {
                            let k = choose|k: int| 0 <= k < more.len() && !(#[trigger] more[k]).1;
                            assert(!old_more[k].1);
                        }
                    }
                    out.push(c);
                    if !hidden {
                        seen = true;
                    }
                }
            },
            None => {},
        }
        i += 1;
    }
    assert(all.take(i as int) =~= all);
    seen
}

/// What was found of a kind, given what came of asking each provider that is asked: of several
/// items with one key the first counts, and what is wrong counts only where that is wanted.
pub fn merge_outcomes<T: Sourced>(
    providers: &Vec<Provider>,
    outcomes: Vec<Outcome<T>>,
    options: &LoadOptions,
) -> (r: CapabilityResult<T>)
    requires
        providers@.len() == outcomes@.len(),
    ensures
        r@ == loaded::<T>(text::views(providers@), text::views(outcomes@), options@),
{
    let disabled: Vec<String> = if options.include_disabled {
        Vec::new()
    } else {
        clone_strings(&options.disabled_extensions)
    };
    let ghost off = if options.include_disabled {
        Seq::<Seq<char>>::empty()
    } else {
        options@.disabled_extensions
    };
    assert(text::views(disabled@) =~= off);
    let (items, warnings, contributing) = gather(providers, outcomes, &disabled);
    let all = flag_shadowed(items);
    let first = take_first(&all);
    let mut warnings = warnings;
    let mut kept: Vec<T> = Vec::new();
    if options.include_invalid {
        kept = first;
    } else {
        let wrong = find_complaints(&first);
        append_all(&mut warnings, &wrong);
        kept = keep_valid(first);
    }
    CapabilityResult { items: kept, all, warnings, providers: contributing }
}

pub(crate) fn append_all(out: &mut Vec<String>, more: &Vec<String>)
    ensures
        text::views(final(out)@) == text::views(old(out)@) + text::views(more@),
{
    let ghost before = text::views(out@);
    let ghost all = text::views(more@);
    let mut i: usize = 0;
    assert(before + all.take(0) =~= before);
    while i < more.len()
        invariant
            i <= more@.len(),
            all == text::views(more@),
            text::views(out@) == before + all.take(i as int),
        decreases more@.len() - i,
    {
        let m = more[i].clone();
        proof {
            text::lemma_views_push(out@, m);
            assert(before + all.take(i as int + 1) =~= (before + all.take(i as int)).push(m@));
        }
        out.push(m);
        i += 1;
    }
    assert(all.take(i as int) =~= all);
}

pub(crate) fn reversed<T: View>(items: Vec<T>) -> (r: Vec<T>)
    ensures
        r@ == items@.reverse(),
{
    let mut rest = items;
    let mut out: Vec<T> = Vec::new();
    let ghost all = rest@;
    while rest.len() > 0
        invariant
            rest@.len() + out@.len() == all.len(),
            rest@ == all.take(rest@.len() as int),
            forall|j: int| 0 <= j < out@.len() ==> out@[j] == all[all.len() - 1 - j],
        decreases rest@.len(),
    {
        let ghost n = rest@.len() as int;
        match rest.pop() {
            Some(o) => {
                assert(o == all[n - 1]);
                out.push(o);
                assert(rest@ =~= all.take(n - 1));
            },
            None => {},
        }
    }
    assert(out@ =~= all.reverse());
    out
}

fn gather<T: Sourced>(
    providers: &Vec<Provider>,
    outcomes: Vec<Outcome<T>>,
    disabled: &Vec<String>,
) -> (r: (Vec<Candidate<T>>, Vec<String>, Vec<String>))
    requires
        providers@.len() == outcomes@.len(),
    ensures
        gathered::<T>(text::views(providers@), text::views(outcomes@), text::views(disabled@)) == (
        GatheredView {
            items: text::views(r.0@),
            warnings: text::views(r.1@),
            providers: text::views(r.2@),
        }),
{
    let ghost all = text::views(outcomes@);
    let ghost ps = text::views(providers@);
    let ghost off = text::views(disabled@);
    let n: usize = outcomes.len();
    let mut turned = reversed(outcomes);
    let mut items: Vec<Candidate<T>> = Vec::new();
    let mut warnings: Vec<String> = Vec::new();
    let mut contributing: Vec<String> = Vec::new();
    let mut i: usize = 0;
    proof {
        assert(all.take(0) =~= Seq::<OutcomeView<T::V>>::empty());
        assert(text::views(items@) =~= Seq::empty());
        assert(text::views(warnings@) =~= Seq::empty());
        assert(text::views(contributing@) =~= Seq::empty());
    }
    while turned.len() > 0
        invariant
            turned@.len() + i == n,
            n == all.len(),
            n == providers@.len(),
            ps == text::views(providers@),
            off == text::views(disabled@),
            forall|j: int|
                0 <= j < turned@.len() ==> (#[trigger] turned@[j])@ == all[n - 1 - j],
            gathered::<T>(ps, all.take(i as int), off) == (GatheredView {
                items: text::views(items@),
                warnings: text::views(warnings@),
                providers: text::views(contributing@),
            }),
        decreases turned@.len(),
    {
        let ghost last = turned@.last()@;
        let p = &providers[i];
        proof {
            assert(last == all[i as int]);
            assert(all.take(i as int + 1).drop_last() =~= all.take(i as int));
            assert(all.take(i as int + 1).last() == all[i as int]);
            assert(ps[i as int] == p@);
        }
        match turned.pop() {
            Some(Outcome::Failed(e)) => {
                let mut m = "Failed to load: ".to_string();
                m.append(&e);
                let m = tag(&p.display_name, &m);
                proof {
                    text::lemma_views_push(warnings@, m);
                }
                warnings.push(m);
            },
            Some(Outcome::Found(found)) => {
                tag_all(&mut warnings, &p.display_name, &found.warnings);
                let any = keep_candidates(&mut items, found.items, disabled, &p.display_name);
                if any {
                    let id = p.id.clone();
                    proof {
                        text::lemma_views_push(contributing@, id);
                    }
                    contributing.push(id);
                }
            },
            None => {},
        }
        i += 1;
    }
    assert(all.take(i as int) =~= all);
    (items, warnings, contributing)
}

/// Whether an item is another name for one that is not shadowed.
fn has_alias<T: Sourced>(kept: &Vec<(T, bool)>, item: &T) -> (r: bool)
    ensures
        r == is_alias::<T>(first_ones(flagged(kept@)), item@),
{
    let ghost f = flagged(kept@);
    let mut i: usize = 0;
    proof {
        assert(f.take(0) =~= Seq::<(T::V, bool)>::empty());
        assert(!is_alias::<T>(first_ones(f.take(0)), item@));
    }
    while i < kept.len()
        invariant
            i <= kept@.len(),
            f == flagged(kept@),
            !is_alias::<T>(first_ones(f.take(i as int)), item@),
        decreases kept@.len() - i,
    {
        let ghost before = first_ones(f.take(i as int));
        let ghost after = first_ones(f.take(i as int + 1));
        proof {
            assert(f.take(i as int + 1).drop_last() =~= f.take(i as int));
            assert(f.take(i as int + 1).last() == f[i as int]);
        }
        if !kept[i].1 {
            assert(after == before.push(kept@[i as int].0@));
            if kept[i].0.equivalent(item) {
                proof {
                    lemma_first_ones_grow(f, i as int + 1, kept@.len() as int);
                    let all = first_ones(f);
                    assert(f.take(kept@.len() as int) =~= f);
                    assert(all.take(after.len() as int)[before.len() as int] == kept@[i as int].0@);
                    assert(all[before.len() as int] == kept@[i as int].0@);
                    assert(T::aliases(all[before.len() as int], item@));
                }
                return true;
            }
            assert(!is_alias::<T>(after, item@)) by {
                assert forall|e: int| 0 <= e < after.len() implies !(#[trigger] T::aliases(
                    after[e],
                    item@,
                )) by {
                    if e < before.len() {
                        assert(after[e] == before[e]);
                        assert(!T::aliases(before[e], item@));
                    }
                }
            }
        }
        i += 1;
    }
    assert(f.take(kept@.len() as int) =~= f);
    false
}

proof fn lemma_first_ones_grow<V>(items: Seq<(V, bool)>, i: int, n: int)
    requires
        0 <= i <= n <= items.len(),
    ensures
        first_ones(items.take(i)).len() <= first_ones(items.take(n)).len(),
        first_ones(items.take(n)).take(first_ones(items.take(i)).len() as int) == first_ones(
            items.take(i),
        ),
    decreases n,
{
    if i < n {
        lemma_first_ones_grow(items, i, n - 1);
        assert(items.take(n).drop_last() =~= items.take(n - 1));
        let short = first_ones(items.take(i));
        let long = first_ones(items.take(n));
        assert(long.take(short.len() as int) =~= first_ones(items.take(n - 1)).take(
            short.len() as int,
        ));
    } else {
        let same = first_ones(items.take(i));
        assert(same.take(same.len() as int) =~= same);
    }
}

fn flag_shadowed<T: Sourced>(items: Vec<Candidate<T>>) -> (r: Vec<(T, bool)>)
    ensures
        flagged(r@) == visible::<T>(text::views(items@), items@.len() as int),
{
    let ghost all = text::views(items@);
    let n: usize = items.len();
    let mut turned = reversed(items);
    let mut out: Vec<(T, bool)> = Vec::new();
    let mut seen: Vec<String> = Vec::new();
    let mut i: usize = 0;
    proof {
        assert(all.take(0) =~= Seq::<(T::V, bool)>::empty());
        assert(text::views(seen@) =~= Seq::empty());
        assert(flagged(out@) =~= Seq::empty());
    }
    while turned.len() > 0
        invariant
            turned@.len() + i == n,
            n == all.len(),
            forall|j: int|
                0 <= j < turned@.len() ==> (#[trigger] turned@[j])@ == all[n - 1 - j],
            text::views(seen@) == claimed::<T>(all.take(i as int)),
            flagged(out@) == visible::<T>(all, i as int),
        decreases turned@.len(),
    {
        let ghost last = turned@.last()@;
        let ghost before = out@;
        proof {
            assert(last == all[i as int]);
            assert(all.take(i as int + 1).drop_last() =~= all.take(i as int));
            assert(all.take(i as int + 1).last() == all[i as int]);
        }
        match turned.pop() {
            Some(c) => {
                let mut shadowed = false;
                match c.item.key() {
                    Some(k) => {
                        shadowed = contains_text(&seen, &k) || has_alias(&out, &c.item);
                        proof {
                            text::lemma_views_push(seen@, k);
                        }
                        seen.push(k);
                    },
                    None => {},
                }
                if !c.hidden {
                    out.push((c.item, shadowed));
                    assert(flagged(out@) =~= flagged(before).push((c.item@, shadowed)));
                    assert(shadowed == is_shadowed::<T>(all, i as int)) by {
                        reveal_with_fuel(is_shadowed, 2);
                    }
                }
            },
            None => {},
        }
        i += 1;
    }
    out
}

fn take_first<T: Sourced>(all: &Vec<(T, bool)>) -> (r: Vec<T>)
    ensures
        text::views(r@) == first_ones(flagged(all@)),
{
    let ghost f = flagged(all@);
    let mut out: Vec<T> = Vec::new();
    let mut i: usize = 0;
    proof {
        assert(f.take(0) =~= Seq::<(T::V, bool)>::empty());
        assert(text::views(out@) =~= Seq::empty());
    }
    while i < all.len()
        invariant
            i <= all@.len(),
            f == flagged(all@),
            text::views(out@) == first_ones(f.take(i as int)),
        decreases all@.len() - i,
    {
        proof {
            assert(f.take(i as int + 1).drop_last() =~= f.take(i as int));
            assert(f.take(i as int + 1).last() == (all@[i as int].0@, all@[i as int].1));
        }
        if !all[i].1 {
            let c = all[i].0.duplicate();
            proof {
                text::lemma_views_push(out@, c);
            }
            out.push(c);
        }
        i += 1;
    }
    assert(f.take(i as int) =~= f);
    out
}

fn find_complaints<T: Sourced>(items: &Vec<T>) -> (r: Vec<String>)
    ensures
        text::views(r@) == complaints::<T>(text::views(items@)),
{
    let ghost all = text::views(items@);
    let mut out: Vec<String> = Vec::new();
    let mut n: usize = items.len();
    proof {
        assert(all.take(n as int) =~= all);
        assert(text::views(out@) + complaints::<T>(all) =~= complaints::<T>(all));
    }
    while n > 0
        invariant
            n <= items@.len(),
            all == text::views(items@),
            text::views(out@) + complaints::<T>(all.take(n as int)) == complaints::<T>(all),
        decreases n,
    {
        let ghost before = text::views(out@);
        proof {
            assert(all.take(n as int).drop_last() =~= all.take(n as int - 1));
            assert(all.take(n as int).last() == items@[n as int - 1]@);
        }
        let item = &items[n - 1];
        match item.validate() {
            Some(e) => {
                let source = item.source();
                let mut m = "Invalid item at ".to_string();
                m.append(&source.path);
                m.append(": ");
                m.append(&e);
                let m = tag(&source.provider_name, &m);
                proof {
                    text::lemma_views_push(out@, m);
                }
                out.push(m);
                assert(before + complaints::<T>(all.take(n as int)) =~= text::views(out@)
                    + complaints::<T>(all.take(n as int - 1)));
            },
            None => {},
        }
        n -= 1;
    }
    assert(text::views(out@) + complaints::<T>(all.take(0)) =~= text::views(out@));
    out
}

fn keep_valid<T: Sourced>(items: Vec<T>) -> (r: Vec<T>)
    ensures
        text::views(r@) == valid_ones::<T>(text::views(items@)),
{
    let ghost all = text::views(items@);
    let mut out: Vec<T> = Vec::new();
    let mut i: usize = 0;
    proof {
        assert(all.take(0) =~= Seq::<T::V>::empty());
        assert(text::views(out@) =~= Seq::empty());
    }
    while i < items.len()
        invariant
            i <= items@.len(),
            all == text::views(items@),
            text::views(out@) == valid_ones::<T>(all.take(i as int)),
        decreases items@.len() - i,
    {
        proof {
            assert(all.take(i as int + 1).drop_last() =~= all.take(i as int));
            assert(all.take(i as int + 1).last() == items@[i as int]@);
        }
        if items[i].validate().is_none() {
            let c = items[i].duplicate();
            proof {
                text::lemma_views_push(out@, c);
            }
            out.push(c);
        }
        i += 1;
    }
    assert(all.take(i as int) =~= all);
    out
}

// ------------------------------------------------------------------ laws

/// The providers stand by falling priority.
pub open spec fn by_priority(providers: Seq<ProviderView>) -> bool {
    forall|i: int, j: int|
        0 <= i < j < providers.len() ==> (#[trigger] providers[i]).priority >= (
        #[trigger] providers[j]).priority
}

proof fn lemma_lower_from(providers: Seq<ProviderView>, priority: i32, i: int)
    requires
        0 <= i <= providers.len(),
    ensures
        i <= lower_from(providers, priority, i) <= providers.len(),
        forall|j: int|
            i <= j < lower_from(providers, priority, i) ==> (#[trigger] providers[j]).priority
                >= priority,
        lower_from(providers, priority, i) < providers.len() ==> providers[lower_from(
            providers,
            priority,
            i,
        )].priority < priority,
    decreases providers.len() - i,
{
    if i < providers.len() && providers[i].priority >= priority {
        lemma_lower_from(providers, priority, i + 1);
    }
}

proof fn lemma_pair_in_order(
    providers: Seq<ProviderView>,
    p: ProviderView,
    k: int,
    i: int,
    j: int,
)
    requires
        by_priority(providers),
        0 <= k <= providers.len(),
        forall|m: int| 0 <= m < k ==> (#[trigger] providers[m]).priority >= p.priority,
        k < providers.len() ==> providers[k].priority < p.priority,
        0 <= i < j <= providers.len(),
    ensures
        providers.insert(k, p)[i].priority >= providers.insert(k, p)[j].priority,
{
    if i == k {
        let b = j - 1;
        assert(providers[b].priority <= providers[k].priority) by {
            if k < b {
                assert(providers[k].priority >= providers[b].priority);
            }
        }
    } else if j == k {
        assert(providers[i].priority >= p.priority);
    } else {
        let a = if i < k { i } else { i - 1 };
        let b = if j < k { j } else { j - 1 };
        assert(providers[a].priority >= providers[b].priority);
    }
}

/// Adding a provider keeps the providers in the order of their priorities, and puts it behind
/// those of its own.
pub proof fn law_registering_keeps_the_order(providers: Seq<ProviderView>, p: ProviderView)
    requires
        by_priority(providers),
    ensures
        by_priority(registered(providers, p)),
        ({
            let k = lower_from(providers, p.priority, 0);
            &&& 0 <= k <= providers.len()
            &&& registered(providers, p)[k] == p
            &&& registered(providers, p).remove(k) == providers
            &&& forall|j: int|
                0 <= j < providers.len() && (#[trigger] providers[j]).priority == p.priority ==> j
                    < k
        }),
{
    lemma_lower_from(providers, p.priority, 0);
    let k = lower_from(providers, p.priority, 0);
    let after = registered(providers, p);
    assert(after.remove(k) =~= providers);
    assert forall|i: int, j: int| 0 <= i < j < after.len() implies (#[trigger] after[i]).priority
        >= (#[trigger] after[j]).priority by {
        lemma_pair_in_order(providers, p, k, i, j);
    }
}

/// Providers that are added one after the other stand by falling priority.
pub proof fn law_registered_providers_are_in_order(more: Seq<ProviderView>)
    ensures
        by_priority(all_registered(Seq::empty(), more)),
    decreases more.len(),
{
    if more.len() > 0 {
        law_registered_providers_are_in_order(more.drop_last());
        law_registering_keeps_the_order(
            all_registered(Seq::empty(), more.drop_last()),
            more.last(),
        );
    }
}

/// A provider that is off, or that was not asked for, is not asked.
pub proof fn law_only_wanted_providers_are_asked(
    providers: Seq<ProviderView>,
    policy: ProviderPolicyView,
    options: LoadOptionsView,
    i: int,
)
    requires
        0 <= i < asked(providers, policy, options).len(),
    ensures
        is_asked(asked(providers, policy, options)[i], policy, options),
        providers.contains(asked(providers, policy, options)[i]),
    decreases providers.len(),
{
    if providers.len() > 0 {
        let have = asked(providers.drop_last(), policy, options);
        if i < have.len() {
            law_only_wanted_providers_are_asked(providers.drop_last(), policy, options, i);
            let p = have[i];
            let k = choose|k: int| 0 <= k < providers.drop_last().len() && providers.drop_last()[k] == p;
            assert(providers[k] == p);
        } else {
            assert(providers[providers.len() - 1] == providers.last());
        }
    }
}

proof fn lemma_claimed_before<T: Sourced>(items: Seq<(T::V, bool)>, i: int, n: int)
    requires
        0 <= i < n <= items.len(),
        T::key_of(items[i].0) is Some,
    ensures
        claimed::<T>(items.take(n)).contains(T::key_of(items[i].0).unwrap()),
    decreases n,
{
    let k = T::key_of(items[i].0).unwrap();
    let t = items.take(n);
    assert(t.drop_last() =~= items.take(n - 1));
    assert(t.last() == items[n - 1]);
    let have = claimed::<T>(items.take(n - 1));
    if i < n - 1 {
        lemma_claimed_before::<T>(items, i, n - 1);
        let at = choose|at: int| 0 <= at < have.len() && have[at] == k;
        assert(claimed::<T>(t)[at] == k);
    } else {
        assert(claimed::<T>(t)[have.len() as int] == k);
    }
}

/// Of two items with one key the later one is shadowed, whether or not the earlier one is to be
/// seen.
pub proof fn law_the_first_item_per_key_wins<T: Sourced>(items: Seq<(T::V, bool)>, i: int, j: int)
    requires
        0 <= i < j < items.len(),
        T::key_of(items[i].0) is Some,
        T::key_of(items[i].0) == T::key_of(items[j].0),
    ensures
        is_shadowed::<T>(items, j),
{
    lemma_claimed_before::<T>(items, i, j);
}

proof fn lemma_claimed_by<T: Sourced>(items: Seq<(T::V, bool)>, k: Seq<char>)
    requires
        claimed::<T>(items).contains(k),
    ensures
        exists|i: int| 0 <= i < items.len() && T::key_of((#[trigger] items[i]).0) == Some(k),
    decreases items.len(),
{
    if items.len() > 0 {
        let have = claimed::<T>(items.drop_last());
        let all = claimed::<T>(items);
        let at = choose|at: int| 0 <= at < all.len() && all[at] == k;
        if at < have.len() {
            assert(have[at] == k);
            lemma_claimed_by::<T>(items.drop_last(), k);
            let i = choose|i: int|
                0 <= i < items.drop_last().len() && T::key_of((#[trigger] items.drop_last()[i]).0)
                    == Some(k);
            assert(T::key_of(items[i].0) == Some(k));
        } else {
            assert(T::key_of(items[items.len() - 1].0) == Some(k));
        }
    }
}

/// Nothing is shadowed without an earlier item of its key, or an earlier one that it is another
/// name for.
pub proof fn law_only_later_items_are_shadowed<T: Sourced>(items: Seq<(T::V, bool)>, j: int)
    requires
        0 <= j < items.len(),
        is_shadowed::<T>(items, j),
    ensures
        exists|i: int|
            0 <= i < j && (T::key_of((#[trigger] items[i]).0) == T::key_of(items[j].0)
                || T::aliases(items[i].0, items[j].0)),
{
    let k = T::key_of(items[j].0).unwrap();
    if claimed::<T>(items.take(j)).contains(k) {
        lemma_claimed_by::<T>(items.take(j), k);
        let i = choose|i: int|
            0 <= i < items.take(j).len() && T::key_of((#[trigger] items.take(j)[i]).0) == Some(k);
        assert(T::key_of(items[i].0) == T::key_of(items[j].0));
    } else {
        let kept = first_ones(visible::<T>(items, j));
        let e = choose|e: int| 0 <= e < kept.len() && #[trigger] T::aliases(kept[e], items[j].0);
        lemma_kept_from::<T>(items, j, e);
    }
}

/// What is kept stood in the list, and was to be seen.
proof fn lemma_kept_from<T: Sourced>(items: Seq<(T::V, bool)>, n: int, e: int)
    requires
        0 <= n <= items.len(),
        0 <= e < first_ones(visible::<T>(items, n)).len(),
    ensures
        exists|i: int|
            0 <= i < n && !(#[trigger] items[i]).1 && items[i].0 == first_ones(
                visible::<T>(items, n),
            )[e],
    decreases n,
{
    if n > 0 {
        let shown = visible::<T>(items, n);
        let have = visible::<T>(items, n - 1);
        if !items[n - 1].1 {
            assert(shown.drop_last() =~= have);
        }
        if e < first_ones(have).len() {
            lemma_kept_from::<T>(items, n - 1, e);
            let i = choose|i: int|
                0 <= i < n - 1 && !(#[trigger] items[i]).1 && items[i].0 == first_ones(have)[e];
            assert(items[i].0 == first_ones(shown)[e]);
        } else {
            assert(items[n - 1].0 == first_ones(shown)[e]);
        }
    }
}

/// An item with a key that is another name for one kept before it is not kept, so of the kept
/// items with a key none is another name for an earlier one.
pub proof fn law_no_alias_is_kept<T: Sourced>(items: Seq<(T::V, bool)>, n: int, e: int, l: int)
    requires
        0 <= n <= items.len(),
        0 <= e < l < first_ones(visible::<T>(items, n)).len(),
        T::key_of(first_ones(visible::<T>(items, n))[l]) is Some,
    ensures
        !T::aliases(
            first_ones(visible::<T>(items, n))[e],
            first_ones(visible::<T>(items, n))[l],
        ),
    decreases n,
{
    if n > 0 {
        let shown = visible::<T>(items, n);
        let have = visible::<T>(items, n - 1);
        if !items[n - 1].1 {
            assert(shown.drop_last() =~= have);
        }
        let kept = first_ones(shown);
        if l < first_ones(have).len() {
            law_no_alias_is_kept::<T>(items, n - 1, e, l);
        } else {
            assert(kept == first_ones(have).push(items[n - 1].0));
            assert(!is_shadowed::<T>(items, n - 1));
            assert(kept[e] == first_ones(have)[e]);
            if T::aliases(first_ones(have)[e], items[n - 1].0) {
                assert(is_alias::<T>(first_ones(have), items[n - 1].0));
            }
        }
    }
}

} // verus!
