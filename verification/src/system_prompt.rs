//! The system prompt: what goes into it, and its blocks.
use crate::capability;
use crate::files;
use crate::files::{DirEntryView, FsView};
use crate::js;
use crate::json;
use crate::json::{object_1, object_2, object_3, Entries, Json, JsonObject, JsonView, Number, NumberView};
use crate::number;
use crate::paths;
use crate::paths::{join_path, resolve};
use crate::project;
use crate::project::{
    dedupe_contained_context_files, prompt_blocks_contain, split_comparable_prompt_blocks, Discovery, DiscoveryView,
    ProjectContextFile, ProjectContextFileView,
};
use crate::prompt;
use crate::skills;
use crate::skills::{LoadedSkill, LoadedSkillView, SkillsSettings, SkillsSettingsView};
use crate::sse;
use crate::sse::decode_lossy;
use crate::system_md;
use crate::template_parse::TemplateError;
use crate::text;
use crate::text::{
    clone_all, clone_opt, clone_opt_string, clone_strings, lower_text, same_text, slice_string, split_text, to_chars, trim_text,
    Space,
};
use vstd::prelude::*;

verus! {

/// Which manner the prompt asks for.
#[derive(Clone, Copy, Debug, PartialEq, Eq, Structural)]
pub enum Personality {
    Default,
    Friendly,
    Pragmatic,
    /// No manner is asked for.
    Plain,
}

/// A tool as the prompt lists it.
#[derive(Debug, PartialEq)]
pub struct PromptTool {
    pub name: String,
    pub label: String,
}

/// What a [`PromptTool`] stands for.
#[verifier::ext_equal]
pub struct PromptToolView {
    pub name: Seq<char>,
    pub label: Seq<char>,
}

impl View for PromptTool {
    type V = PromptToolView;

    open spec fn view(&self) -> PromptToolView {
        PromptToolView {
            name: self.name@,
            label: self.label@,
        }
    }
}

impl Clone for PromptTool {
    fn clone(&self) -> (r: PromptTool)
        ensures
            r@ == self@,
    {
        PromptTool {
            name: self.name.clone(),
            label: self.label.clone(),
        }
    }
}

/// The kinds of addresses that the tools of the host resolve.
#[derive(Debug, PartialEq)]
pub struct InternalUrls {
    pub skill: bool,
    pub rule: bool,
    pub agent: bool,
    pub history: bool,
    pub artifact: bool,
    pub local: bool,
    pub mcp: bool,
    pub github: bool,
    /// The address of the documentation.
    pub harness_docs: Option<String>,
}

/// What a [`InternalUrls`] stands for.
#[verifier::ext_equal]
pub struct InternalUrlsView {
    pub skill: bool,
    pub rule: bool,
    pub agent: bool,
    pub history: bool,
    pub artifact: bool,
    pub local: bool,
    pub mcp: bool,
    pub github: bool,
    pub harness_docs: Option<Seq<char>>,
}

impl View for InternalUrls {
    type V = InternalUrlsView;

    open spec fn view(&self) -> InternalUrlsView {
        InternalUrlsView {
            skill: self.skill,
            rule: self.rule,
            agent: self.agent,
            history: self.history,
            artifact: self.artifact,
            local: self.local,
            mcp: self.mcp,
            github: self.github,
            harness_docs: text::opt_view(self.harness_docs),
        }
    }
}

impl Clone for InternalUrls {
    fn clone(&self) -> (r: InternalUrls)
        ensures
            r@ == self@,
    {
        InternalUrls {
            skill: self.skill,
            rule: self.rule,
            agent: self.agent,
            history: self.history,
            artifact: self.artifact,
            local: self.local,
            mcp: self.mcp,
            github: self.github,
            harness_docs: clone_opt_string(&self.harness_docs),
        }
    }
}

/// A workspace as the host shows it.
#[derive(Debug, PartialEq)]
pub struct WorkspaceTree {
    pub rendered: String,
    pub truncated: bool,
    pub agents_md_files: Vec<String>,
}

/// What a [`WorkspaceTree`] stands for.
#[verifier::ext_equal]
pub struct WorkspaceTreeView {
    pub rendered: Seq<char>,
    pub truncated: bool,
    pub agents_md_files: Seq<Seq<char>>,
}

impl View for WorkspaceTree {
    type V = WorkspaceTreeView;

    open spec fn view(&self) -> WorkspaceTreeView {
        WorkspaceTreeView {
            rendered: self.rendered@,
            truncated: self.truncated,
            agents_md_files: text::views(self.agents_md_files@),
        }
    }
}

impl Clone for WorkspaceTree {
    fn clone(&self) -> (r: WorkspaceTree)
        ensures
            r@ == self@,
    {
        WorkspaceTree {
            rendered: self.rendered.clone(),
            truncated: self.truncated,
            agents_md_files: clone_strings(&self.agents_md_files),
        }
    }
}

/// The templates of the blocks, and the texts that ask for a manner.
#[derive(Debug)]
pub struct PromptTemplates {
    pub system: String,
    pub project: String,
    pub custom: String,
    pub active_repo: String,
    pub default_personality: String,
    pub friendly_personality: String,
    pub pragmatic_personality: String,
}

/// What a [`PromptTemplates`] stands for.
#[verifier::ext_equal]
pub struct PromptTemplatesView {
    pub system: Seq<char>,
    pub project: Seq<char>,
    pub custom: Seq<char>,
    pub active_repo: Seq<char>,
    pub default_personality: Seq<char>,
    pub friendly_personality: Seq<char>,
    pub pragmatic_personality: Seq<char>,
}

impl View for PromptTemplates {
    type V = PromptTemplatesView;

    open spec fn view(&self) -> PromptTemplatesView {
        PromptTemplatesView {
            system: self.system@,
            project: self.project@,
            custom: self.custom@,
            active_repo: self.active_repo@,
            default_personality: self.default_personality@,
            friendly_personality: self.friendly_personality@,
            pragmatic_personality: self.pragmatic_personality@,
        }
    }
}

impl Clone for PromptTemplates {
    fn clone(&self) -> (r: PromptTemplates)
        ensures
            r@ == self@,
    {
        PromptTemplates {
            system: self.system.clone(),
            project: self.project.clone(),
            custom: self.custom.clone(),
            active_repo: self.active_repo.clone(),
            default_personality: self.default_personality.clone(),
            friendly_personality: self.friendly_personality.clone(),
            pragmatic_personality: self.pragmatic_personality.clone(),
        }
    }
}

/// What goes into the prompt.
#[derive(Debug)]
pub struct SystemPromptOptions {
    pub harness_name: String,
    /// A prompt that takes the place of the usual one.
    pub custom_prompt: Option<String>,
    pub append_prompt: Option<String>,
    /// The tools in use, or the usual ones.
    pub tools: Option<Vec<PromptTool>>,
    /// The context files, or those that are found.
    pub context_files: Option<Vec<ProjectContextFile>>,
    /// The skills, or those that are found.
    pub skills: Option<Vec<LoadedSkill>>,
    pub skills_settings: SkillsSettings,
    pub disabled_extensions: Vec<String>,
    pub additional_workspace_roots: Vec<String>,
    pub model: Option<String>,
    pub include_model_in_prompt: bool,
    pub personality: Personality,
    /// The repository below the working directory, or the one that is found.
    pub active_repo_context: Option<Option<String>>,
    pub include_workspace_tree: bool,
    pub workspace_tree: Option<WorkspaceTree>,
    pub render_mermaid: bool,
    pub reactions: bool,
    pub urls: InternalUrls,
}

/// What a [`SystemPromptOptions`] stands for.
#[verifier::ext_equal]
pub struct SystemPromptOptionsView {
    pub harness_name: Seq<char>,
    pub custom_prompt: Option<Seq<char>>,
    pub append_prompt: Option<Seq<char>>,
    pub tools: Option<Seq<PromptToolView>>,
    pub context_files: Option<Seq<ProjectContextFileView>>,
    pub skills: Option<Seq<LoadedSkillView>>,
    pub skills_settings: SkillsSettingsView,
    pub disabled_extensions: Seq<Seq<char>>,
    pub additional_workspace_roots: Seq<Seq<char>>,
    pub model: Option<Seq<char>>,
    pub include_model_in_prompt: bool,
    pub personality: Personality,
    pub active_repo_context: Option<Option<Seq<char>>>,
    pub include_workspace_tree: bool,
    pub workspace_tree: Option<WorkspaceTreeView>,
    pub render_mermaid: bool,
    pub reactions: bool,
    pub urls: InternalUrlsView,
}

impl View for SystemPromptOptions {
    type V = SystemPromptOptionsView;

    open spec fn view(&self) -> SystemPromptOptionsView {
        SystemPromptOptionsView {
            harness_name: self.harness_name@,
            custom_prompt: text::opt_view(self.custom_prompt),
            append_prompt: text::opt_view(self.append_prompt),
            tools: match self.tools { Some(v) => Some(text::views(v@)), None => None },
            context_files: match self.context_files { Some(v) => Some(text::views(v@)), None => None },
            skills: match self.skills { Some(v) => Some(text::views(v@)), None => None },
            skills_settings: self.skills_settings@,
            disabled_extensions: text::views(self.disabled_extensions@),
            additional_workspace_roots: text::views(self.additional_workspace_roots@),
            model: text::opt_view(self.model),
            include_model_in_prompt: self.include_model_in_prompt,
            personality: self.personality,
            active_repo_context: match self.active_repo_context { Some(v) => Some(text::opt_view(v)), None => None },
            include_workspace_tree: self.include_workspace_tree,
            workspace_tree: text::opt_view(self.workspace_tree),
            render_mermaid: self.render_mermaid,
            reactions: self.reactions,
            urls: self.urls@,
        }
    }
}

impl Clone for SystemPromptOptions {
    fn clone(&self) -> (r: SystemPromptOptions)
        ensures
            r@ == self@,
    {
        SystemPromptOptions {
            harness_name: self.harness_name.clone(),
            custom_prompt: clone_opt_string(&self.custom_prompt),
            append_prompt: clone_opt_string(&self.append_prompt),
            tools: match &self.tools { Some(v) => Some(clone_all(v)), None => None },
            context_files: match &self.context_files { Some(v) => Some(clone_all(v)), None => None },
            skills: match &self.skills { Some(v) => Some(clone_all(v)), None => None },
            skills_settings: self.skills_settings.clone(),
            disabled_extensions: clone_strings(&self.disabled_extensions),
            additional_workspace_roots: clone_strings(&self.additional_workspace_roots),
            model: clone_opt_string(&self.model),
            include_model_in_prompt: self.include_model_in_prompt,
            personality: self.personality,
            active_repo_context: match &self.active_repo_context { Some(v) => Some(clone_opt_string(v)), None => None },
            include_workspace_tree: self.include_workspace_tree,
            workspace_tree: clone_opt(&self.workspace_tree),
            render_mermaid: self.render_mermaid,
            reactions: self.reactions,
            urls: self.urls.clone(),
        }
    }
}

impl Default for SystemPromptOptions {
    fn default() -> (r: SystemPromptOptions)
        ensures
            r@.harness_name == "ARA"@,
            r@.custom_prompt is None,
            r@.append_prompt is None,
            r@.tools is None,
            r@.context_files is None,
            r@.skills is None,
            r@.skills_settings.enabled,
            r@.disabled_extensions.len() == 0,
            r@.additional_workspace_roots.len() == 0,
            r@.model is None,
            r@.include_model_in_prompt,
            r@.personality == Personality::Default,
            r@.active_repo_context is None,
            !r@.include_workspace_tree,
            r@.workspace_tree is None,
            r@.render_mermaid,
            !r@.reactions,
            !any_url(r@.urls),
    {
        SystemPromptOptions {
            harness_name: "ARA".to_string(),
            custom_prompt: None,
            append_prompt: None,
            tools: None,
            context_files: None,
            skills: None,
            skills_settings: SkillsSettings::default(),
            disabled_extensions: Vec::new(),
            additional_workspace_roots: Vec::new(),
            model: None,
            include_model_in_prompt: true,
            personality: Personality::Default,
            active_repo_context: None,
            include_workspace_tree: false,
            workspace_tree: None,
            render_mermaid: true,
            reactions: false,
            urls: InternalUrls {
                skill: false,
                rule: false,
                agent: false,
                history: false,
                artifact: false,
                local: false,
                mcp: false,
                github: false,
                harness_docs: None,
            },
        }
    }
}

/// What came of reading a file.
#[derive(Debug)]
pub enum FileRead {
    Bytes(Vec<u8>),
    /// There is no such file.
    Missing,
    /// The file could not be read.
    Failed(String),
}

/// What a [`FileRead`] stands for.
pub enum FileReadView {
    Bytes(Seq<u8>),
    Missing,
    Failed(Seq<char>),
}

impl View for FileRead {
    type V = FileReadView;

    open spec fn view(&self) -> FileReadView {
        match self {
            FileRead::Bytes(b) => FileReadView::Bytes(b@),
            FileRead::Missing => FileReadView::Missing,
            FileRead::Failed(e) => FileReadView::Failed(e@),
        }
    }
}

// ------------------------------------------------------------------ texts

/// Whether a text is to be looked up as the name of a file.
pub open spec fn names_a_file(input: Seq<char>) -> bool {
    input.len() > 0 && !input.contains('\n')
}

/// The text that an input stands for: itself where it has several lines, or else what the file of
/// that name holds, or itself where there is none to read.
pub open spec fn prompt_input(input: Option<Seq<char>>, read: FileReadView) -> Option<Seq<char>> {
    match input {
        Some(s) => if s.len() == 0 {
            None
        } else if !names_a_file(s) {
            Some(s)
        } else {
            match read {
                FileReadView::Bytes(b) => Some(sse::utf8_text(b)),
                _ => Some(s),
            }
        },
        None => None,
    }
}

/// What is wrong with an input whose file could not be read.
pub open spec fn input_warnings(
    input: Option<Seq<char>>,
    description: Seq<char>,
    read: FileReadView,
) -> Seq<Seq<char>> {
    match (input, read) {
        (Some(s), FileReadView::Failed(e)) => if names_a_file(s) {
            seq!["Could not read "@ + description + " file "@ + s + ": "@ + e]
        } else {
            Seq::empty()
        },
        _ => Seq::empty(),
    }
}

/// Whether a text is to be looked up as the name of a file.
pub fn is_file_name(input: &str) -> (r: bool)
    ensures
        r == names_a_file(input@),
{
    let v = to_chars(input);
    let mut i: usize = 0;
    while i < v.len()
        invariant
            i <= v@.len(),
            v@ == input@,
            forall|j: int| 0 <= j < i ==> v@[j] != '\n',
        decreases v@.len() - i,
    {
        if v[i] == '\n' {
            assert(input@.contains('\n'));
            return false;
        }
        i += 1;
    }
    v.len() > 0
}

/// The text that an input stands for, given what came of reading the file of that name.
pub fn resolve_prompt_input(
    input: &Option<String>,
    description: &str,
    read: &FileRead,
    warnings: &mut Vec<String>,
) -> (r: Option<String>)
    ensures
        text::opt_view(r) == prompt_input(text::opt_view(*input), read@),
        text::views(final(warnings)@) == text::views(old(warnings)@) + input_warnings(
            text::opt_view(*input),
            description@,
            read@,
        ),
{
    let ghost before = text::views(warnings@);
    assert(before + Seq::<Seq<char>>::empty() =~= before);
    match input {
        None => None,
        Some(s) => {
            if to_chars(s).len() == 0 {
                return None;
            }
            if !is_file_name(s) {
                return Some(s.clone());
            }
            match read {
                FileRead::Bytes(b) => Some(decode_lossy(b)),
                FileRead::Missing => Some(s.clone()),
                FileRead::Failed(e) => {
                    let mut m = "Could not read ".to_string();
                    m.append(description);
                    m.append(" file ");
                    m.append(s);
                    m.append(": ");
                    m.append(e);
                    proof {
                        text::lemma_views_push(warnings@, m);
                        assert(before.push(m@) =~= before + seq![m@]);
                    }
                    warnings.push(m);
                    Some(s.clone())
                },
            }
        },
    }
}

/// The manner that a file of the user asks for.
pub open spec fn own_personality(read: FileReadView) -> Option<Seq<char>> {
    match read {
        FileReadView::Bytes(b) => {
            let t = text::trim(Space::Unicode, sse::utf8_text(b));
            if t.len() > 0 {
                Some(t)
            } else {
                None
            }
        },
        _ => None,
    }
}

/// What is wrong with that file.
pub open spec fn personality_warnings(path: Seq<char>, read: FileReadView) -> Seq<Seq<char>> {
    match read {
        FileReadView::Bytes(b) => if text::trim(Space::Unicode, sse::utf8_text(b)).len() == 0 {
            seq![
                "PERSONALITY.md is empty; using the configured personality preset ("@ + path
                    + ")"@,
            ]
        } else {
            Seq::empty()
        },
        FileReadView::Missing => Seq::empty(),
        FileReadView::Failed(e) => seq![
            "Failed to read PERSONALITY.md; using the configured personality preset ("@ + path
                + "): "@ + e,
        ],
    }
}

/// The manner that a file of the user asks for, given what came of reading it.
pub fn load_personality_override(path: &str, read: &FileRead, warnings: &mut Vec<String>) -> (r: Option<
    String,
>)
    ensures
        text::opt_view(r) == own_personality(read@),
        text::views(final(warnings)@) == text::views(old(warnings)@) + personality_warnings(
            path@,
            read@,
        ),
{
    let ghost before = text::views(warnings@);
    assert(before + Seq::<Seq<char>>::empty() =~= before);
    match read {
        FileRead::Bytes(b) => {
            let t = trim_text(Space::Unicode, &decode_lossy(b));
            if to_chars(&t).len() > 0 {
                return Some(t);
            }
            let mut m = "PERSONALITY.md is empty; using the configured personality preset ("
                .to_string();
            m.append(path);
            m.append(")");
            proof {
                text::lemma_views_push(warnings@, m);
                assert(before.push(m@) =~= before + seq![m@]);
            }
            warnings.push(m);
            None
        },
        FileRead::Missing => None,
        FileRead::Failed(e) => {
            let mut m =
                "Failed to read PERSONALITY.md; using the configured personality preset ("
                .to_string();
            m.append(path);
            m.append("): ");
            m.append(e);
            proof {
                text::lemma_views_push(warnings@, m);
                assert(before.push(m@) =~= before + seq![m@]);
            }
            warnings.push(m);
            None
        },
    }
}

/// The text that asks for a manner.
pub open spec fn preset(t: PromptTemplatesView, p: Personality) -> Seq<char> {
    match p {
        Personality::Default => t.default_personality,
        Personality::Friendly => t.friendly_personality,
        Personality::Pragmatic => t.pragmatic_personality,
        Personality::Plain => Seq::empty(),
    }
}

/// The manner that the prompt asks for: that of the user's file, or else the one that is set.
pub open spec fn manner(t: PromptTemplatesView, p: Personality, read: FileReadView) -> Seq<char> {
    if p == Personality::Plain {
        Seq::empty()
    } else {
        match own_personality(read) {
            Some(s) => s,
            None => text::trim(Space::Unicode, preset(t, p)),
        }
    }
}

fn find_manner(
    t: &PromptTemplates,
    p: Personality,
    path: &str,
    read: &FileRead,
    warnings: &mut Vec<String>,
) -> (r: String)
    ensures
        r@ == manner(t@, p, read@),
        text::views(final(warnings)@) == (if p == Personality::Plain {
            text::views(old(warnings)@)
        } else {
            text::views(old(warnings)@) + personality_warnings(path@, read@)
        }),
{
    if p == Personality::Plain {
        let none = String::new();
        assert(none@ =~= Seq::empty());
        return none;
    }
    match load_personality_override(path, read, warnings) {
        Some(s) => s,
        None => match p {
            Personality::Default => trim_text(Space::Unicode, &t.default_personality),
            Personality::Friendly => trim_text(Space::Unicode, &t.friendly_personality),
            Personality::Pragmatic => trim_text(Space::Unicode, &t.pragmatic_personality),
            Personality::Plain => String::new(),
        },
    }
}

/// Whether another text holds the paragraphs of `rule`.
pub open spec fn source_contains(source: Option<Seq<char>>, rule: Seq<char>) -> bool {
    project::contains_run(
        project::comparable_blocks(
            match source {
                Some(s) => s,
                None => Seq::empty(),
            },
        ),
        project::comparable_blocks(rule),
    )
}

/// A text without white space around it; nothing where one of two others holds its paragraphs.
pub open spec fn deduped_source(
    source: Option<Seq<char>>,
    one: Option<Seq<char>>,
    two: Option<Seq<char>>,
) -> Seq<char> {
    match source {
        Some(s) => {
            let t = text::trim(Space::Js, s);
            if t.len() == 0 || source_contains(one, t) || source_contains(two, t) {
                Seq::empty()
            } else {
                t
            }
        },
        None => Seq::empty(),
    }
}

fn contained(source: &Option<String>, rule: &str) -> (r: bool)
    ensures
        r == source_contains(text::opt_view(*source), rule@),
{
    let none = String::new();
    assert(none@ =~= Seq::empty());
    let a = match source {
        Some(s) => split_comparable_prompt_blocks(s),
        None => split_comparable_prompt_blocks(&none),
    };
    let b = split_comparable_prompt_blocks(rule);
    prompt_blocks_contain(&a, &b)
}

/// A text without white space around it; nothing where one of two others holds its paragraphs.
pub fn dedupe_prompt_source(
    source: &Option<String>,
    one: &Option<String>,
    two: &Option<String>,
) -> (r: String)
    ensures
        r@ == deduped_source(text::opt_view(*source), text::opt_view(*one), text::opt_view(*two)),
{
    let none = String::new();
    assert(none@ =~= Seq::empty());
    match source {
        Some(s) => {
            let t = js::trim(s);
            if to_chars(&t).len() == 0 || contained(one, &t) || contained(two, &t) {
                none
            } else {
                t
            }
        },
        None => none,
    }
}

/// A path with `/` for every `\\`.
pub open spec fn with_slashes(s: Seq<char>) -> Seq<char> {
    text::replaced(s, "\\"@, "/"@)
}

fn normalize_prompt_path(s: &str) -> (r: String)
    ensures
        r@ == with_slashes(s@),
{
    proof {
        reveal_strlit("\\");
        assert("\\"@.len() == 1);
    }
    text::replace_text(s, "\\", "/")
}

// ------------------------------------------------------------------ the machine

/// The name of a kernel: its build text, or else its kind and release where that says nothing.
pub open spec fn kernel_name(version: Seq<char>, sysname: Seq<char>, release: Seq<char>) -> Seq<char> {
    let v = text::trim(Space::Unicode, version);
    if v.len() > 0 && text::lower(v) != "unknown"@ {
        v
    } else {
        text::trim(Space::Unicode, sysname + " "@ + release)
    }
}

/// The name of a kernel: its build text, or else its kind and release where that says nothing.
pub fn kernel_identity(version: &str, sysname: &str, release: &str) -> (r: String)
    ensures
        r@ == kernel_name(version@, sysname@, release@),
{
    let v = trim_text(Space::Unicode, version);
    if to_chars(&v).len() > 0 && !same_text(&lower_text(&v), "unknown") {
        v
    } else {
        let mut s = sysname.to_string();
        s.append(" ");
        s.append(release);
        trim_text(Space::Unicode, &s)
    }
}

/// What the host says of its machine.
#[derive(Debug)]
pub struct HostFacts {
    pub sysname: String,
    pub release: String,
    pub version: String,
    pub os: String,
    pub arch: String,
    /// The list of processors.
    pub cpuinfo: Option<String>,
    pub term_program: Option<String>,
    pub term_program_version: Option<String>,
    pub wt_session: Option<String>,
    pub term: Option<String>,
    pub colorterm: Option<String>,
    pub terminal_emulator: Option<String>,
}

/// What a [`HostFacts`] stands for.
#[verifier::ext_equal]
pub struct HostFactsView {
    pub sysname: Seq<char>,
    pub release: Seq<char>,
    pub version: Seq<char>,
    pub os: Seq<char>,
    pub arch: Seq<char>,
    pub cpuinfo: Option<Seq<char>>,
    pub term_program: Option<Seq<char>>,
    pub term_program_version: Option<Seq<char>>,
    pub wt_session: Option<Seq<char>>,
    pub term: Option<Seq<char>>,
    pub colorterm: Option<Seq<char>>,
    pub terminal_emulator: Option<Seq<char>>,
}

impl View for HostFacts {
    type V = HostFactsView;

    open spec fn view(&self) -> HostFactsView {
        HostFactsView {
            sysname: self.sysname@,
            release: self.release@,
            version: self.version@,
            os: self.os@,
            arch: self.arch@,
            cpuinfo: text::opt_view(self.cpuinfo),
            term_program: text::opt_view(self.term_program),
            term_program_version: text::opt_view(self.term_program_version),
            wt_session: text::opt_view(self.wt_session),
            term: text::opt_view(self.term),
            colorterm: text::opt_view(self.colorterm),
            terminal_emulator: text::opt_view(self.terminal_emulator),
        }
    }
}

impl Clone for HostFacts {
    fn clone(&self) -> (r: HostFacts)
        ensures
            r@ == self@,
    {
        HostFacts {
            sysname: self.sysname.clone(),
            release: self.release.clone(),
            version: self.version.clone(),
            os: self.os.clone(),
            arch: self.arch.clone(),
            cpuinfo: clone_opt_string(&self.cpuinfo),
            term_program: clone_opt_string(&self.term_program),
            term_program_version: clone_opt_string(&self.term_program_version),
            wt_session: clone_opt_string(&self.wt_session),
            term: clone_opt_string(&self.term),
            colorterm: clone_opt_string(&self.colorterm),
            terminal_emulator: clone_opt_string(&self.terminal_emulator),
        }
    }
}

/// A line on the machine.
#[derive(Debug, PartialEq)]
pub struct Fact {
    pub label: String,
    pub value: String,
}

/// What a [`Fact`] stands for.
#[verifier::ext_equal]
pub struct FactView {
    pub label: Seq<char>,
    pub value: Seq<char>,
}

impl View for Fact {
    type V = FactView;

    open spec fn view(&self) -> FactView {
        FactView {
            label: self.label@,
            value: self.value@,
        }
    }
}

impl Clone for Fact {
    fn clone(&self) -> (r: Fact)
        ensures
            r@ == self@,
    {
        Fact {
            label: self.label.clone(),
            value: self.value.clone(),
        }
    }
}

/// What a system is called.
pub open spec fn platform_name(os: Seq<char>) -> Seq<char> {
    if os == "macos"@ {
        "darwin"@
    } else if os == "windows"@ {
        "win32"@
    } else {
        os
    }
}

/// What a kind of processor is called.
pub open spec fn arch_name(arch: Seq<char>) -> Seq<char> {
    if arch == "x86_64"@ {
        "x64"@
    } else if arch == "aarch64"@ {
        "arm64"@
    } else if arch == "x86"@ {
        "ia32"@
    } else {
        arch
    }
}

/// The model that a line of the list of processors names.
pub open spec fn model_in(line: Seq<char>) -> Option<Seq<char>> {
    if text::stands_at(line, 0, "model name"@) {
        let rest = text::trim_start(Space::Unicode, line.skip(10));
        if rest.len() > 0 && rest[0] == ':' {
            Some(text::trim(Space::Unicode, rest.skip(1)))
        } else {
            None
        }
    } else {
        None
    }
}

/// The first model from line `i` on.
pub open spec fn model_from(lines: Seq<Seq<char>>, i: int) -> Option<Seq<char>>
    decreases lines.len() - i,
{
    if i < 0 || i >= lines.len() {
        None
    } else {
        match model_in(lines[i]) {
            Some(m) => Some(m),
            None => model_from(lines, i + 1),
        }
    }
}

/// The model of the processor.
pub open spec fn cpu_model_of(info: Option<Seq<char>>) -> Option<Seq<char>> {
    match info {
        Some(s) => match model_from(text::split(s, '\n'), 0) {
            Some(m) => if m.len() > 0 {
                Some(m)
            } else {
                None
            },
            None => None,
        },
        None => None,
    }
}

fn find_model_in(line: &str) -> (r: Option<String>)
    ensures
        text::opt_view(r) == model_in(line@),
{
    proof {
        reveal_strlit("model name");
        assert("model name"@.len() == 10);
    }
    let v = to_chars(line);
    let n: usize = v.len();
    if !text::is_at(&v, 0, "model name") {
        return None;
    }
    let rest = slice_string(&v, 10, n);
    assert(rest@ =~= line@.skip(10));
    let rest = text::trim_start_text(Space::Unicode, &rest);
    let w = to_chars(&rest);
    let m: usize = w.len();
    if m == 0 || w[0] != ':' {
        return None;
    }
    let value = slice_string(&w, 1, m);
    assert(value@ =~= rest@.skip(1));
    Some(trim_text(Space::Unicode, &value))
}

/// The model of the processor, by the list of processors.
pub fn cpu_model(info: &Option<String>) -> (r: Option<String>)
    ensures
        text::opt_view(r) == cpu_model_of(text::opt_view(*info)),
{
    match info {
        None => None,
        Some(s) => {
            let lines = split_text(s, '\n');
            let ghost all = text::split(s@, '\n');
            let mut i: usize = 0;
            while i < lines.len()
                invariant
                    i <= lines@.len(),
                    all == text::views(lines@),
                    all == text::split(s@, '\n'),
                    text::opt_view(*info) == Some(s@),
                    model_from(all, 0) == model_from(all, i as int),
                decreases lines@.len() - i,
            {
                assert(all[i as int] == lines@[i as int]@);
                match find_model_in(&lines[i]) {
                    Some(m) => {
                        if to_chars(&m).len() > 0 {
                            return Some(m);
                        }
                        return None;
                    },
                    None => {},
                }
                i += 1;
            }
            None
        },
    }
}

/// The terminal, as far as the environment tells.
pub open spec fn terminal_of(f: HostFactsView) -> Option<Seq<char>> {
    if capability::is_set(f.term_program) {
        if capability::is_set(f.term_program_version) {
            Some(f.term_program.unwrap() + " "@ + f.term_program_version.unwrap())
        } else {
            f.term_program
        }
    } else if f.wt_session is Some {
        Some("Windows Terminal"@)
    } else if capability::setting(f.term) is Some {
        capability::setting(f.term)
    } else if capability::setting(f.colorterm) is Some {
        capability::setting(f.colorterm)
    } else {
        capability::setting(f.terminal_emulator)
    }
}

fn find_terminal(f: &HostFacts) -> (r: Option<String>)
    ensures
        text::opt_view(r) == terminal_of(f@),
{
    match &f.term_program {
        Some(t) => {
            if to_chars(t).len() > 0 {
                return match &f.term_program_version {
                    Some(v) => if to_chars(v).len() > 0 {
                        let mut s = t.clone();
                        s.append(" ");
                        s.append(v);
                        Some(s)
                    } else {
                        Some(t.clone())
                    },
                    None => Some(t.clone()),
                };
            }
        },
        None => {},
    }
    if f.wt_session.is_some() {
        return Some("Windows Terminal".to_string());
    }
    match capability::trimmed_setting(&f.term) {
        Some(t) => Some(t),
        None => match capability::trimmed_setting(&f.colorterm) {
            Some(t) => Some(t),
            None => capability::trimmed_setting(&f.terminal_emulator),
        },
    }
}

/// The lines with one more, where it says anything.
pub open spec fn with_fact(facts: Seq<FactView>, label: Seq<char>, value: Option<Seq<char>>) -> Seq<
    FactView,
> {
    if capability::is_set(value) {
        facts.push(FactView { label, value: value.unwrap() })
    } else {
        facts
    }
}

/// The lines on a machine.
pub open spec fn facts_of(f: HostFactsView) -> Seq<FactView> {
    let a = with_fact(
        Seq::empty(),
        "OS"@,
        Some(platform_name(f.os) + " "@ + f.release),
    );
    let b = with_fact(a, "Distro"@, Some(f.sysname));
    let c = with_fact(b, "Kernel"@, Some(kernel_name(f.version, f.sysname, f.release)));
    let d = with_fact(c, "Arch"@, Some(arch_name(f.arch)));
    let e = with_fact(d, "CPU"@, cpu_model_of(f.cpuinfo));
    with_fact(e, "Terminal"@, terminal_of(f))
}

fn push_fact(facts: &mut Vec<Fact>, label: &str, value: Option<String>)
    ensures
        text::views(final(facts)@) == with_fact(
            text::views(old(facts)@),
            label@,
            text::opt_view(value),
        ),
{
    match value {
        Some(v) => {
            if to_chars(&v).len() > 0 {
                let f = Fact { label: label.to_string(), value: v };
                proof {
                    text::lemma_views_push(facts@, f);
                }
                facts.push(f);
            }
        },
        None => {},
    }
}

/// The lines on a machine, by what the host says of it.
pub fn environment_info(f: &HostFacts) -> (r: Vec<Fact>)
    ensures
        text::views(r@) == facts_of(f@),
{
    let mut out: Vec<Fact> = Vec::new();
    assert(text::views(out@) =~= Seq::empty());
    let mut os = if same_text(&f.os, "macos") {
        "darwin".to_string()
    } else if same_text(&f.os, "windows") {
        "win32".to_string()
    } else {
        f.os.clone()
    };
    os.append(" ");
    os.append(&f.release);
    push_fact(&mut out, "OS", Some(os));
    push_fact(&mut out, "Distro", Some(f.sysname.clone()));
    push_fact(&mut out, "Kernel", Some(kernel_identity(&f.version, &f.sysname, &f.release)));
    let arch = if same_text(&f.arch, "x86_64") {
        "x64".to_string()
    } else if same_text(&f.arch, "aarch64") {
        "arm64".to_string()
    } else if same_text(&f.arch, "x86") {
        "ia32".to_string()
    } else {
        f.arch.clone()
    };
    push_fact(&mut out, "Arch", Some(arch));
    push_fact(&mut out, "CPU", cpu_model(&f.cpuinfo));
    push_fact(&mut out, "Terminal", find_terminal(f));
    out
}

// ------------------------------------------------------------------ the repository below

/// Whether an entry of a directory is a repository.
pub open spec fn is_repo(fs: FsView, dir: Seq<char>, e: DirEntryView) -> bool {
    let child = paths::joined(dir, e.name);
    let git = paths::joined(child, ".git"@);
    (e.is_dir || (e.is_link && files::is_dir_at(fs, child))) && (files::is_dir_at(fs, git)
        || files::is_file_at(fs, git))
}

/// The names of the repositories among entries.
pub open spec fn repo_names(fs: FsView, dir: Seq<char>, entries: Seq<DirEntryView>) -> Seq<Seq<char>>
    decreases entries.len(),
{
    if entries.len() == 0 {
        Seq::empty()
    } else {
        let have = repo_names(fs, dir, entries.drop_last());
        if is_repo(fs, dir, entries.last()) {
            have.push(entries.last().name)
        } else {
            have
        }
    }
}

/// Outside of repositories, the one repository right below the working directory, if exactly one
/// is there.
pub open spec fn active_repo_at(d: DiscoveryView, cwd: Seq<char>) -> Option<Seq<char>> {
    let here = paths::resolved(d.fs.current, cwd);
    let names = repo_names(d.fs, here, files::listing_at(d.fs, here).entries);
    if files::repo_root_from(d.fs, paths::resolved(d.fs.current, here)) is None && names.len() == 1 {
        Some(names[0])
    } else {
        None
    }
}

/// Outside of repositories, the one repository right below the working directory, if exactly one
/// is there.
pub fn resolve_active_repo_context(discovery: &mut Discovery, cwd: &str) -> (r: Option<String>)
    ensures
        final(discovery)@ == old(discovery)@,
        text::opt_view(r) == active_repo_at(old(discovery)@, cwd@),
        files::only_adds(old(discovery).fs.wanted@, final(discovery).fs.wanted@),
        files::asked_nothing(old(discovery).fs.wanted@, final(discovery).fs.wanted@) ==> forall|more: FsView| #[trigger]
            files::extends(more, old(discovery)@.fs) ==>
                active_repo_at((DiscoveryView { fs: more, ..old(discovery)@ }), cwd@)
                    == active_repo_at(old(discovery)@, cwd@),
{
    proof {
        files::lemma_extends_current(discovery@.fs);
    }
    let ghost d = discovery@;
    let here = resolve(&discovery.fs.current, cwd);
    if discovery.fs.find_repo_root(&here).is_some() {
        return None;
    }
    let entries = discovery.fs.read_dir_entries(&here);
    let ghost all = text::views(entries@);
    let ghost asked = discovery.fs.wanted@;
    let mut names: Vec<String> = Vec::new();
    let mut i: usize = 0;
    proof {
        assert(all.take(0) =~= Seq::<DirEntryView>::empty());
        assert(text::views(names@) =~= Seq::empty());
    }
    while i < entries.len()
        invariant
            i <= entries@.len(),
            discovery@ == d,
            d == old(discovery)@,
            all == text::views(entries@),
            text::views(names@) == repo_names(d.fs, here@, all.take(i as int)),
            files::only_adds(asked, discovery.fs.wanted@),
            files::asked_nothing(asked, discovery.fs.wanted@) ==> forall|more: FsView| #[trigger]
                files::extends(more, d.fs) ==> repo_names(more, here@, all.take(i as int))
                    == repo_names(d.fs, here@, all.take(i as int)),
        decreases entries@.len() - i,
    {
        proof {
            assert(all.take(i as int + 1).drop_last() =~= all.take(i as int));
            assert(all.take(i as int + 1).last() == entries@[i as int]@);
        }
        let e = &entries[i];
        let child = join_path(&here, &e.name);
        let is_dir = e.is_dir || (e.is_link && discovery.fs.is_directory(&child));
        if is_dir {
            let git = join_path(&child, ".git");
            if discovery.fs.is_directory(&git) || discovery.fs.is_regular(&git) {
                let name = e.name.clone();
                proof {
                    text::lemma_views_push(names@, name);
                }
                names.push(name);
            }
        }
        i += 1;
    }
    assert(all.take(i as int) =~= all);
    if names.len() == 1 {
        Some(names[0].clone())
    } else {
        None
    }
}

// ------------------------------------------------------------------ sorted names

/// Whether one text stands before another by its characters, from index `i` on.
pub open spec fn stands_before(a: Seq<char>, b: Seq<char>, i: int) -> bool
    decreases a.len() - i,
{
    if i < 0 || i >= b.len() {
        false
    } else if i >= a.len() {
        true
    } else if a[i] == b[i] {
        stands_before(a, b, i + 1)
    } else {
        a[i] < b[i]
    }
}

fn is_before(a: &str, b: &str) -> (r: bool)
    ensures
        r == stands_before(a@, b@, 0),
{
    let x = to_chars(a);
    let y = to_chars(b);
    let mut i: usize = 0;
    loop
        invariant
            i <= x@.len(),
            i <= y@.len(),
            x@ == a@,
            y@ == b@,
            stands_before(x@, y@, 0) == stands_before(x@, y@, i as int),
        decreases x@.len() - i,
    {
        if i >= y.len() {
            return false;
        }
        if i >= x.len() {
            return true;
        }
        if x[i] != y[i] {
            return x[i] < y[i];
        }
        i += 1;
    }
}

/// The names with one more in its place; a name that is there already is not added.
pub open spec fn named_in(names: Seq<Seq<char>>, name: Seq<char>) -> Seq<Seq<char>>
    decreases names.len(),
{
    if names.len() == 0 {
        seq![name]
    } else if names.last() == name {
        names
    } else if stands_before(name, names.last(), 0) {
        named_in(names.drop_last(), name).push(names.last())
    } else {
        names.push(name)
    }
}

/// The names in order, each once.
pub open spec fn sorted_names(names: Seq<Seq<char>>) -> Seq<Seq<char>>
    decreases names.len(),
{
    if names.len() == 0 {
        names
    } else {
        named_in(sorted_names(names.drop_last()), names.last())
    }
}

fn insert_name(names: Vec<String>, name: &str) -> (r: Vec<String>)
    ensures
        text::views(r@) == named_in(text::views(names@), name@),
    decreases names@.len(),
{
    let mut names = names;
    let ghost all = text::views(names@);
    let n: usize = names.len();
    if n == 0 {
        names.push(name.to_string());
        assert(text::views(names@) =~= seq![name@]);
        return names;
    }
    if same_text(&names[n - 1], name) {
        return names;
    }
    if is_before(name, &names[n - 1]) {
        match names.pop() {
            Some(last) => {
                assert(text::views(names@) =~= all.drop_last());
                let mut out = insert_name(names, name);
                proof {
                    text::lemma_views_push(out@, last);
                }
                out.push(last);
                out
            },
            None => names,
        }
    } else {
        let s = name.to_string();
        proof {
            text::lemma_views_push(names@, s);
        }
        names.push(s);
        names
    }
}

fn sort_names(names: &Vec<String>) -> (r: Vec<String>)
    ensures
        text::views(r@) == sorted_names(text::views(names@)),
{
    let ghost all = text::views(names@);
    let mut out: Vec<String> = Vec::new();
    let mut i: usize = 0;
    assert(text::views(out@) =~= all.take(0));
    while i < names.len()
        invariant
            i <= names@.len(),
            all == text::views(names@),
            text::views(out@) == sorted_names(all.take(i as int)),
        decreases names@.len() - i,
    {
        proof {
            assert(all.take(i as int + 1).drop_last() =~= all.take(i as int));
            assert(all.take(i as int + 1).last() == names@[i as int]@);
        }
        out = insert_name(out, &names[i]);
        i += 1;
    }
    assert(all.take(i as int) =~= all);
    out
}

/// How many names of context files are listed.
pub const MAX_LISTED_FILES: usize = 200;

/// The names of context files that are listed: in order, each once, no more than a bound.
pub open spec fn listed_files(names: Seq<Seq<char>>) -> Seq<Seq<char>> {
    let all = sorted_names(names);
    if all.len() > MAX_LISTED_FILES {
        all.take(MAX_LISTED_FILES as int)
    } else {
        all
    }
}

fn list_files(names: &Vec<String>) -> (r: Vec<String>)
    ensures
        text::views(r@) == listed_files(text::views(names@)),
{
    let mut all = sort_names(names);
    let ghost before = text::views(all@);
    if all.len() > MAX_LISTED_FILES {
        all.truncate(MAX_LISTED_FILES);
        assert(text::views(all@) =~= before.take(MAX_LISTED_FILES as int));
    }
    all
}

// ------------------------------------------------------------------ data

/// Texts as JSON.
pub open spec fn texts_json(s: Seq<Seq<char>>) -> JsonView {
    JsonView::Array(s.map_values(|t: Seq<char>| JsonView::String(t)))
}

fn texts(s: &Vec<String>) -> (r: Json)
    ensures
        r@ == texts_json(text::views(s@)),
{
    let ghost all = texts_json(text::views(s@))->Array_0;
    let mut out: Vec<Json> = Vec::new();
    let mut i: usize = 0;
    assert(text::views(out@) =~= all.take(0));
    while i < s.len()
        invariant
            i <= s@.len(),
            all == texts_json(text::views(s@))->Array_0,
            text::views(out@) == all.take(i as int),
        decreases s@.len() - i,
    {
        let v = Json::String(s[i].clone());
        proof {
            text::lemma_views_push(out@, v);
            assert(all[i as int] == v@);
            assert(all.take(i as int + 1) =~= all.take(i as int).push(v@));
        }
        out.push(v);
        i += 1;
    }
    proof {
        assert(all.take(i as int) =~= all);
        json::lemma_values_view(out);
    }
    Json::Array(out)
}

/// A text or null.
pub open spec fn opt_json(s: Option<Seq<char>>) -> JsonView {
    match s {
        Some(t) => JsonView::String(t),
        None => JsonView::Null,
    }
}

fn opt_text(s: &Option<String>) -> (r: Json)
    ensures
        r@ == opt_json(text::opt_view(*s)),
{
    match s {
        Some(t) => Json::String(t.clone()),
        None => Json::Null,
    }
}

/// Whether any kind of address is resolved.
pub open spec fn any_url(u: InternalUrlsView) -> bool {
    u.skill || u.rule || u.agent || u.history || u.artifact || u.local || u.mcp || u.github
        || u.harness_docs is Some
}

/// The kinds of addresses as JSON.
pub open spec fn urls_json(u: InternalUrlsView) -> JsonView {
    JsonView::Object(
        seq![
            ("any"@, JsonView::Bool(any_url(u))),
            ("skill"@, JsonView::Bool(u.skill)),
            ("rule"@, JsonView::Bool(u.rule)),
            ("agent"@, JsonView::Bool(u.agent)),
            ("history"@, JsonView::Bool(u.history)),
            ("artifact"@, JsonView::Bool(u.artifact)),
            ("local"@, JsonView::Bool(u.local)),
            ("mcp"@, JsonView::Bool(u.mcp)),
            ("github"@, JsonView::Bool(u.github)),
            ("harnessDocs"@, opt_json(u.harness_docs)),
        ],
    )
}

impl InternalUrls {
    /// The kinds of addresses as JSON.
    pub fn to_json(&self) -> (r: Json)
        ensures
            r@ == urls_json(self@),
    {
        let any = self.skill || self.rule || self.agent || self.history || self.artifact
            || self.local || self.mcp || self.github || self.harness_docs.is_some();
        let docs = opt_text(&self.harness_docs);
        let mut entries: Vec<(String, Json)> = Vec::new();
        entries.push(("any".to_string(), Json::Bool(any)));
        entries.push(("skill".to_string(), Json::Bool(self.skill)));
        entries.push(("rule".to_string(), Json::Bool(self.rule)));
        entries.push(("agent".to_string(), Json::Bool(self.agent)));
        entries.push(("history".to_string(), Json::Bool(self.history)));
        entries.push(("artifact".to_string(), Json::Bool(self.artifact)));
        entries.push(("local".to_string(), Json::Bool(self.local)));
        entries.push(("mcp".to_string(), Json::Bool(self.mcp)));
        entries.push(("github".to_string(), Json::Bool(self.github)));
        entries.push(("harnessDocs".to_string(), docs));
        let o = JsonObject { entries };
        assert(o@ =~= urls_json(self@)->Object_0);
        Json::Object(o)
    }
}

/// Lines on the machine as JSON.
pub open spec fn facts_json(items: Seq<FactView>) -> JsonView {
    JsonView::Array(items.map_values(|x: FactView| facts_item(x)))
}

/// Lines on the machine as JSON.
pub open spec fn facts_item(x: FactView) -> JsonView {
    JsonView::Object(
        seq![("label"@, JsonView::String(x.label)), ("value"@, JsonView::String(x.value))],
    )
}

fn write_facts(items: &Vec<Fact>) -> (r: Json)
    ensures
        r@ == facts_json(text::views(items@)),
{
    let ghost all = facts_json(text::views(items@))->Array_0;
    let mut out: Vec<Json> = Vec::new();
    let mut i: usize = 0;
    assert(text::views(out@) =~= all.take(0));
    while i < items.len()
        invariant
            i <= items@.len(),
            all == facts_json(text::views(items@))->Array_0,
            text::views(out@) == all.take(i as int),
        decreases items@.len() - i,
    {
        let x = &items[i];
        let a = Json::String(x.label.clone());
        let b = Json::String(x.value.clone());
        let v = object_2("label", a, "value", b);
        proof {
            text::lemma_views_push(out@, v);
            assert(all[i as int] == v@);
            assert(all.take(i as int + 1) =~= all.take(i as int).push(v@));
        }
        out.push(v);
        i += 1;
    }
    proof {
        assert(all.take(i as int) =~= all);
        json::lemma_values_view(out);
    }
    Json::Array(out)
}

/// Tools as JSON.
pub open spec fn tools_json(items: Seq<PromptToolView>) -> JsonView {
    JsonView::Array(items.map_values(|x: PromptToolView| tools_item(x)))
}

/// Tools as JSON.
pub open spec fn tools_item(x: PromptToolView) -> JsonView {
    JsonView::Object(
        seq![
            ("name"@, JsonView::String(x.name)),
            ("internalName"@, JsonView::String(x.name)),
            ("label"@, JsonView::String(x.label)),
        ],
    )
}

fn write_tools(items: &Vec<PromptTool>) -> (r: Json)
    ensures
        r@ == tools_json(text::views(items@)),
{
    let ghost all = tools_json(text::views(items@))->Array_0;
    let mut out: Vec<Json> = Vec::new();
    let mut i: usize = 0;
    assert(text::views(out@) =~= all.take(0));
    while i < items.len()
        invariant
            i <= items@.len(),
            all == tools_json(text::views(items@))->Array_0,
            text::views(out@) == all.take(i as int),
        decreases items@.len() - i,
    {
        let x = &items[i];
        let a = Json::String(x.name.clone());
        let b = Json::String(x.name.clone());
        let c = Json::String(x.label.clone());
        let v = object_3("name", a, "internalName", b, "label", c);
        proof {
            text::lemma_views_push(out@, v);
            assert(all[i as int] == v@);
            assert(all.take(i as int + 1) =~= all.take(i as int).push(v@));
        }
        out.push(v);
        i += 1;
    }
    proof {
        assert(all.take(i as int) =~= all);
        json::lemma_values_view(out);
    }
    Json::Array(out)
}

/// A depth as JSON.
pub open spec fn depth_json(d: Option<i64>) -> JsonView {
    match d {
        Some(n) => JsonView::Number(number::int_number(n as int)),
        None => JsonView::Null,
    }
}

fn write_depth(d: Option<i64>) -> (r: Json)
    ensures
        r@ == depth_json(d),
{
    match d {
        Some(n) => Json::Number(number::integer(n)),
        None => Json::Null,
    }
}

/// Context files as JSON.
pub open spec fn context_json(items: Seq<ProjectContextFileView>) -> JsonView {
    JsonView::Array(items.map_values(|x: ProjectContextFileView| context_item(x)))
}

/// Context files as JSON.
pub open spec fn context_item(x: ProjectContextFileView) -> JsonView {
    JsonView::Object(
        seq![
            ("path"@, JsonView::String(with_slashes(x.path))),
            ("content"@, JsonView::String(x.content)),
            ("depth"@, depth_json(x.depth)),
        ],
    )
}

fn write_context(items: &Vec<ProjectContextFile>) -> (r: Json)
    ensures
        r@ == context_json(text::views(items@)),
{
    let ghost all = context_json(text::views(items@))->Array_0;
    let mut out: Vec<Json> = Vec::new();
    let mut i: usize = 0;
    assert(text::views(out@) =~= all.take(0));
    while i < items.len()
        invariant
            i <= items@.len(),
            all == context_json(text::views(items@))->Array_0,
            text::views(out@) == all.take(i as int),
        decreases items@.len() - i,
    {
        let x = &items[i];
        let a = Json::String(normalize_prompt_path(&x.path));
        let b = Json::String(x.content.clone());
        let c = write_depth(x.depth);
        let v = object_3("path", a, "content", b, "depth", c);
        proof {
            text::lemma_views_push(out@, v);
            assert(all[i as int] == v@);
            assert(all.take(i as int + 1) =~= all.take(i as int).push(v@));
        }
        out.push(v);
        i += 1;
    }
    proof {
        assert(all.take(i as int) =~= all);
        json::lemma_values_view(out);
    }
    Json::Array(out)
}

/// Skills as JSON.
pub open spec fn skills_json(items: Seq<LoadedSkillView>) -> JsonView {
    JsonView::Array(items.map_values(|x: LoadedSkillView| skills_item(x)))
}

/// Skills as JSON.
pub open spec fn skills_item(x: LoadedSkillView) -> JsonView {
    JsonView::Object(
        seq![
            ("name"@, JsonView::String(x.name)),
            ("description"@, JsonView::String(x.description)),
        ],
    )
}

fn write_skills(items: &Vec<LoadedSkill>) -> (r: Json)
    ensures
        r@ == skills_json(text::views(items@)),
{
    let ghost all = skills_json(text::views(items@))->Array_0;
    let mut out: Vec<Json> = Vec::new();
    let mut i: usize = 0;
    assert(text::views(out@) =~= all.take(0));
    while i < items.len()
        invariant
            i <= items@.len(),
            all == skills_json(text::views(items@))->Array_0,
            text::views(out@) == all.take(i as int),
        decreases items@.len() - i,
    {
        let x = &items[i];
        let a = Json::String(x.name.clone());
        let b = Json::String(x.description.clone());
        let v = object_2("name", a, "description", b);
        proof {
            text::lemma_views_push(out@, v);
            assert(all[i as int] == v@);
            assert(all.take(i as int + 1) =~= all.take(i as int).push(v@));
        }
        out.push(v);
        i += 1;
    }
    proof {
        assert(all.take(i as int) =~= all);
        json::lemma_values_view(out);
    }
    Json::Array(out)
}

/// The names of tools, each under itself.
pub open spec fn tool_refs(tools: Seq<PromptToolView>) -> Entries
    decreases tools.len(),
{
    if tools.len() == 0 {
        Seq::empty()
    } else {
        json::with_member(
            tool_refs(tools.drop_last()),
            tools.last().name,
            JsonView::String(tools.last().name),
        )
    }
}

fn write_tool_refs(tools: &Vec<PromptTool>) -> (r: JsonObject)
    ensures
        r@ == tool_refs(text::views(tools@)),
{
    let ghost all = text::views(tools@);
    let mut out = JsonObject::new();
    let mut i: usize = 0;
    assert(all.take(0) =~= Seq::<PromptToolView>::empty());
    while i < tools.len()
        invariant
            i <= tools@.len(),
            all == text::views(tools@),
            out@ == tool_refs(all.take(i as int)),
        decreases tools@.len() - i,
    {
        proof {
            assert(all.take(i as int + 1).drop_last() =~= all.take(i as int));
            assert(all.take(i as int + 1).last() == tools@[i as int]@);
        }
        out.insert(tools[i].name.clone(), Json::String(tools[i].name.clone()));
        i += 1;
    }
    assert(all.take(i as int) =~= all);
    out
}

/// The names of tools.
pub open spec fn tool_names(tools: Seq<PromptToolView>) -> Seq<Seq<char>> {
    tools.map_values(|t: PromptToolView| t.name)
}

fn find_tool_names(tools: &Vec<PromptTool>) -> (r: Vec<String>)
    ensures
        text::views(r@) == tool_names(text::views(tools@)),
{
    let ghost all = tool_names(text::views(tools@));
    let mut out: Vec<String> = Vec::new();
    let mut i: usize = 0;
    assert(text::views(out@) =~= all.take(0));
    while i < tools.len()
        invariant
            i <= tools@.len(),
            all == tool_names(text::views(tools@)),
            text::views(out@) == all.take(i as int),
        decreases tools@.len() - i,
    {
        let n = tools[i].name.clone();
        proof {
            text::lemma_views_push(out@, n);
            assert(all[i as int] == n@);
            assert(all.take(i as int + 1) =~= all.take(i as int).push(n@));
        }
        out.push(n);
        i += 1;
    }
    assert(all.take(i as int) =~= all);
    out
}

/// What the templates are given.
#[derive(Debug)]
pub struct PromptInputs {
    pub harness_name: String,
    pub customization: String,
    pub custom: Option<String>,
    pub append: String,
    pub tools: Vec<PromptTool>,
    pub facts: Vec<Fact>,
    pub context_files: Vec<ProjectContextFile>,
    pub agents_md_files: Vec<String>,
    pub tree: String,
    pub tree_truncated: bool,
    pub skills: Vec<LoadedSkill>,
    pub cwd: String,
    pub roots: Vec<String>,
    pub model: String,
    pub personality: String,
    pub include_workspace_tree: bool,
    pub render_mermaid: bool,
    pub reactions: bool,
    pub urls: InternalUrls,
}

/// What a [`PromptInputs`] stands for.
#[verifier::ext_equal]
pub struct PromptInputsView {
    pub harness_name: Seq<char>,
    pub customization: Seq<char>,
    pub custom: Option<Seq<char>>,
    pub append: Seq<char>,
    pub tools: Seq<PromptToolView>,
    pub facts: Seq<FactView>,
    pub context_files: Seq<ProjectContextFileView>,
    pub agents_md_files: Seq<Seq<char>>,
    pub tree: Seq<char>,
    pub tree_truncated: bool,
    pub skills: Seq<LoadedSkillView>,
    pub cwd: Seq<char>,
    pub roots: Seq<Seq<char>>,
    pub model: Seq<char>,
    pub personality: Seq<char>,
    pub include_workspace_tree: bool,
    pub render_mermaid: bool,
    pub reactions: bool,
    pub urls: InternalUrlsView,
}

impl View for PromptInputs {
    type V = PromptInputsView;

    open spec fn view(&self) -> PromptInputsView {
        PromptInputsView {
            harness_name: self.harness_name@,
            customization: self.customization@,
            custom: text::opt_view(self.custom),
            append: self.append@,
            tools: text::views(self.tools@),
            facts: text::views(self.facts@),
            context_files: text::views(self.context_files@),
            agents_md_files: text::views(self.agents_md_files@),
            tree: self.tree@,
            tree_truncated: self.tree_truncated,
            skills: text::views(self.skills@),
            cwd: self.cwd@,
            roots: text::views(self.roots@),
            model: self.model@,
            personality: self.personality@,
            include_workspace_tree: self.include_workspace_tree,
            render_mermaid: self.render_mermaid,
            reactions: self.reactions,
            urls: self.urls@,
        }
    }
}

impl Clone for PromptInputs {
    fn clone(&self) -> (r: PromptInputs)
        ensures
            r@ == self@,
    {
        PromptInputs {
            harness_name: self.harness_name.clone(),
            customization: self.customization.clone(),
            custom: clone_opt_string(&self.custom),
            append: self.append.clone(),
            tools: clone_all(&self.tools),
            facts: clone_all(&self.facts),
            context_files: clone_all(&self.context_files),
            agents_md_files: clone_strings(&self.agents_md_files),
            tree: self.tree.clone(),
            tree_truncated: self.tree_truncated,
            skills: clone_all(&self.skills),
            cwd: self.cwd.clone(),
            roots: clone_strings(&self.roots),
            model: self.model.clone(),
            personality: self.personality.clone(),
            include_workspace_tree: self.include_workspace_tree,
            render_mermaid: self.render_mermaid,
            reactions: self.reactions,
            urls: self.urls.clone(),
        }
    }
}

fn empty_list() -> (r: Json)
    ensures
        r@ == JsonView::Array(Seq::empty()),
{
    let none: Vec<Json> = Vec::new();
    proof {
        json::lemma_values_view(none);
        assert(text::views(none@) =~= Seq::empty());
    }
    Json::Array(none)
}

/// A part of what the templates are given.
pub open spec fn first_data(x: PromptInputsView) -> Entries {
    seq![
        ("harnessName"@, JsonView::String(x.harness_name)),
        ("systemPromptCustomization"@, JsonView::String(x.customization)),
        ("customPrompt"@, opt_json(x.custom)),
        ("appendPrompt"@, JsonView::String(x.append)),
        ("tools"@, texts_json(tool_names(x.tools))),
        ("toolInfo"@, tools_json(x.tools)),
        ("toolInventory"@, JsonView::String(""@)),
        ("inlineToolDescriptors"@, JsonView::Bool(false)),
        ("toolListMode"@, JsonView::Bool(true)),
        ("toolRefs"@, JsonView::Object(tool_refs(x.tools))),
        ("environment"@, facts_json(x.facts)),
    ]
}

fn push_first_data(out: &mut Vec<(String, Json)>, x: &PromptInputs)
    ensures
        pairs(final(out)@) == pairs(old(out)@) + first_data(x@),
{
    let ghost before = pairs(out@);
    let v0 = Json::String(x.harness_name.clone());
    let v1 = Json::String(x.customization.clone());
    let v2 = opt_text(&x.custom);
    let v3 = Json::String(x.append.clone());
    let v4 = texts(&find_tool_names(&x.tools));
    let v5 = write_tools(&x.tools);
    let v6 = Json::String("".to_string());
    let v7 = Json::Bool(false);
    let v8 = Json::Bool(true);
    let v9 = Json::Object(write_tool_refs(&x.tools));
    let v10 = write_facts(&x.facts);
    out.push(("harnessName".to_string(), v0));
    out.push(("systemPromptCustomization".to_string(), v1));
    out.push(("customPrompt".to_string(), v2));
    out.push(("appendPrompt".to_string(), v3));
    out.push(("tools".to_string(), v4));
    out.push(("toolInfo".to_string(), v5));
    out.push(("toolInventory".to_string(), v6));
    out.push(("inlineToolDescriptors".to_string(), v7));
    out.push(("toolListMode".to_string(), v8));
    out.push(("toolRefs".to_string(), v9));
    out.push(("environment".to_string(), v10));
    assert(pairs(out@) =~= before + first_data(x@));
}

/// A part of what the templates are given.
pub open spec fn second_data(x: PromptInputsView) -> Entries {
    seq![
        ("contextFiles"@, context_json(x.context_files)),
        ("agentsMdSearch"@, JsonView::Object(seq![("files"@, texts_json(x.agents_md_files))])),
        ("workspaceTree"@, JsonView::Object(
            seq![
                ("rendered"@, JsonView::String(x.tree)),
                ("truncated"@, JsonView::Bool(x.tree_truncated)),
            ],
        )),
        ("skills"@, skills_json(x.skills)),
        ("rules"@, JsonView::Array(Seq::empty())),
        ("alwaysApplyRules"@, JsonView::Array(Seq::empty())),
        ("cwd"@, JsonView::String(with_slashes(x.cwd))),
        ("additionalWorkspaceRoots"@, texts_json(x.roots)),
        ("model"@, JsonView::String(x.model)),
        ("useCodexTaskPrompt"@, JsonView::Bool(false)),
        ("personality"@, JsonView::String(x.personality)),
    ]
}

fn push_second_data(out: &mut Vec<(String, Json)>, x: &PromptInputs)
    ensures
        pairs(final(out)@) == pairs(old(out)@) + second_data(x@),
{
    let ghost before = pairs(out@);
    let v0 = write_context(&x.context_files);
    let v1 = object_1("files", texts(&x.agents_md_files));
    let v2 = object_2(
        "rendered",
        Json::String(x.tree.clone()),
        "truncated",
        Json::Bool(x.tree_truncated),
    );
    let v3 = write_skills(&x.skills);
    let v4 = empty_list();
    let v5 = empty_list();
    let v6 = Json::String(normalize_prompt_path(&x.cwd));
    let v7 = texts(&x.roots);
    let v8 = Json::String(x.model.clone());
    let v9 = Json::Bool(false);
    let v10 = Json::String(x.personality.clone());
    out.push(("contextFiles".to_string(), v0));
    out.push(("agentsMdSearch".to_string(), v1));
    out.push(("workspaceTree".to_string(), v2));
    out.push(("skills".to_string(), v3));
    out.push(("rules".to_string(), v4));
    out.push(("alwaysApplyRules".to_string(), v5));
    out.push(("cwd".to_string(), v6));
    out.push(("additionalWorkspaceRoots".to_string(), v7));
    out.push(("model".to_string(), v8));
    out.push(("useCodexTaskPrompt".to_string(), v9));
    out.push(("personality".to_string(), v10));
    assert(pairs(out@) =~= before + second_data(x@));
}

/// A part of what the templates are given.
pub open spec fn third_data(x: PromptInputsView) -> Entries {
    seq![
        ("intentTracing"@, JsonView::Bool(false)),
        ("intentField"@, JsonView::String(""@)),
        ("eagerTasks"@, JsonView::Bool(false)),
        ("eagerTasksAlways"@, JsonView::Bool(false)),
        ("taskBatch"@, JsonView::Bool(true)),
        ("MAX_CONCURRENCY"@, JsonView::Number(NumberView::PosInt(0))),
        ("scoutAvailable"@, JsonView::Bool(false)),
        ("taskIrcEnabled"@, JsonView::Bool(false)),
        ("secretsEnabled"@, JsonView::Bool(false)),
        ("hasMemoryRoot"@, JsonView::Bool(false)),
        ("securityEnabled"@, JsonView::Bool(false)),
    ]
}

fn push_third_data(out: &mut Vec<(String, Json)>, x: &PromptInputs)
    ensures
        pairs(final(out)@) == pairs(old(out)@) + third_data(x@),
{
    let ghost before = pairs(out@);
    let v0 = Json::Bool(false);
    let v1 = Json::String("".to_string());
    let v2 = Json::Bool(false);
    let v3 = Json::Bool(false);
    let v4 = Json::Bool(true);
    let v5 = Json::Number(Number::PosInt(0));
    let v6 = Json::Bool(false);
    let v7 = Json::Bool(false);
    let v8 = Json::Bool(false);
    let v9 = Json::Bool(false);
    let v10 = Json::Bool(false);
    out.push(("intentTracing".to_string(), v0));
    out.push(("intentField".to_string(), v1));
    out.push(("eagerTasks".to_string(), v2));
    out.push(("eagerTasksAlways".to_string(), v3));
    out.push(("taskBatch".to_string(), v4));
    out.push(("MAX_CONCURRENCY".to_string(), v5));
    out.push(("scoutAvailable".to_string(), v6));
    out.push(("taskIrcEnabled".to_string(), v7));
    out.push(("secretsEnabled".to_string(), v8));
    out.push(("hasMemoryRoot".to_string(), v9));
    out.push(("securityEnabled".to_string(), v10));
    assert(pairs(out@) =~= before + third_data(x@));
}

/// A part of what the templates are given.
pub open spec fn fourth_data(x: PromptInputsView) -> Entries {
    seq![
        ("hasObsidian"@, JsonView::Bool(false)),
        ("includeWorkspaceTree"@, JsonView::Bool(x.include_workspace_tree)),
        ("renderMermaid"@, JsonView::Bool(x.render_mermaid)),
        ("reactions"@, JsonView::Bool(x.reactions)),
        ("xdevTools"@, JsonView::Array(Seq::empty())),
        ("hasDynamicXdevTools"@, JsonView::Bool(false)),
        ("xdevDocs"@, JsonView::String(""@)),
        ("autoQaEnabled"@, JsonView::Bool(false)),
        ("writeTransportOnly"@, JsonView::Bool(false)),
        ("urls"@, urls_json(x.urls)),
    ]
}

fn push_fourth_data(out: &mut Vec<(String, Json)>, x: &PromptInputs)
    ensures
        pairs(final(out)@) == pairs(old(out)@) + fourth_data(x@),
{
    let ghost before = pairs(out@);
    let v0 = Json::Bool(false);
    let v1 = Json::Bool(x.include_workspace_tree);
    let v2 = Json::Bool(x.render_mermaid);
    let v3 = Json::Bool(x.reactions);
    let v4 = empty_list();
    let v5 = Json::Bool(false);
    let v6 = Json::String("".to_string());
    let v7 = Json::Bool(false);
    let v8 = Json::Bool(false);
    let v9 = x.urls.to_json();
    out.push(("hasObsidian".to_string(), v0));
    out.push(("includeWorkspaceTree".to_string(), v1));
    out.push(("renderMermaid".to_string(), v2));
    out.push(("reactions".to_string(), v3));
    out.push(("xdevTools".to_string(), v4));
    out.push(("hasDynamicXdevTools".to_string(), v5));
    out.push(("xdevDocs".to_string(), v6));
    out.push(("autoQaEnabled".to_string(), v7));
    out.push(("writeTransportOnly".to_string(), v8));
    out.push(("urls".to_string(), v9));
    assert(pairs(out@) =~= before + fourth_data(x@));
}

/// Members by what they stand for.
pub open spec fn pairs(entries: Seq<(String, Json)>) -> Entries {
    entries.map_values(|e: (String, Json)| (e.0@, e.1@))
}

/// What the templates are given.
pub open spec fn prompt_data(x: PromptInputsView) -> Entries {
    first_data(x) + second_data(x) + third_data(x) + fourth_data(x)
}

/// What the templates are given.
pub fn build_data(x: &PromptInputs) -> (r: JsonObject)
    ensures
        r@ == prompt_data(x@),
{
    let mut entries: Vec<(String, Json)> = Vec::new();
    assert(pairs(entries@) =~= Seq::empty());
    push_first_data(&mut entries, x);
    push_second_data(&mut entries, x);
    push_third_data(&mut entries, x);
    push_fourth_data(&mut entries, x);
    let ghost all = pairs(entries@);
    let o = JsonObject { entries };
    proof {
        assert(o@ =~= all);
        assert(all =~= prompt_data(x@));
    }
    o
}

// ------------------------------------------------------------------ blocks

/// The blocks of a prompt.
pub type Blocks = Result<Seq<Seq<char>>, Seq<char>>;

/// The blocks with one more, where it holds anything.
pub open spec fn with_text(blocks: Seq<Seq<char>>, s: Seq<char>) -> Seq<Seq<char>> {
    if text::trim(Space::Js, s).len() > 0 {
        blocks.push(text::trim(Space::Js, s))
    } else {
        blocks
    }
}

/// What the template of the project is given: with a custom prompt the context files and the
/// appended text stand in the first block already.
pub open spec fn project_data(data: Entries, custom: bool) -> Entries {
    if custom {
        json::with_member(
            json::with_member(data, "contextFiles"@, JsonView::Array(Seq::empty())),
            "appendPrompt"@,
            JsonView::String(""@),
        )
    } else {
        data
    }
}

/// The text of a template.
pub open spec fn rendered(template: Seq<char>, data: Entries) -> Result<Seq<char>, Seq<char>> {
    prompt::prompt_text(prompt::prompt_engine(), template, JsonView::Object(data))
}

/// What the template of the repository below is given.
pub open spec fn repo_data(repo: Seq<char>) -> Entries {
    seq![("relativeRepoRoot"@, JsonView::String(with_slashes(repo)))]
}

/// The blocks with that on the repository below.
pub open spec fn with_repo(
    t: PromptTemplatesView,
    blocks: Seq<Seq<char>>,
    repo: Option<Seq<char>>,
) -> Blocks {
    match repo {
        None => Ok(blocks),
        Some(r) => match rendered(t.active_repo, repo_data(r)) {
            Err(e) => Err(e),
            Ok(s) => Ok(with_text(blocks, s)),
        },
    }
}

/// The blocks of a prompt: the main one, that of the project, that on the repository below.
pub open spec fn blocks_of(
    t: PromptTemplatesView,
    data: Entries,
    custom: bool,
    repo: Option<Seq<char>>,
) -> Blocks {
    match rendered(if custom { t.custom } else { t.system }, data) {
        Err(e) => Err(e),
        Ok(main) => match rendered(t.project, project_data(data, custom)) {
            Err(e) => Err(e),
            Ok(p) => with_repo(t, with_text(seq![main], p), repo),
        },
    }
}

/// The blocks by what they stand for.
pub open spec fn blocks_view(r: Result<Vec<String>, TemplateError>) -> Blocks {
    match r {
        Ok(v) => Ok(text::views(v@)),
        Err(e) => Err(e.0@),
    }
}

fn push_text(blocks: &mut Vec<String>, s: &str)
    ensures
        text::views(final(blocks)@) == with_text(text::views(old(blocks)@), s@),
{
    let t = js::trim(s);
    if to_chars(&t).len() > 0 {
        proof {
            text::lemma_views_push(blocks@, t);
        }
        blocks.push(t);
    }
}

/// The blocks of a prompt: the main one, that of the project, that on the repository below.
pub fn render_blocks(
    t: &PromptTemplates,
    data: &JsonObject,
    custom: bool,
    repo: &Option<String>,
) -> (r: Result<Vec<String>, TemplateError>)
    ensures
        blocks_view(r) == blocks_of(t@, data@, custom, text::opt_view(*repo)),
{
    let full = Json::Object(data.clone());
    let main = if custom {
        prompt::render(&t.custom, &full)
    } else {
        prompt::render(&t.system, &full)
    };
    let main = match main {
        Ok(s) => s,
        Err(e) => {
            return Err(e);
        },
    };
    let ghost m = main@;
    let mut blocks: Vec<String> = Vec::new();
    blocks.push(main);
    assert(text::views(blocks@) =~= seq![m]);
    let mut rest = data.clone();
    if custom {
        rest.insert("contextFiles".to_string(), empty_list());
        rest.insert("appendPrompt".to_string(), Json::String("".to_string()));
    }
    let project = match prompt::render(&t.project, &Json::Object(rest)) {
        Ok(s) => s,
        Err(e) => {
            return Err(e);
        },
    };
    push_text(&mut blocks, &project);
    match repo {
        None => {},
        Some(r) => {
            let given = object_1(
                "relativeRepoRoot",
                Json::String(normalize_prompt_path(r)),
            );
            match prompt::render(&t.active_repo, &given) {
                Ok(s) => push_text(&mut blocks, &s),
                Err(e) => {
                    return Err(e);
                },
            }
        },
    }
    Ok(blocks)
}

// ------------------------------------------------------------------ building

/// A prompt, and what was wrong.
#[derive(Debug, PartialEq)]
pub struct SystemPrompt {
    pub blocks: Vec<String>,
    pub warnings: Vec<String>,
}

/// What a [`SystemPrompt`] stands for.
#[verifier::ext_equal]
pub struct SystemPromptView {
    pub blocks: Seq<Seq<char>>,
    pub warnings: Seq<Seq<char>>,
}

impl View for SystemPrompt {
    type V = SystemPromptView;

    open spec fn view(&self) -> SystemPromptView {
        SystemPromptView {
            blocks: text::views(self.blocks@),
            warnings: text::views(self.warnings@),
        }
    }
}

impl Clone for SystemPrompt {
    fn clone(&self) -> (r: SystemPrompt)
        ensures
            r@ == self@,
    {
        SystemPrompt {
            blocks: clone_strings(&self.blocks),
            warnings: clone_strings(&self.warnings),
        }
    }
}

/// The usual tools.
pub open spec fn usual_tools() -> Seq<PromptToolView> {
    seq![
        PromptToolView { name: "read"@, label: Seq::empty() },
        PromptToolView { name: "bash"@, label: Seq::empty() },
        PromptToolView { name: "edit"@, label: Seq::empty() },
        PromptToolView { name: "write"@, label: Seq::empty() },
    ]
}

/// The usual tools.
pub fn default_tools() -> (r: Vec<PromptTool>)
    ensures
        text::views(r@) == usual_tools(),
{
    let mut out: Vec<PromptTool> = Vec::new();
    let empty = String::new();
    assert(empty@ =~= Seq::empty());
    out.push(PromptTool { name: "read".to_string(), label: empty.clone() });
    out.push(PromptTool { name: "bash".to_string(), label: empty.clone() });
    out.push(PromptTool { name: "edit".to_string(), label: empty.clone() });
    out.push(PromptTool { name: "write".to_string(), label: empty.clone() });
    assert(text::views(out@) =~= usual_tools());
    out
}

/// The custom prompt, where there is one.
pub open spec fn custom_of(o: SystemPromptOptionsView) -> Option<Seq<char>> {
    if capability::is_set(o.custom_prompt) {
        o.custom_prompt
    } else {
        None
    }
}

/// The context files of the roots other than the working directory.
pub open spec fn files_of_roots(
    d: DiscoveryView,
    cwd: Seq<char>,
    disabled: Seq<Seq<char>>,
    roots: Seq<Seq<char>>,
) -> Seq<ProjectContextFileView>
    decreases roots.len(),
{
    if roots.len() == 0 {
        Seq::empty()
    } else {
        let have = files_of_roots(d, cwd, disabled, roots.drop_last());
        if paths::resolved(d.fs.current, roots.last()) == cwd {
            have
        } else {
            have + project::project_files(d, roots.last(), disabled)
        }
    }
}

/// The context files of a prompt.
pub open spec fn prompt_files(d: DiscoveryView, cwd: Seq<char>, o: SystemPromptOptionsView) -> Seq<
    ProjectContextFileView,
> {
    let own = match o.context_files {
        Some(f) => f,
        None => project::project_files(d, cwd, o.disabled_extensions),
    };
    project::deduped(
        own + files_of_roots(d, cwd, o.disabled_extensions, o.additional_workspace_roots),
    )
}

/// The roots other than the working directory.
pub open spec fn other_roots(current: Seq<char>, cwd: Seq<char>, roots: Seq<Seq<char>>) -> Seq<Seq<char>>
    decreases roots.len(),
{
    if roots.len() == 0 {
        Seq::empty()
    } else {
        let have = other_roots(current, cwd, roots.drop_last());
        if paths::resolved(current, roots.last()) == cwd {
            have
        } else {
            have.push(roots.last())
        }
    }
}

/// The skills that are not hidden.
pub open spec fn shown_skills(skills: Seq<LoadedSkillView>) -> Seq<LoadedSkillView>
    decreases skills.len(),
{
    if skills.len() == 0 {
        Seq::empty()
    } else {
        let have = shown_skills(skills.drop_last());
        if skills.last().hide {
            have
        } else {
            have.push(skills.last())
        }
    }
}

/// The skills of a prompt: none where there is no tool to read them with.
pub open spec fn prompt_skills(
    d: DiscoveryView,
    cwd: Seq<char>,
    o: SystemPromptOptionsView,
    tools: Seq<PromptToolView>,
) -> Seq<LoadedSkillView> {
    let all = match o.skills {
        Some(s) => s,
        None => skills::offered_skills(d, cwd, o.skills_settings).0,
    };
    if tool_names(tools).contains("read"@) {
        shown_skills(all)
    } else {
        Seq::empty()
    }
}

/// The text of the `SYSTEM.md` that counts: none beside a custom prompt.
pub open spec fn system_text(d: DiscoveryView, cwd: Seq<char>, custom: Option<Seq<char>>) -> Option<
    Seq<char>,
> {
    match custom {
        Some(_) => None,
        None => match system_md::chosen(system_md::system_prompts(d, cwd).items) {
            Some(s) => Some(s.content),
            None => None,
        },
    }
}

/// The workspace as the templates are given it: names of context files, the picture, whether the
/// picture is cut.
pub open spec fn tree_of(tree: Option<WorkspaceTreeView>) -> (Seq<Seq<char>>, Seq<char>, bool) {
    match tree {
        Some(w) => (listed_files(w.agents_md_files), w.rendered, w.truncated),
        None => (Seq::empty(), Seq::empty(), false),
    }
}

/// A text, or the empty one.
pub open spec fn text_or_empty(s: Option<Seq<char>>) -> Seq<char> {
    match s {
        Some(t) => t,
        None => Seq::empty(),
    }
}

/// The tools that the prompt lists.
pub open spec fn tools_of(o: SystemPromptOptionsView) -> Seq<PromptToolView> {
    match o.tools {
        Some(x) => x,
        None => usual_tools(),
    }
}

/// What the templates are given.
pub open spec fn inputs_of(
    d: DiscoveryView,
    cwd: Seq<char>,
    o: SystemPromptOptionsView,
    f: HostFactsView,
    personality: Seq<char>,
) -> PromptInputsView {
    PromptInputsView {
        harness_name: o.harness_name,
        customization: deduped_source(
            system_text(d, cwd, custom_of(o)),
            custom_of(o),
            o.append_prompt,
        ),
        custom: custom_of(o),
        append: text_or_empty(o.append_prompt),
        tools: tools_of(o),
        facts: facts_of(f),
        context_files: prompt_files(d, cwd, o),
        agents_md_files: tree_of(o.workspace_tree).0,
        tree: tree_of(o.workspace_tree).1,
        tree_truncated: tree_of(o.workspace_tree).2,
        skills: prompt_skills(d, cwd, o, tools_of(o)),
        cwd,
        roots: other_roots(d.fs.current, cwd, o.additional_workspace_roots),
        model: text_or_empty(
            if o.include_model_in_prompt {
                o.model
            } else {
                None
            },
        ),
        personality,
        include_workspace_tree: o.include_workspace_tree,
        render_mermaid: o.render_mermaid,
        reactions: o.reactions,
        urls: o.urls,
    }
}

/// The repository below the working directory.
pub open spec fn repo_of(d: DiscoveryView, cwd: Seq<char>, o: SystemPromptOptionsView) -> Option<
    Seq<char>,
> {
    match o.active_repo_context {
        Some(r) => r,
        None => active_repo_at(d, cwd),
    }
}

/// Where the file is in which the user asks for a manner.
pub open spec fn personality_path(d: DiscoveryView) -> Seq<char> {
    paths::joined(d.dirs.native_user_dir, "PERSONALITY.md"@)
}

/// What was wrong with that file, where it counts.
pub open spec fn prompt_warnings(d: DiscoveryView, o: SystemPromptOptionsView, read: FileReadView) -> Seq<
    Seq<char>,
> {
    if o.personality == Personality::Plain {
        Seq::empty()
    } else {
        personality_warnings(personality_path(d), read)
    }
}

/// The system prompt for a working directory.
pub open spec fn system_prompt_of(
    d: DiscoveryView,
    cwd: Seq<char>,
    o: SystemPromptOptionsView,
    t: PromptTemplatesView,
    f: HostFactsView,
    read: FileReadView,
) -> Result<SystemPromptView, Seq<char>> {
    let here = paths::resolved(d.fs.current, cwd);
    match blocks_of(
        t,
        prompt_data(inputs_of(d, here, o, f, manner(t, o.personality, read))),
        custom_of(o) is Some,
        repo_of(d, here, o),
    ) {
        Ok(blocks) => Ok(SystemPromptView { blocks, warnings: prompt_warnings(d, o, read) }),
        Err(e) => Err(e),
    }
}

fn append_files(out: &mut Vec<ProjectContextFile>, more: &Vec<ProjectContextFile>)
    ensures
        text::views(final(out)@) == text::views(old(out)@) + text::views(more@),
{
    let ghost before = text::views(out@);
    let ghost all = text::views(more@);
    let mut i: usize = 0;
    assert(before + all.take(0) =~= before);
    while i < more.len()
        invariant
            i <= more@.len(),
            all == text::views(more@),
            text::views(out@) == before + all.take(i as int),
        decreases more@.len() - i,
    {
        let m = more[i].clone();
        proof {
            text::lemma_views_push(out@, m);
            assert(before + all.take(i as int + 1) =~= (before + all.take(i as int)).push(m@));
        }
        out.push(m);
        i += 1;
    }
    assert(all.take(i as int) =~= all);
}

fn find_files(discovery: &mut Discovery, cwd: &str, o: &SystemPromptOptions) -> (r: Vec<
    ProjectContextFile,
>)
    ensures
        final(discovery)@ == old(discovery)@,
        text::views(r@) == prompt_files(old(discovery)@, cwd@, o@),
        files::only_adds(old(discovery).fs.wanted@, final(discovery).fs.wanted@),
        files::asked_nothing(old(discovery).fs.wanted@, final(discovery).fs.wanted@) ==> forall|more: FsView| #[trigger]
            files::extends(more, old(discovery)@.fs) ==>
                prompt_files((DiscoveryView { fs: more, ..old(discovery)@ }), cwd@, o@)
                    == prompt_files(old(discovery)@, cwd@, o@),
{
    proof {
        files::lemma_extends_current(discovery@.fs);
    }
    let ghost d = discovery@;
    let ghost roots = o@.additional_workspace_roots;
    let ghost disabled = o@.disabled_extensions;
    let mut files = match &o.context_files {
        Some(f) => clone_all(f),
        None => discovery.load_project_context_files(cwd, &o.disabled_extensions),
    };
    let ghost own = text::views(files@);
    let ghost asked = discovery.fs.wanted@;
    let mut i: usize = 0;
    proof {
        assert(roots.take(0) =~= Seq::<Seq<char>>::empty());
        assert(own + Seq::<ProjectContextFileView>::empty() =~= own);
    }
    while i < o.additional_workspace_roots.len()
        invariant
            i <= o.additional_workspace_roots@.len(),
            discovery@ == d,
            d == old(discovery)@,
            roots == text::views(o.additional_workspace_roots@),
            disabled == text::views(o.disabled_extensions@),
            text::views(files@) == own + files_of_roots(d, cwd@, disabled, roots.take(i as int)),
            forall|more: FsView| #[trigger]
                files::extends(more, d.fs) ==> more.current == d.fs.current,
            files::only_adds(asked, discovery.fs.wanted@),
            files::asked_nothing(asked, discovery.fs.wanted@) ==> forall|more: FsView| #[trigger]
                files::extends(more, d.fs) ==> files_of_roots(
                    (DiscoveryView { fs: more, ..d }),
                    cwd@,
                    disabled,
                    roots.take(i as int),
                ) == files_of_roots(d, cwd@, disabled, roots.take(i as int)),
        decreases o.additional_workspace_roots@.len() - i,
    {
        proof {
            assert(roots.take(i as int + 1).drop_last() =~= roots.take(i as int));
            assert(roots.take(i as int + 1).last() == o.additional_workspace_roots@[i as int]@);
        }
        let root = &o.additional_workspace_roots[i];
        let there = resolve(&discovery.fs.current, root);
        if !same_text(&there, cwd) {
            let more = discovery.load_project_context_files(root, &o.disabled_extensions);
            let ghost have = files_of_roots(d, cwd@, disabled, roots.take(i as int));
            append_files(&mut files, &more);
            assert(own + have + text::views(more@) =~= own + (have + text::views(more@)));
        }
        i += 1;
    }
    assert(roots.take(i as int) =~= roots);
    dedupe_contained_context_files(&files)
}

fn find_other_roots(current: &str, cwd: &str, roots: &Vec<String>) -> (r: Vec<String>)
    ensures
        text::views(r@) == other_roots(current@, cwd@, text::views(roots@)),
{
    let ghost all = text::views(roots@);
    let mut out: Vec<String> = Vec::new();
    let mut i: usize = 0;
    proof {
        assert(all.take(0) =~= Seq::<Seq<char>>::empty());
        assert(text::views(out@) =~= Seq::empty());
    }
    while i < roots.len()
        invariant
            i <= roots@.len(),
            all == text::views(roots@),
            text::views(out@) == other_roots(current@, cwd@, all.take(i as int)),
        decreases roots@.len() - i,
    {
        proof {
            assert(all.take(i as int + 1).drop_last() =~= all.take(i as int));
            assert(all.take(i as int + 1).last() == roots@[i as int]@);
        }
        let there = resolve(current, &roots[i]);
        if !same_text(&there, cwd) {
            let s = roots[i].clone();
            proof {
                text::lemma_views_push(out@, s);
            }
            out.push(s);
        }
        i += 1;
    }
    assert(all.take(i as int) =~= all);
    out
}

fn find_skills(
    discovery: &mut Discovery,
    cwd: &str,
    o: &SystemPromptOptions,
    tools: &Vec<PromptTool>,
) -> (r: Vec<LoadedSkill>)
    ensures
        final(discovery)@ == old(discovery)@,
        text::views(r@) == prompt_skills(old(discovery)@, cwd@, o@, text::views(tools@)),
        files::only_adds(old(discovery).fs.wanted@, final(discovery).fs.wanted@),
        files::asked_nothing(old(discovery).fs.wanted@, final(discovery).fs.wanted@) ==> forall|more: FsView| #[trigger]
            files::extends(more, old(discovery)@.fs) ==>
                prompt_skills((DiscoveryView { fs: more, ..old(discovery)@ }), cwd@, o@, text::views(tools@))
                    == prompt_skills(old(discovery)@, cwd@, o@, text::views(tools@)),
{
    let all = match &o.skills {
        Some(s) => clone_all(s),
        None => discovery.load_skills(cwd, &o.skills_settings).0,
    };
    let ghost given = text::views(all@);
    let mut out: Vec<LoadedSkill> = Vec::new();
    let mut i: usize = 0;
    proof {
        assert(given.take(0) =~= Seq::<LoadedSkillView>::empty());
        assert(text::views(out@) =~= Seq::empty());
    }
    if !text::contains_text(&find_tool_names(tools), "read") {
        return out;
    }
    while i < all.len()
        invariant
            i <= all@.len(),
            given == text::views(all@),
            text::views(out@) == shown_skills(given.take(i as int)),
        decreases all@.len() - i,
    {
        proof {
            assert(given.take(i as int + 1).drop_last() =~= given.take(i as int));
            assert(given.take(i as int + 1).last() == all@[i as int]@);
        }
        if !all[i].hide {
            let s = all[i].clone();
            proof {
                text::lemma_views_push(out@, s);
            }
            out.push(s);
        }
        i += 1;
    }
    assert(given.take(i as int) =~= given);
    out
}

/// The custom prompt, where there is one.
fn find_custom(o: &SystemPromptOptions) -> (r: Option<String>)
    ensures
        text::opt_view(r) == custom_of(o@),
{
    match &o.custom_prompt {
        Some(s) => if to_chars(s).len() > 0 {
            Some(s.clone())
        } else {
            None
        },
        None => None,
    }
}

/// The text of the `SYSTEM.md` that counts.
fn find_system(discovery: &mut Discovery, cwd: &str, custom: &Option<String>) -> (r: Option<String>)
    ensures
        final(discovery)@ == old(discovery)@,
        text::opt_view(r) == system_text(old(discovery)@, cwd@, text::opt_view(*custom)),
        files::only_adds(old(discovery).fs.wanted@, final(discovery).fs.wanted@),
        files::asked_nothing(old(discovery).fs.wanted@, final(discovery).fs.wanted@) ==> forall|more: FsView| #[trigger]
            files::extends(more, old(discovery)@.fs) ==>
                system_text((DiscoveryView { fs: more, ..old(discovery)@ }), cwd@, text::opt_view(*custom))
                    == system_text(old(discovery)@, cwd@, text::opt_view(*custom)),
{
    if custom.is_some() {
        None
    } else {
        match discovery.load_system_prompt_file(cwd) {
            Some(f) => Some(f.content),
            None => None,
        }
    }
}

/// The workspace as the templates are given it.
fn find_tree(tree: &Option<WorkspaceTree>) -> (r: (Vec<String>, String, bool))
    ensures
        (text::views(r.0@), r.1@, r.2) == tree_of(text::opt_view(*tree)),
{
    match tree {
        Some(w) => (list_files(&w.agents_md_files), w.rendered.clone(), w.truncated),
        None => {
            let none: Vec<String> = Vec::new();
            let empty = String::new();
            assert(text::views(none@) =~= Seq::empty());
            assert(empty@ =~= Seq::empty());
            (none, empty, false)
        },
    }
}

fn or_empty(s: &Option<String>) -> (r: String)
    ensures
        r@ == text_or_empty(text::opt_view(*s)),
{
    match s {
        Some(t) => t.clone(),
        None => {
            let empty = String::new();
            assert(empty@ =~= Seq::empty());
            empty
        },
    }
}

fn gather(
    discovery: &mut Discovery,
    cwd: &str,
    options: &SystemPromptOptions,
    facts: &HostFacts,
    personality: String,
) -> (r: PromptInputs)
    ensures
        final(discovery)@ == old(discovery)@,
        r@ == inputs_of(old(discovery)@, cwd@, options@, facts@, personality@),
        files::only_adds(old(discovery).fs.wanted@, final(discovery).fs.wanted@),
        files::asked_nothing(old(discovery).fs.wanted@, final(discovery).fs.wanted@) ==> forall|more: FsView| #[trigger]
            files::extends(more, old(discovery)@.fs) ==>
                inputs_of((DiscoveryView { fs: more, ..old(discovery)@ }), cwd@, options@, facts@, personality@)
                    == inputs_of(old(discovery)@, cwd@, options@, facts@, personality@),
{
    proof {
        files::lemma_extends_current(discovery@.fs);
    }
    let custom = find_custom(options);
    let system = find_system(discovery, cwd, &custom);
    let context_files = find_files(discovery, cwd, options);
    let tools = match &options.tools {
        Some(x) => clone_all(x),
        None => default_tools(),
    };
    let skills = find_skills(discovery, cwd, options, &tools);
    let (agents_md_files, tree, tree_truncated) = find_tree(&options.workspace_tree);
    let model = if options.include_model_in_prompt {
        or_empty(&options.model)
    } else {
        or_empty(&None)
    };
    let customization = dedupe_prompt_source(&system, &custom, &options.append_prompt);
    let roots = find_other_roots(
        &discovery.fs.current,
        cwd,
        &options.additional_workspace_roots,
    );
    PromptInputs {
        harness_name: options.harness_name.clone(),
        customization,
        custom,
        append: or_empty(&options.append_prompt),
        tools,
        facts: environment_info(facts),
        context_files,
        agents_md_files,
        tree,
        tree_truncated,
        skills,
        cwd: cwd.to_string(),
        roots,
        model,
        personality,
        include_workspace_tree: options.include_workspace_tree,
        render_mermaid: options.render_mermaid,
        reactions: options.reactions,
        urls: options.urls.clone(),
    }
}

/// The system prompt for a working directory, given what came of reading the file in which the user
/// asks for a manner.
pub fn build_system_prompt(
    discovery: &mut Discovery,
    cwd: &str,
    options: &SystemPromptOptions,
    templates: &PromptTemplates,
    facts: &HostFacts,
    personality: &FileRead,
) -> (r: Result<SystemPrompt, TemplateError>)
    ensures
        final(discovery)@ == old(discovery)@,
        match r {
            Ok(p) => system_prompt_of(
                old(discovery)@,
                cwd@,
                options@,
                templates@,
                facts@,
                personality@,
            ) == Ok::<SystemPromptView, Seq<char>>(p@),
            Err(e) => system_prompt_of(
                old(discovery)@,
                cwd@,
                options@,
                templates@,
                facts@,
                personality@,
            ) == Err::<SystemPromptView, Seq<char>>(e.0@),
        },
        files::only_adds(old(discovery).fs.wanted@, final(discovery).fs.wanted@),
        files::asked_nothing(old(discovery).fs.wanted@, final(discovery).fs.wanted@) ==> forall|more: FsView| #[trigger]
            files::extends(more, old(discovery)@.fs) ==>
                system_prompt_of((DiscoveryView { fs: more, ..old(discovery)@ }), cwd@, options@, templates@, facts@, personality@)
                    == system_prompt_of(old(discovery)@, cwd@, options@, templates@, facts@, personality@),
{
    proof {
        files::lemma_extends_current(discovery@.fs);
    }
    let here = resolve(&discovery.fs.current, cwd);
    let mut warnings: Vec<String> = Vec::new();
    assert(text::views(warnings@) =~= Seq::empty());
    let path = join_path(&discovery.dirs.native_user_dir, "PERSONALITY.md");
    let manner = find_manner(templates, options.personality, &path, personality, &mut warnings);
    assert(text::views(warnings@) =~= prompt_warnings(discovery@, options@, personality@));
    let repo = match &options.active_repo_context {
        Some(r) => clone_opt_string(r),
        None => resolve_active_repo_context(discovery, &here),
    };
    let inputs = gather(discovery, &here, options, facts, manner);
    let data = build_data(&inputs);
    match render_blocks(templates, &data, inputs.custom.is_some(), &repo) {
        Ok(blocks) => Ok(SystemPrompt { blocks, warnings }),
        Err(e) => Err(e),
    }
}

// ------------------------------------------------------------------ laws

proof fn lemma_before_transitive(a: Seq<char>, b: Seq<char>, c: Seq<char>, i: int)
    requires
        stands_before(a, b, i),
        stands_before(b, c, i),
    ensures
        stands_before(a, c, i),
    decreases a.len() - i,
{
    if i < a.len() && a[i] == b[i] && b[i] == c[i] {
        lemma_before_transitive(a, b, c, i + 1);
    }
}

proof fn lemma_before_total(a: Seq<char>, b: Seq<char>, i: int)
    requires
        0 <= i <= a.len(),
        i <= b.len(),
        a.take(i) == b.take(i),
        a != b,
        !stands_before(a, b, i),
    ensures
        stands_before(b, a, i),
    decreases a.len() - i,
{
    if i < a.len() && i < b.len() {
        if a[i] == b[i] {
            assert(a.take(i + 1) =~= a.take(i).push(a[i]));
            assert(b.take(i + 1) =~= b.take(i).push(b[i]));
            lemma_before_total(a, b, i + 1);
        }
    } else if i == a.len() && i == b.len() {
        assert(a =~= a.take(i));
        assert(b =~= b.take(i));
    }
}

/// Whether every name stands before the later ones.
pub open spec fn in_order(names: Seq<Seq<char>>) -> bool {
    forall|i: int, j: int|
        0 <= i < j < names.len() ==> stands_before(#[trigger] names[i], #[trigger] names[j], 0)
}

proof fn lemma_named_in_holds(names: Seq<Seq<char>>, name: Seq<char>, x: Seq<char>)
    ensures
        named_in(names, name).contains(x) <==> names.contains(x) || x == name,
    decreases names.len(),
{
    let out = named_in(names, name);
    if names.len() == 0 {
        assert(out[0] == name);
    } else if names.last() == name {
        assert(names[names.len() - 1] == name);
    } else if stands_before(name, names.last(), 0) {
        let inner = named_in(names.drop_last(), name);
        lemma_named_in_holds(names.drop_last(), name, x);
        assert(names =~= names.drop_last().push(names.last()));
        assert(out.contains(x) <==> inner.contains(x) || x == names.last()) by {
            vstd::seq_lib::lemma_seq_contains_after_push(inner, names.last(), x);
        }
        assert(names.contains(x) <==> names.drop_last().contains(x) || x == names.last()) by {
            vstd::seq_lib::lemma_seq_contains_after_push(names.drop_last(), names.last(), x);
        }
    } else {
        vstd::seq_lib::lemma_seq_contains_after_push(names, name, x);
    }
}

proof fn lemma_named_in_order(names: Seq<Seq<char>>, name: Seq<char>)
    requires
        in_order(names),
    ensures
        in_order(named_in(names, name)),
    decreases names.len(),
{
    let out = named_in(names, name);
    if names.len() == 0 || names.last() == name {
    } else if stands_before(name, names.last(), 0) {
        let most = names.drop_last();
        let inner = named_in(most, name);
        lemma_named_in_order(most, name);
        assert forall|i: int, j: int| 0 <= i < j < out.len() implies stands_before(
            #[trigger] out[i],
            #[trigger] out[j],
            0,
        ) by {
            if j == out.len() - 1 {
                assert(inner.contains(out[i])) by {
                    assert(inner[i] == out[i]);
                }
                lemma_named_in_holds(most, name, out[i]);
                if out[i] != name {
                    let k = choose|k: int| 0 <= k < most.len() && most[k] == out[i];
                    assert(stands_before(names[k], names[names.len() - 1], 0));
                }
            } else {
                assert(stands_before(inner[i], inner[j], 0));
            }
        }
    } else {
        assert(name.take(0) =~= names.last().take(0));
        lemma_before_total(name, names.last(), 0);
        assert forall|i: int, j: int| 0 <= i < j < out.len() implies stands_before(
            #[trigger] out[i],
            #[trigger] out[j],
            0,
        ) by {
            if j == out.len() - 1 {
                if i < names.len() - 1 {
                    assert(stands_before(names[i], names[names.len() - 1], 0));
                    lemma_before_transitive(names[i], names.last(), name, 0);
                }
            } else {
                assert(stands_before(names[i], names[j], 0));
            }
        }
    }
}

/// Sorted names are in order, each stands there once, and they are the names that were given.
pub proof fn law_sorted_names_are_the_names(names: Seq<Seq<char>>, x: Seq<char>)
    ensures
        in_order(sorted_names(names)),
        sorted_names(names).contains(x) <==> names.contains(x),
    decreases names.len(),
{
    if names.len() > 0 {
        law_sorted_names_are_the_names(names.drop_last(), x);
        lemma_named_in_order(sorted_names(names.drop_last()), names.last());
        lemma_named_in_holds(sorted_names(names.drop_last()), names.last(), x);
        assert(names =~= names.drop_last().push(names.last()));
        vstd::seq_lib::lemma_seq_contains_after_push(names.drop_last(), names.last(), x);
    }
}

/// With a custom prompt, what `SYSTEM.md` files hold does not matter.
pub proof fn law_a_custom_prompt_stands_alone(
    d: DiscoveryView,
    cwd: Seq<char>,
    o: SystemPromptOptionsView,
    f: HostFactsView,
    personality: Seq<char>,
)
    requires
        custom_of(o) is Some,
    ensures
        inputs_of(d, cwd, o, f, personality).customization == Seq::<char>::empty(),
{
}

proof fn lemma_shown(skills: Seq<LoadedSkillView>, i: int)
    requires
        0 <= i < shown_skills(skills).len(),
    ensures
        !shown_skills(skills)[i].hide,
    decreases skills.len(),
{
    if skills.len() > 0 && i < shown_skills(skills.drop_last()).len() {
        lemma_shown(skills.drop_last(), i);
    }
}

/// Hidden skills are never listed, and none is listed where nothing can read them.
pub proof fn law_listed_skills_can_be_used(
    d: DiscoveryView,
    cwd: Seq<char>,
    o: SystemPromptOptionsView,
    tools: Seq<PromptToolView>,
    i: int,
)
    requires
        0 <= i < prompt_skills(d, cwd, o, tools).len(),
    ensures
        tool_names(tools).contains("read"@),
        !prompt_skills(d, cwd, o, tools)[i].hide,
{
    let all = match o.skills {
        Some(s) => s,
        None => skills::offered_skills(d, cwd, o.skills_settings).0,
    };
    lemma_shown(all, i);
}

} // verus!
