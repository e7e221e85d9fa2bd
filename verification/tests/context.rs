//! The system prompt, the skills and the reminder of the date.
use ara::capability::{HostDirs, HostEnv, Level, ProviderPolicy, SourceMeta};
use ara::files::{DirEntry, FsCache};
use ara::foreign;
use ara::project::{Discovery, ProjectContextFile};
use ara::reminder::{render_date_cwd_reminder, DateCwdReminder};
use ara::skills::{compare_skill_order, glob_matches, load_provider, load_skills_from_dir, LoadedSkill, SkillsSettings};
use ara::system_prompt::{
    build_system_prompt, cpu_model, default_tools, environment_info, kernel_identity, resolve_active_repo_context,
    resolve_prompt_input, FileRead, HostFacts, InternalUrls, Personality, PromptTemplates, PromptTool, SystemPrompt,
    SystemPromptOptions, WorkspaceTree,
};
use ara::types::{
    AssistantBlock, AssistantMessage, Context, ImageContent, Message, UserBlock, UserContent, UserMessage,
};
use std::cmp::Ordering;

/// Files that are kept in memory, and what a host would say of them.
struct Tree {
    files: Vec<(String, String)>,
    dirs: Vec<String>,
    /// Links to directories: where they are and where they lead.
    links: Vec<(String, String)>,
}

impl Tree {
    fn new() -> Tree {
        Tree { files: vec![], dirs: vec![], links: vec![] }
    }

    fn dir(&mut self, path: &str) {
        let mut p = path.to_string();
        loop {
            if !self.dirs.contains(&p) {
                self.dirs.push(p.clone());
            }
            match p.rfind('/') {
                Some(i) if i > 0 => p.truncate(i),
                _ => return,
            }
        }
    }

    fn file(&mut self, path: &str, content: &str) {
        self.files.retain(|(p, _)| p != path);
        self.files.push((path.to_string(), content.to_string()));
        self.dir(&path[..path.rfind('/').unwrap()]);
    }

    fn link(&mut self, path: &str, to: &str) {
        self.dir(&path[..path.rfind('/').unwrap()]);
        self.links.push((path.into(), to.into()));
    }

    fn skill(&mut self, dir: &str, name: &str, body: &str) {
        self.file(&format!("{dir}/{name}/SKILL.md"), body);
    }

    fn tell(&self, fs: &mut FsCache) {
        let entry = |name: &str, is_file, is_dir, is_link| DirEntry { name: name.into(), is_file, is_dir, is_link };
        for (p, content) in &self.files {
            fs.put_file(p, Some(content.clone().into_bytes()));
            fs.put_path(p, true, p, false, true);
            for (at, to) in &self.links {
                if let Some(rest) = p.strip_prefix(&format!("{to}/")) {
                    let seen = format!("{at}/{rest}");
                    fs.put_file(&seen, Some(content.clone().into_bytes()));
                    fs.put_path(&seen, true, p, false, true);
                }
            }
        }
        for d in &self.dirs {
            let prefix = format!("{d}/");
            let inside = |p: &String| p.strip_prefix(&prefix).filter(|n| !n.contains('/')).map(|n| n.to_string());
            let mut entries = vec![];
            entries.extend(self.files.iter().filter_map(|(p, _)| inside(p)).map(|n| entry(&n, true, false, false)));
            entries.extend(self.dirs.iter().filter_map(inside).map(|n| entry(&n, false, true, false)));
            entries.extend(self.links.iter().filter_map(|(p, _)| inside(p)).map(|n| entry(&n, false, false, true)));
            fs.put_dir(d, entries, None);
            fs.put_path(d, true, d, true, false);
        }
        for (at, to) in &self.links {
            fs.put_path(at, true, to, true, false);
        }
    }

    fn discovery(&self, dirs: HostDirs, policy: ProviderPolicy) -> Discovery {
        let mut d = Discovery::new("/", HOME, dirs, policy);
        self.tell(&mut d.fs);
        d
    }

    fn plain(&self) -> Discovery {
        self.discovery(HostDirs::ara(HOME), ProviderPolicy::default())
    }

    fn cache(&self) -> FsCache {
        let mut fs = FsCache::new("/");
        self.tell(&mut fs);
        fs
    }
}

const HOME: &str = "/t/home";
const ROOT: &str = "/t";

// ------------------------------------------------------------------ the system prompt

fn templates() -> PromptTemplates {
    PromptTemplates {
        system: "Role in {{harnessName}} coding harness\n{{systemPromptCustomization}}\n{{#if personality}}\n# Personality\n{{personality}}\n{{/if}}\n{{#if toolInfo}}\n# Tool Inventory\n{{#each toolInfo}}\n- {{#if label}}{{label}}: `{{name}}`{{else}}`{{name}}`{{/if}}\n{{/each}}\n{{/if}}\n{{#if skills}}\n<skills>\n{{#each skills}}\n- {{name}}: {{description}}\n{{/each}}\n</skills>\n{{/if}}\n{{#if urls.any}}\n# Internal URLs\n{{#if urls.skill}}\n- `skill://<name>`\n{{/if}}\n{{#if urls.history}}\n- history://\n{{/if}}\n{{/if}}".into(),
        project: "<workstation>\n{{#each environment}}\n{{label}}: {{value}}\n{{/each}}\n{{#if model}}\nModel: {{model}}\n{{/if}}\n</workstation>\n{{#each contextFiles}}\n<file path=\"{{path}}\">\n{{content}}\n</file>\n{{/each}}\n{{#if agentsMdSearch.files}}\n<dir-context>\n{{#each agentsMdSearch.files}}\n- {{this}}\n{{/each}}\n</dir-context>\n{{/if}}\n{{#if includeWorkspaceTree}}\n<workspace-tree>\n{{workspaceTree.rendered}}\n</workspace-tree>\n{{/if}}\n{{appendPrompt}}".into(),
        custom: "{{customPrompt}}\n{{appendPrompt}}\n{{#each contextFiles}}\n<file path=\"{{path}}\">\n{{content}}\n</file>\n{{/each}}\n{{#each skills}}\n<skill name=\"{{name}}\">\n{{description}}\n</skill>\n{{/each}}".into(),
        active_repo: "<active-repo-context>\n`{{relativeRepoRoot}}` below `{{relativeRepoRoot}}/`\n</active-repo-context>".into(),
        default_personality: "Evidence-first terse engineer\n".into(),
        friendly_personality: "Warm".into(),
        pragmatic_personality: "Dry".into(),
    }
}

fn facts() -> HostFacts {
    HostFacts {
        sysname: "Linux".into(),
        release: "6.1".into(),
        version: "#1 SMP".into(),
        os: "linux".into(),
        arch: "x86_64".into(),
        cpuinfo: Some("processor : 0\nmodel name\t: Fast CPU\nmodel name : Other\n".into()),
        term_program: None,
        term_program_version: None,
        wt_session: None,
        term: Some(" xterm ".into()),
        colorterm: None,
        terminal_emulator: None,
    }
}

fn read_tool() -> Vec<PromptTool> {
    vec![PromptTool { name: "read".into(), label: "Read".into() }]
}

fn explicit() -> SystemPromptOptions {
    SystemPromptOptions {
        context_files: Some(vec![]),
        skills: Some(vec![]),
        tools: Some(vec![]),
        active_repo_context: Some(None),
        ..SystemPromptOptions::default()
    }
}

fn skill(name: &str, description: &str, hide: bool) -> LoadedSkill {
    let path = format!("skills/{name}/SKILL.md");
    LoadedSkill {
        name: name.into(),
        description: description.into(),
        base_dir: format!("skills/{name}"),
        source: "test".into(),
        hide,
        meta: SourceMeta::new("/", "test", &path, Level::User),
        file_path: path,
    }
}

fn ctx_file(path: &str, content: &str, depth: i64) -> ProjectContextFile {
    ProjectContextFile {
        path: path.into(),
        content: content.into(),
        depth: Some(depth),
        source: SourceMeta::new("/", "test", path, Level::Project),
    }
}

fn build(t: &Tree, cwd: &str, options: &SystemPromptOptions, personality: &FileRead) -> SystemPrompt {
    build_system_prompt(&mut t.plain(), cwd, options, &templates(), &facts(), personality).unwrap()
}

fn render_text(t: &Tree, cwd: &str, options: &SystemPromptOptions) -> (Vec<String>, String) {
    let built = build(t, cwd, options, &FileRead::Missing);
    let joined = built.blocks.join("\n\n");
    (built.blocks, joined)
}

#[test]
fn date_and_cwd_stay_out_of_the_system_prompt() {
    let mut t = Tree::new();
    t.dir("/t/home/project");
    let (_, text) = render_text(&t, "/t/home/project", &explicit());
    assert!(!text.contains("/t/home/project"));
    assert!(!text.contains("Today") && !text.contains("current working directory"));
}

#[test]
fn system_md_used_as_custom_prompt_renders_once() {
    let system = "You are the project SYSTEM prompt.";
    let mut t = Tree::new();
    t.file("/t/project/.ara/SYSTEM.md", system);
    let options = SystemPromptOptions {
        custom_prompt: Some(system.into()),
        skills: Some(vec![skill("focused-work", "Focused work instructions", false)]),
        tools: Some(read_tool()),
        ..explicit()
    };
    let (_, text) = render_text(&t, "/t/project", &options);
    assert_eq!(text.matches(system).count(), 1);
    assert!(text.contains("<skill name=\"focused-work\">"));
}

#[test]
fn loaded_prompt_text_is_not_resolved_as_a_path() {
    let readme = "/t/project/README.md";
    let mut t = Tree::new();
    t.file(readme, "File content that must not replace the prompt.");
    let options = SystemPromptOptions {
        custom_prompt: Some(readme.into()),
        append_prompt: Some(readme.into()),
        tools: Some(read_tool()),
        ..explicit()
    };
    let (_, text) = render_text(&t, "/t/project", &options);
    assert!(text.contains(readme));
    assert!(!text.contains("File content that must not replace the prompt."));
    // The path-or-text resolution is a separate, explicit step.
    let mut warnings = vec![];
    let mut resolve = |input: &str, read: FileRead| {
        resolve_prompt_input(&Some(input.into()), "system prompt", &read, &mut warnings)
    };
    let read = FileRead::Bytes(b"File content that must not replace the prompt.".to_vec());
    assert_eq!(resolve(readme, read).as_deref(), Some("File content that must not replace the prompt."));
    assert_eq!(resolve("two\nlines", FileRead::Missing).as_deref(), Some("two\nlines"));
    assert_eq!(resolve("/no/such/file", FileRead::Missing).as_deref(), Some("/no/such/file"));
    assert_eq!(resolve("/denied", FileRead::Failed("denied".into())).as_deref(), Some("/denied"));
    assert_eq!(resolve("", FileRead::Missing), None);
    assert_eq!(warnings, ["Could not read system prompt file /denied: denied"]);
}

#[test]
fn custom_prompt_suppresses_discovered_system_md_but_keeps_the_footer() {
    let mut t = Tree::new();
    t.file("/t/project/.ara/SYSTEM.md", "Discovered project SYSTEM prompt");
    let append = "Extra append instructions";
    let options = SystemPromptOptions {
        custom_prompt: Some("CLI custom prompt".into()),
        append_prompt: Some(append.into()),
        tools: Some(read_tool()),
        include_workspace_tree: true,
        workspace_tree: Some(WorkspaceTree {
            rendered: ".\n  - nested/".into(),
            truncated: false,
            agents_md_files: vec!["nested/AGENTS.md".into()],
        }),
        ..explicit()
    };
    let (blocks, text) = render_text(&t, "/t/project", &options);
    assert_eq!(blocks.len(), 2);
    assert!(text.contains("CLI custom prompt"));
    assert!(text.contains("<workspace-tree>") && text.contains("<dir-context>") && text.contains("<workstation>"));
    assert_eq!(text.matches(append).count(), 1);
    assert!(!text.contains("Discovered project SYSTEM prompt"));
    let plain = SystemPromptOptions { custom_prompt: None, append_prompt: None, ..options };
    assert!(render_text(&t, "/t/project", &plain).1.contains("Discovered project SYSTEM prompt"));
}

#[test]
fn active_child_repo_context_is_rendered() {
    let mut t = Tree::new();
    t.dir("/t/parent-cwd/active-project/.git");
    let options = SystemPromptOptions { active_repo_context: None, ..explicit() };
    let (_, text) = render_text(&t, "/t/parent-cwd", &options);
    assert!(text.contains("<active-repo-context>"));
    assert!(text.contains("`active-project`") && text.contains("`active-project/`"));
    assert_eq!(resolve_active_repo_context(&mut t.plain(), "/t/parent-cwd").as_deref(), Some("active-project"));
    // Two child repos: ambiguous, no block.
    t.dir("/t/parent-cwd/other/.git");
    let (_, text) = render_text(&t, "/t/parent-cwd", &options);
    assert!(!text.contains("<active-repo-context>"));
}

#[test]
fn project_system_md_wins_over_user() {
    let mut t = Tree::new();
    t.file("/t/home/.ara/agent/SYSTEM.md", "User SYSTEM prompt");
    t.file("/t/project/.ara/SYSTEM.md", "Project SYSTEM prompt");
    assert_eq!(t.plain().load_system_prompt_file("/t/project").unwrap().content, "Project SYSTEM prompt");
}

#[test]
fn explicit_context_entries_dedupe_by_content() {
    let (far, near) = ("/t/far/AGENTS.md", format!("/t/near/{}", foreign::file_text()));
    let shared = "Shared context instructions";
    let t = Tree::new();
    let options = SystemPromptOptions {
        custom_prompt: Some("Base prompt".into()),
        context_files: Some(vec![ctx_file(far, shared, 2), ctx_file(&near, shared, 0)]),
        ..explicit()
    };
    let (_, text) = render_text(&t, ROOT, &options);
    assert_eq!(text.matches(shared).count(), 1);
    assert!(!text.contains(&format!("<file path=\"{far}\">")));
    assert!(text.contains(&format!("<file path=\"{near}\">")));

    let options = SystemPromptOptions {
        custom_prompt: Some("Base prompt".into()),
        context_files: Some(vec![
            ctx_file(far, "Root context instructions", 2),
            ctx_file(&near, "Near context instructions", 0),
        ]),
        ..explicit()
    };
    let (_, text) = render_text(&t, ROOT, &options);
    assert!(text.contains("Root context instructions") && text.contains("Near context instructions"));
}

#[test]
fn identical_discovered_context_keeps_the_closest_copy() {
    let mut t = Tree::new();
    t.file("/t/project/AGENTS.md", "Shared context instructions");
    t.file("/t/project/packages/app/AGENTS.md", "Shared context instructions");
    let files = t.plain().load_project_context_files("/t/project/packages/app", &vec![]);
    let discovered: Vec<&ProjectContextFile> = files.iter().filter(|f| f.path.starts_with("/t/project/")).collect();
    assert_eq!(discovered.len(), 1);
    assert_eq!(discovered[0].path, "/t/project/packages/app/AGENTS.md");
}

const DEFAULT_PRESET_MARKER: &str = "Evidence-first terse engineer";
const OVERRIDE: &str = "Follow ASD-STE100 Simplified Technical English for all responses.";

#[test]
fn personality_override_file() {
    let t = Tree::new();
    let render = |personality, read: FileRead| {
        let built = build(&t, ROOT, &SystemPromptOptions { personality, ..explicit() }, &read);
        (built.blocks.join("\n\n"), built.warnings)
    };
    let (preset, warnings) = render(Personality::Default, FileRead::Missing);
    assert!(preset.contains(DEFAULT_PRESET_MARKER) && warnings.is_empty());
    let (blank, warnings) = render(Personality::Default, FileRead::Bytes(b"   \n".to_vec()));
    assert!(blank.contains(DEFAULT_PRESET_MARKER));
    assert_eq!(
        warnings,
        ["PERSONALITY.md is empty; using the configured personality preset (/t/home/.ara/agent/PERSONALITY.md)"]
    );
    let (overridden, _) = render(Personality::Default, FileRead::Bytes(OVERRIDE.as_bytes().to_vec()));
    assert!(overridden.contains("# Personality") && overridden.contains(OVERRIDE));
    assert!(!overridden.contains(DEFAULT_PRESET_MARKER));
    let (none, _) = render(Personality::Plain, FileRead::Bytes(OVERRIDE.as_bytes().to_vec()));
    assert!(!none.contains("# Personality") && !none.contains(OVERRIDE));
    let (friendly, warnings) = render(Personality::Friendly, FileRead::Failed("denied".into()));
    assert!(friendly.contains("Warm"));
    assert!(warnings[0].starts_with("Failed to read PERSONALITY.md") && warnings[0].ends_with("): denied"));
}

#[test]
fn model_line_in_workstation_block() {
    let t = Tree::new();
    let with = SystemPromptOptions { model: Some("vendor/model-4".into()), ..explicit() };
    assert!(render_text(&t, ROOT, &with).1.contains("Model: vendor/model-4"));
    assert!(!render_text(&t, ROOT, &explicit()).1.contains("Model:"));
    let without = SystemPromptOptions { include_model_in_prompt: false, ..with };
    assert!(!render_text(&t, ROOT, &without).1.contains("Model:"));
}

#[test]
fn kernel_identity_fallbacks() {
    assert_eq!(kernel_identity("unknown", "Darwin", "24.6.0"), "Darwin 24.6.0");
    assert_eq!(kernel_identity("   ", "Darwin", "25.0.0"), "Darwin 25.0.0");
    assert_eq!(kernel_identity("#1 SMP PREEMPT_DYNAMIC", "Linux", "6.1"), "#1 SMP PREEMPT_DYNAMIC");
}

#[test]
fn lines_on_the_machine() {
    let lines: Vec<String> = environment_info(&facts()).iter().map(|f| format!("{}={}", f.label, f.value)).collect();
    assert_eq!(
        lines,
        ["OS=linux 6.1", "Distro=Linux", "Kernel=#1 SMP", "Arch=x64", "CPU=Fast CPU", "Terminal=xterm"]
    );
    let other = HostFacts {
        os: "macos".into(),
        arch: "aarch64".into(),
        cpuinfo: None,
        term_program: Some("T".into()),
        term_program_version: Some("2".into()),
        ..facts()
    };
    let lines: Vec<String> = environment_info(&other).iter().map(|f| format!("{}={}", f.label, f.value)).collect();
    assert_eq!(lines, ["OS=darwin 6.1", "Distro=Linux", "Kernel=#1 SMP", "Arch=arm64", "Terminal=T 2"]);
    assert_eq!(cpu_model(&Some("model name :  ".into())), None);
}

#[test]
fn compact_tool_inventory() {
    let t = Tree::new();
    let tools = vec![
        PromptTool { name: "read".into(), label: "Read".into() },
        PromptTool { name: "bash".into(), label: "Bash".into() },
    ];
    let (_, listed) = render_text(&t, ROOT, &SystemPromptOptions { tools: Some(tools), ..explicit() });
    assert!(listed.contains("- Read: `read`") && listed.contains("- Bash: `bash`"));
    assert!(!listed.contains("namespace functions"));

    let (_, fallback) = render_text(&t, ROOT, &SystemPromptOptions { tools: None, ..explicit() });
    for tool in default_tools() {
        assert!(fallback.contains(&format!("- `{}`", tool.name)), "{}", tool.name);
    }
    assert!(!fallback.contains("- `task`") && !fallback.contains("- `browser`"));

    let (_, empty) = render_text(&t, ROOT, &explicit());
    assert!(!empty.contains("# Tool Inventory") && !empty.contains("- `read`"));
}

#[test]
fn skills_listing_rules() {
    let t = Tree::new();
    let skills = |list| SystemPromptOptions { skills: Some(list), ..explicit() };
    let (_, no_tools_map) = render_text(
        &t,
        ROOT,
        &SystemPromptOptions {
            tools: None,
            ..skills(vec![skill("prompt-authoring", "Prompt authoring workflow", false)])
        },
    );
    assert!(no_tools_map.contains("- prompt-authoring: Prompt authoring workflow"));

    let bash_only = vec![PromptTool { name: "bash".into(), label: "Bash".into() }];
    let (_, no_read) = render_text(
        &t,
        ROOT,
        &SystemPromptOptions {
            tools: Some(bash_only),
            ..skills(vec![skill("search-only-skill", "Should not render without read", false)])
        },
    );
    assert!(!no_read.contains("search-only-skill"));

    let (_, hidden) = render_text(
        &t,
        ROOT,
        &SystemPromptOptions {
            tools: Some(read_tool()),
            ..skills(vec![skill("hidden-workflow", "Hidden prompt workflow", true)])
        },
    );
    assert!(!hidden.contains("hidden-workflow"));

    let (_, listed) = render_text(
        &t,
        ROOT,
        &SystemPromptOptions {
            tools: Some(read_tool()),
            ..skills(vec![skill("frontend-design", "Frontend UI workflow", false)])
        },
    );
    assert!(listed.contains("<skills>") && listed.contains("- frontend-design: Frontend UI workflow"));
}

#[test]
fn internal_urls_follow_the_host() {
    let t = Tree::new();
    let (_, none) = render_text(&t, ROOT, &explicit());
    assert!(!none.contains("# Internal URLs") && !none.contains("agent://"));
    let urls = InternalUrls { skill: true, ..SystemPromptOptions::default().urls };
    let (_, skill_only) = render_text(&t, ROOT, &SystemPromptOptions { urls, ..explicit() });
    assert!(skill_only.contains("# Internal URLs") && skill_only.contains("`skill://<name>`"));
    assert!(!skill_only.contains("history://") && !skill_only.contains("pr://"));
    assert!(skill_only.contains("in ARA coding harness"));
}

#[test]
fn listed_context_files_are_sorted_once_and_bounded() {
    let mut names: Vec<String> = (0..300).map(|i| format!("d{:03}/AGENTS.md", 299 - i)).collect();
    names.push("d000/AGENTS.md".into());
    let options = SystemPromptOptions {
        workspace_tree: Some(WorkspaceTree { rendered: String::new(), truncated: false, agents_md_files: names }),
        ..explicit()
    };
    let (_, text) = render_text(&Tree::new(), ROOT, &options);
    let listed: Vec<&str> = text.lines().filter(|l| l.ends_with("/AGENTS.md")).collect();
    assert_eq!(listed.len(), 200);
    assert_eq!((listed[0], listed[199]), ("- d000/AGENTS.md", "- d199/AGENTS.md"));
}

// ------------------------------------------------------------------ the reminder

const REMINDER: &str = "<system-reminder>\nToday is {{date}}; the working directory is {{cwd}}.\nDo not repeat this.\n</system-reminder>";

fn user(content: &str, timestamp: i64) -> Message {
    Message::User(UserMessage { content: UserContent::Text(content.into()), synthetic: None, timestamp })
}

fn assistant(text: &str) -> Message {
    let mut message = AssistantMessage::empty("test", "test", "test");
    message.content.push(AssistantBlock::text(text));
    Message::Assistant(message)
}

fn user_text(message: &Message) -> String {
    match message {
        Message::User(u) => u.content.plain_text(),
        _ => panic!("not a user message"),
    }
}

fn context(system: &[&str], messages: Vec<Message>) -> Context {
    Context { system_prompt: system.iter().map(|s| s.to_string()).collect(), messages, tools: None }
}

#[test]
fn date_cwd_reminder_injection() {
    let reminder = render_date_cwd_reminder(REMINDER, "2026-08-14", "C:/work/omp");
    assert!(reminder.starts_with("<system-reminder>") && reminder.ends_with("</system-reminder>"));
    assert!(reminder.contains("2026-08-14") && reminder.contains("C:/work/omp") && reminder.contains("Do not repeat"));

    let hi = assistant("hi");
    let mut injector = DateCwdReminder::new();
    let out = injector.transform(
        context(&["system"], vec![user("hello", 1), hi.clone()]),
        REMINDER,
        "2026-08-14",
        "/work/omp",
        9,
    );
    assert_eq!(
        user_text(&out.messages[0]),
        format!("{}\n\nhello", render_date_cwd_reminder(REMINDER, "2026-08-14", "/work/omp"))
    );
    assert_eq!(out.messages[1], hi);

    let image = Message::User(UserMessage {
        content: UserContent::Blocks(vec![UserBlock::Image(ImageContent {
            data: "img".into(),
            mime_type: "image/png".into(),
        })]),
        synthetic: None,
        timestamp: 1,
    });
    let out = DateCwdReminder::new().transform(context(&["system"], vec![image]), REMINDER, "2026-08-14", "/work/omp", 9);
    let Message::User(UserMessage { content: UserContent::Blocks(blocks), .. }) = &out.messages[0] else { panic!() };
    assert!(
        matches!(&blocks[0], UserBlock::Text(t) if t.text == render_date_cwd_reminder(REMINDER, "2026-08-14", "/work/omp"))
    );
    assert!(matches!(&blocks[1], UserBlock::Image(_)));

    let out = DateCwdReminder::new().transform(context(&[], vec![user("hi", 1)]), REMINDER, "d", "/c", 9);
    assert_eq!((out.system_prompt.len(), out.messages), (0, vec![user("hi", 1)]));
    let out = DateCwdReminder::new().transform(context(&["s"], vec![hi.clone()]), REMINDER, "d", "/c", 9);
    assert_eq!(out.messages, vec![hi]);

    let mut injector = DateCwdReminder::new();
    let first =
        injector.transform(context(&["s"], vec![user("first", 1)]), REMINDER, "2026-08-14", "/old", 9).messages;
    let replay =
        injector.transform(context(&["s"], vec![user("first", 1)]), REMINDER, "2026-08-14", "/old", 9).messages;
    assert_eq!(replay[0], first[0]);
    let second = injector
        .transform(
            context(&["s"], vec![user("first", 1), assistant("done"), user("second", 2)]),
            REMINDER,
            "2026-08-15",
            "/new",
            9,
        )
        .messages;
    assert_eq!(second[0], first[0]);
    assert_eq!(
        user_text(&second[2]),
        format!("{}\n\nsecond", render_date_cwd_reminder(REMINDER, "2026-08-15", "/new"))
    );
}

// ------------------------------------------------------------------ skills

fn all_builtins_off() -> SkillsSettings {
    SkillsSettings {
        enable_codex_user: false,
        enable_claude_user: false,
        enable_claude_project: false,
        enable_native_user: false,
        enable_native_project: false,
        enable_agents_user: false,
        enable_agents_project: false,
        ..SkillsSettings::default()
    }
}

fn base() -> Tree {
    let mut t = Tree::new();
    t.dir(HOME);
    t.dir("/t/cwd");
    t
}

#[test]
fn claude_user_skills_load_without_project_dir() {
    let (c, dir) = (foreign::id_text(), foreign::dir_text());
    let mut t = base();
    t.skill(
        &format!("{HOME}/{dir}/skills"),
        "user-only-skill",
        "---\nname: user-only-skill\ndescription: User-only skill\n---\n\n# User-only skill",
    );
    let mut policy = ProviderPolicy::default();
    policy.enabled_user_sources.push(c.clone());
    let mut d = t.discovery(HostDirs::ara(HOME), policy);
    let ctx = d.context("/t/cwd");
    assert!(d.skills.providers().iter().any(|p| p.id == c));
    let result = load_provider(&mut d.fs, &ctx, &c);
    assert!(result.items.iter().any(|s| s.name == "user-only-skill" && s.level == Level::User));
}

#[test]
fn agents_toggles_and_third_party_gate() {
    let mut t = base();
    t.skill(
        &format!("{HOME}/.agents/skills"),
        "user-agents-skill",
        "---\ndescription: Loaded from ~/.agents/skills\n---\n\n# user-agents-skill",
    );
    t.skill(
        &format!("{HOME}/.config/opencode/skills"),
        "leaked-opencode",
        "---\ndescription: Should be filtered by third-party gate\n---\n",
    );
    let partial = SkillsSettings { enable_agents_user: true, enable_agents_project: true, ..all_builtins_off() };
    let (skills, _) = t.plain().load_skills("/t/cwd", &partial);
    assert!(skills.iter().any(|s| s.name == "user-agents-skill" && s.source == "agents:user"));
    assert!(!skills.iter().any(|s| s.name == "leaked-opencode"));
    let (off, _) = t.plain().load_skills("/t/cwd", &all_builtins_off());
    assert!(!off.iter().any(|s| s.name == "user-agents-skill"));
}

#[test]
fn wsl_host_agents_skills() {
    let mut t = base();
    t.skill(
        "/t/host/.agents/skills",
        "wsl-host-skill",
        "---\ndescription: Loaded from WSL host USERPROFILE\n---\n\n# wsl-host-skill",
    );
    let env = |profile: &str, distro: Option<&str>, interop: Option<&str>| HostEnv {
        current: "/".into(),
        linux: true,
        claude_config_dir: None,
        copilot_home: None,
        copilot_custom_instructions_dirs: None,
        wsl_distro_name: distro.map(|s| s.to_string()),
        wsl_interop: interop.map(|s| s.to_string()),
        user_profile: Some(profile.into()),
    };
    let dirs = HostDirs::ara(HOME).with_env(&env("/t/host", Some("Ubuntu"), None));
    assert_eq!(dirs.extra_user_homes, ["/t/host"]);
    let converted = HostDirs::ara(HOME).with_env(&env(r"C:\Users\me", None, Some("/run/WSL/1_interop")));
    assert_eq!(converted.extra_user_homes, ["/mnt/c/Users/me"]);
    let settings = SkillsSettings { enable_agents_user: true, enable_agents_project: true, ..all_builtins_off() };
    let (skills, _) = t.discovery(dirs, ProviderPolicy::default()).load_skills("/t/cwd", &settings);
    let found = skills.iter().find(|s| s.name == "wsl-host-skill").unwrap();
    assert_eq!(found.source, "agents:user");
    assert_eq!(found.file_path, "/t/host/.agents/skills/wsl-host-skill/SKILL.md");
}

#[test]
fn frontmatter_enabled_false_and_disable_model_invocation() {
    let mut t = base();
    t.skill(
        "/t/home/custom",
        "disabled-skill",
        "---\nname: disabled-skill\ndescription: Should not be discovered.\nenabled: false\n---\n\n# Disabled Skill\n",
    );
    t.skill(
        "/t/home/custom",
        "hidden-by-spec",
        "---\nname: hidden-by-spec\ndescription: Should be hidden via Agent Skills standard field.\ndisable-model-invocation: true\n---\n\n# Hidden Skill\n",
    );
    let (skills, _) = t.plain().load_skills(
        "/t/cwd",
        &SkillsSettings { custom_directories: vec!["/t/home/custom".into()], ..all_builtins_off() },
    );
    assert!(!skills.iter().any(|s| s.name == "disabled-skill"));
    assert!(skills.iter().find(|s| s.name == "hidden-by-spec").unwrap().hide);
}

#[test]
fn tilde_custom_directories() {
    let mut t = base();
    t.skill(
        &format!("{HOME}/.pi-skills-test"),
        "tilde-skill",
        "---\nname: tilde-skill\ndescription: Skill loaded from a tilde-expanded custom directory.\n---\n\n# Tilde Skill\n",
    );
    let load = |dir: String| {
        let settings = SkillsSettings { custom_directories: vec![dir], ..all_builtins_off() };
        t.plain().load_skills("/t/cwd", &settings).0
    };
    let with_tilde = load("~/.pi-skills-test".into());
    let without = load(format!("{HOME}/.pi-skills-test"));
    assert_eq!(with_tilde.len(), without.len());
    assert!(with_tilde.iter().any(|s| s.name == "tilde-skill"));
}

#[test]
fn custom_directories_are_taken_in_order() {
    let mut t = base();
    for (dir, about) in [("first", "one"), ("second", "two")] {
        t.skill(&format!("/t/{dir}"), "calendar", &format!("---\nname: calendar\ndescription: {about}\n---\n"));
    }
    let settings =
        SkillsSettings { custom_directories: vec!["/t/first".into(), "/t/second".into()], ..all_builtins_off() };
    let (skills, warnings) = t.plain().load_skills("/t/cwd", &settings);
    assert_eq!(skills.len(), 1);
    assert!(skills[0].file_path.starts_with("/t/first/"));
    assert_eq!(skills[0].meta.provider_name, "Custom");
    assert_eq!(warnings.len(), 1);
    assert!(warnings[0].message.starts_with("name collision: \"calendar\" already loaded from "));
    assert!(t.plain().load_skills("/t/cwd", &all_builtins_off()).0.is_empty());
}

#[test]
fn skills_of_a_directory() {
    let mut t = base();
    t.skill("/t/s", "valid-skill", "---\nname: valid-skill\ndescription: A valid skill.\n---\n");
    t.skill("/t/s", "Beta", "---\ndescription: B\n---\n");
    t.skill("/t/s", "no-description", "---\nname: x\n---\n");
    t.file("/t/s/nested/child-skill/SKILL.md", "---\ndescription: too deep\n---\n");
    let (skills, warnings) = load_skills_from_dir(&mut t.cache(), "/t/s", "test");
    assert_eq!(skills.iter().map(|s| s.name.as_str()).collect::<Vec<_>>(), ["Beta", "valid-skill"]);
    assert_eq!((skills[1].description.as_str(), skills[1].source.as_str()), ("A valid skill.", "test"));
    assert!(warnings.is_empty());
    assert!(load_skills_from_dir(&mut t.cache(), "/non/existent/path", "test").0.is_empty());
    assert!(load_skills_from_dir(&mut t.cache(), "/t/s/valid-skill", "test").0.is_empty());
    // Globs choose among them.
    let with = |keep: &[&str], drop: &[&str]| {
        let settings = SkillsSettings {
            custom_directories: vec!["/t/s".into()],
            include_skills: keep.iter().map(|s| s.to_string()).collect(),
            ignored_skills: drop.iter().map(|s| s.to_string()).collect(),
            ..all_builtins_off()
        };
        t.plain().load_skills("/t/cwd", &settings).0.into_iter().map(|s| s.name).collect::<Vec<_>>()
    };
    assert_eq!(with(&["valid-*"], &[]), ["valid-skill"]);
    assert_eq!(with(&[], &["valid-skill"]), ["Beta"]);
    assert!(with(&["valid-*"], &["valid-skill"]).is_empty());
    assert_eq!(with(&[], &[]).len(), 2);
}

#[test]
fn globs_match_names() {
    assert!(glob_matches(&vec!["a*".into()], "abc"));
    assert!(glob_matches(&vec!["x".into(), "?b".into()], "ab"));
    assert!(!glob_matches(&vec!["a*".into()], "bc"));
    assert!(!glob_matches(&vec!["[".into()], "["));
    // A name is matched as it stands, whatever it would be as a path.
    assert!(glob_matches(&vec!["*.".into()], ".."));
    assert!(glob_matches(&vec!["?.".into()], ".."));
    assert!(glob_matches(&vec!["*.".into()], "a/.."));
    // A glob that is too large matches nothing.
    assert!(!glob_matches(&vec!["{a,b}".repeat(200_000)], "a"));
    assert!(!glob_matches(&vec![format!("{}a{}", "{".repeat(400), "}".repeat(400))], "a"));
}

#[test]
fn loader_precedence_symlinks_and_custom_override() {
    let mut t = base();
    let (repo, cwd, own) = ("/t/home/repo", "/t/home/repo/app", foreign::dir_text());
    t.dir(&format!("{repo}/.git"));
    t.dir(cwd);
    // Same name from native (priority 100, disabled below) and .agents (70).
    t.skill(&format!("{repo}/.ara/skills"), "shared", "---\ndescription: native copy\n---\n");
    t.skill(&format!("{repo}/.agents/skills"), "shared", "---\ndescription: agents copy\n---\n");
    // A symlinked duplicate of another skill directory.
    t.skill(&format!("{repo}/.agents/skills"), "real", "---\ndescription: real one\n---\n");
    t.link(&format!("{repo}/{own}/skills/alias"), &format!("{repo}/.agents/skills/real"));
    let settings = SkillsSettings { enable_native_project: false, ..SkillsSettings::default() };
    let (skills, _) = t.plain().load_skills(cwd, &settings);
    let shared = skills.iter().find(|s| s.name == "shared").unwrap();
    assert_eq!((shared.source.as_str(), shared.description.as_str()), ("agents:project", "agents copy"));
    // `alias` (priority 80) and `real` (agents) are the same file: one survives.
    assert_eq!(skills.iter().filter(|s| s.description == "real one").count(), 1);

    // A custom directory replaces a default-provider skill of the same name.
    t.skill("/t/home/custom", "shared", "---\ndescription: custom copy\n---\n");
    let settings = SkillsSettings { custom_directories: vec!["/t/home/custom".into()], ..settings };
    let (skills, _) = t.plain().load_skills(cwd, &settings);
    let shared = skills.iter().find(|s| s.name == "shared").unwrap();
    assert_eq!((shared.source.as_str(), shared.description.as_str()), ("custom:user", "custom copy"));
}

#[test]
fn skills_are_ordered_by_name_and_path() {
    assert_eq!(compare_skill_order("B", "/1", "a", "/2"), Ordering::Greater);
    assert_eq!(compare_skill_order("A", "/2", "a", "/1"), Ordering::Less);
    assert_eq!(compare_skill_order("a", "/1", "a", "/2"), Ordering::Less);
    assert_eq!(compare_skill_order("a", "/1", "a", "/1"), Ordering::Equal);
}
