//! Finding context files, prompt files and imports in a tree of files.
use ara::at_imports::{
    is_inside_inline_code, split_markdown_segments, strip_trailing_punct, Expander, ImportRule, Segment,
    MAX_AT_IMPORT_DEPTH,
};
use ara::capability::{
    found, merge_outcomes, windows_path_to_wsl_mount, Capability, HostDirs, HostEnv, Level, LoadContext, LoadOptions,
    Provider, ProviderPolicy, SkillToggles, SourceMeta, Sourced,
};
use ara::config_files::ConfigLevel;
use ara::context_files::{context_file_capability, load_standalone_context_files, ContextFile};
use ara::files::{DirEntry, FsCache, Wanted};
use ara::foreign;
use ara::paths::{
    ancestors_until, calculate_depth, file_name, is_same_place, is_within, parent, resolve, same_path,
};
use ara::project::{dedupe_contained_context_files, Discovery, ProjectContextFile};

/// Files that are kept in memory, and what a host would say of them.
struct Tree {
    files: Vec<(String, Vec<u8>)>,
    dirs: Vec<String>,
}

impl Tree {
    fn new() -> Tree {
        Tree { files: vec![], dirs: vec![] }
    }

    fn dir(&mut self, path: &str) {
        let mut p = path.to_string();
        loop {
            if !self.dirs.contains(&p) {
                self.dirs.push(p.clone());
            }
            match p.rfind('/') {
                Some(i) if i > 0 => p.truncate(i),
                _ => return,
            }
        }
    }

    fn bytes(&mut self, path: &str, content: &[u8]) {
        self.files.retain(|(p, _)| p != path);
        self.files.push((path.to_string(), content.to_vec()));
        self.dir(&path[..path.rfind('/').unwrap()]);
    }

    fn file(&mut self, path: &str, content: &str) {
        self.bytes(path, content.as_bytes());
    }

    fn tell(&self, fs: &mut FsCache) {
        for (p, b) in &self.files {
            fs.put_file(p, Some(b.clone()));
            fs.put_path(p, true, p, false, true);
        }
        for d in &self.dirs {
            let prefix = format!("{d}/");
            let mut entries = vec![];
            for (p, _) in &self.files {
                if let Some(name) = p.strip_prefix(&prefix).filter(|n| !n.contains('/')) {
                    entries.push(DirEntry { name: name.into(), is_file: true, is_dir: false, is_link: false });
                }
            }
            for p in &self.dirs {
                if let Some(name) = p.strip_prefix(&prefix).filter(|n| !n.contains('/')) {
                    entries.push(DirEntry { name: name.into(), is_file: false, is_dir: true, is_link: false });
                }
            }
            fs.put_dir(d, entries, None);
            fs.put_path(d, true, d, true, false);
        }
    }

    fn cache(&self) -> FsCache {
        let mut fs = FsCache::new("/");
        self.tell(&mut fs);
        fs
    }

    fn discovery(&self, home: &str, dirs: HostDirs, policy: ProviderPolicy) -> Discovery {
        let mut d = Discovery::new("/", home, dirs, policy);
        self.tell(&mut d.fs);
        d
    }

    fn plain(&self, home: &str) -> Discovery {
        self.discovery(home, HostDirs::ara(home), ProviderPolicy::default())
    }
}

fn no_env() -> HostEnv {
    HostEnv {
        current: "/".into(),
        linux: true,
        claude_config_dir: None,
        copilot_home: None,
        copilot_custom_instructions_dirs: None,
        wsl_distro_name: None,
        wsl_interop: None,
        user_profile: None,
    }
}

const HOME: &str = "/t/home";
const REPO: &str = "/t/home/code/mono";
const CWD: &str = "/t/home/code/mono/packages/app";

fn tree() -> Tree {
    let mut t = Tree::new();
    t.dir(&format!("{REPO}/.git"));
    t.dir(CWD);
    t
}

// ------------------------------------------------------------------ paths and segments

/// Only what lies in a directory may be brought in.
struct Below(&'static str);

impl ImportRule for Below {
    fn allows(&self, path: &str) -> bool {
        std::path::Path::new(path).starts_with(self.0)
    }
}

#[test]
fn resolve_and_depth() {
    assert_eq!(resolve("/", "/a/./b/../c/"), "/a/c");
    assert_eq!(resolve("/", "/.."), "/");
    assert_eq!(calculate_depth("/r/a/b", "/r"), 2);
    assert_eq!(calculate_depth("/r", "/r/.gemini"), -1);
    assert!(is_within("/", "/h", "/h/x") && !is_within("/", "/h", "/hx"));
}

#[test]
fn depth_counts_levels() {
    assert_eq!(calculate_depth("/a/b/c/d/e", "/a/b"), 3);
    assert_eq!(calculate_depth("/a/b", "/a/b/c/d/e"), -3);
    assert_eq!(calculate_depth("/a/b", "/a/b"), 0);
    // The one separator of the root counts like a component.
    assert_eq!(calculate_depth("/a", "/"), 0);
}

#[test]
fn a_home_with_a_separator_at_its_end_is_the_same_home() {
    for home in [HOME.to_string(), format!("{HOME}/"), HOME.replacen('/', "//", 1), format!("{HOME}/.")] {
        let mut t = Tree::new();
        t.file(&format!("{HOME}/.agents/AGENTS.md"), "user");
        t.file(&format!("{HOME}/w/.agents/AGENTS.md"), "project");
        t.file("/.agents/AGENTS.md", "beyond");
        let mut d = t.plain(&home);
        let found = d.load_context_files(&format!("{HOME}/w"), &LoadOptions::default());
        let told: Vec<(Level, &str)> = found.items.iter().map(|f| (f.level, f.content.as_str())).collect();
        assert_eq!(told, [(Level::Project, "project"), (Level::User, "user")], "{home}");
    }
}

#[test]
fn parents_and_names_go_by_components() {
    let parent_of = |p: &str| parent(p);
    assert_eq!(parent_of("/a/b/"), Some("/a".to_string()));
    assert_eq!(parent_of("/a//b"), Some("/a".to_string()));
    assert_eq!(parent_of("/a/./b/."), Some("/a".to_string()));
    assert_eq!(parent_of("//a"), Some("/".to_string()));
    assert_eq!(parent_of("./a"), Some(".".to_string()));
    assert_eq!(parent_of("."), Some(String::new()));
    assert_eq!(parent_of("a"), Some(String::new()));
    assert_eq!(parent_of("///"), None);
    assert_eq!(parent_of(""), None);
    for p in ["/a/b/", "/a//b", "/a/./b/.", "//a", "./a", ".", "a", "..", "a/..", "///", "", "/", "./.", "a/b.", ".a"] {
        let path = std::path::Path::new(p);
        assert_eq!(parent(p).map(std::path::PathBuf::from), path.parent().map(|q| q.to_path_buf()), "{p}");
        assert_eq!(file_name(p), path.file_name().map_or("", |n| n.to_str().unwrap()), "{p}");
        for q in ["/a", "/a/", "a", "./a", "a/.", "..", "/a/b", "", ".", "//a/./b"] {
            assert_eq!(is_same_place(p, q), path == std::path::Path::new(q), "{p} {q}");
        }
    }
    assert_eq!(ancestors_until("/h/a", "/h/"), ["/h/a", "/h"]);
}

#[test]
fn paths_are_compared_resolved() {
    assert!(same_path("/w", "a/../b", "/w/./b/"));
    assert!(!same_path("/w", "a", "/a"));
}

#[test]
fn segments_and_inline_code() {
    let segs = split_markdown_segments("a\n```\nb\n```\nc");
    let want = [(false, "a\n"), (true, "```\nb\n```\n"), (false, "c")];
    assert_eq!(segs, want.map(|(is_code, text)| Segment { is_code, text: text.into() }));
    assert!(is_inside_inline_code("x `@a` y", 3));
    assert!(!is_inside_inline_code("x `a` @b", 6));
    assert_eq!(strip_trailing_punct("./guide.md,"), "./guide.md");
}

// ------------------------------------------------------------------ items

#[test]
fn keys_and_validation() {
    let file = |level, depth| ContextFile::new("/", "t", "/r/AGENTS.md".into(), "x".into(), level, depth);
    assert_eq!(file(Level::User, Some(3)).key().unwrap(), "user");
    assert_eq!(file(Level::Project, Some(-1)).key().unwrap(), "project:0");
    assert_eq!(file(Level::Project, None).key(), file(Level::Project, Some(0)).key());
    assert_ne!(file(Level::Project, Some(1)).key(), file(Level::Project, Some(2)).key());
    let mut empty = file(Level::Project, Some(0));
    empty.path = String::new();
    assert_eq!(empty.validate().as_deref(), Some("Missing path"));
    assert_eq!(file(Level::Project, Some(0)).validate(), None);
    assert_eq!(file(Level::User, None).to_extension_id().unwrap(), "context-file:user:AGENTS.md");
    let order: Vec<String> = context_file_capability("ARA").providers().iter().map(|p| p.id.clone()).collect();
    let (own, standalone) = (foreign::id_text(), foreign::file_id_text());
    assert_eq!(
        order,
        ["native", own.as_str(), "agents", "codex", "gemini", "opencode", "github", "agents-md", standalone.as_str()]
    );
}

#[test]
fn foreign_names() {
    assert_eq!(foreign::id_text().len(), 6);
    assert_eq!(foreign::dir_text(), format!(".{}", foreign::id_text()));
    assert_eq!(foreign::file_text(), format!("{}.md", foreign::id_text().to_uppercase()));
    assert!(foreign::CONFIG_VARIABLE.starts_with(&foreign::capitals_text()));
    assert!(foreign::title_text().ends_with("laude Code"));
}

#[test]
fn invalid_items_are_reported_last_first() {
    let mut kind = Capability::new("t", "T", "t");
    kind.register(Provider { id: "p".into(), display_name: "P".into(), description: String::new(), priority: 1 });
    let item = |name: &str, level, depth| {
        ContextFile::new("/", "p", format!("/{name}"), "x".into(), level, Some(depth))
    };
    let outcome =
        found(vec![item("a", Level::Native, 1), item("b", Level::User, 2), item("c", Level::Native, 3)], vec![]);
    let result = merge_outcomes(kind.providers(), vec![outcome], &LoadOptions::default());
    assert_eq!(result.items.len(), 1);
    assert_eq!(
        result.warnings,
        [
            "[P] Invalid item at /c: Invalid level: must be 'user' or 'project'",
            "[P] Invalid item at /a: Invalid level: must be 'user' or 'project'"
        ]
    );
    assert_eq!(result.items[0].source.provider_name, "P");
}

// ------------------------------------------------------------------ the environment

#[test]
fn with_env_reads_foreign_overrides_and_wsl_home() {
    let c = foreign::id_text();
    let env = HostEnv {
        claude_config_dir: Some(format!("  /cfg/{c}/../{c}2  ")),
        copilot_home: Some("/cop".into()),
        copilot_custom_instructions_dirs: Some(" /a, ,/b ".into()),
        wsl_distro_name: Some("Ubuntu".into()),
        user_profile: Some(r"C:\Users\Me".into()),
        ..no_env()
    };
    let dirs = HostDirs::ara("/h").with_env(&env);
    assert_eq!(dirs.claude_config_dir, Some(format!("/cfg/{c}2")));
    assert_eq!(dirs.copilot_home.as_deref(), Some("/cop"));
    assert_eq!(dirs.copilot_custom_instruction_dirs, ["/a", "/b"]);
    assert_eq!(dirs.extra_user_homes, ["/mnt/c/Users/Me"]);
}

#[test]
fn absolute_wsl_profile_is_normalized() {
    let env = HostEnv {
        wsl_distro_name: Some("U".into()),
        user_profile: Some("/mnt/c/Users/me/../x/".into()),
        ..no_env()
    };
    let dirs = HostDirs::ara("/h").with_env(&env);
    assert_eq!(dirs.extra_user_homes, ["/mnt/c/Users/x"]);
}

#[test]
fn a_profile_is_mounted_on_linux_only() {
    let env = HostEnv {
        linux: false,
        wsl_distro_name: Some("U".into()),
        wsl_interop: Some("/run/x".into()),
        user_profile: Some(r"C:\Users\Me".into()),
        ..no_env()
    };
    assert!(HostDirs::ara("/h").with_env(&env).extra_user_homes.is_empty());
    let env = HostEnv { linux: true, ..env };
    assert_eq!(HostDirs::ara("/h").with_env(&env).extra_user_homes, ["/mnt/c/Users/Me"]);
}

#[test]
fn windows_paths_are_mounted() {
    assert_eq!(windows_path_to_wsl_mount(r"D:\a\b").as_deref(), Some("/mnt/d/a/b"));
    assert_eq!(windows_path_to_wsl_mount(r"Users\me"), None);
}

// ------------------------------------------------------------------ context files of a project

#[test]
fn monorepo_context_is_ordered_expanded_deduplicated_and_sourced() {
    let mut t = tree();
    t.file(&format!("{HOME}/.ara/agent/AGENTS.md"), "User rule: be terse.");
    t.file(&format!("{REPO}/AGENTS.md"), "Repo rule one.\n\nRepo rule two.");
    t.file(&format!("{REPO}/docs/style.md"), "Style: tabs.");
    t.file(&format!("{REPO}/packages/AGENTS.md"), "Packages rule.\n\nSee @../docs/style.md");
    // The cwd file imports the repo file, so the repo file is contained and dropped.
    let own = format!("{CWD}/{}", foreign::file_text());
    t.file(&own, "@../../AGENTS.md\n\nApp rule.");
    t.file(&format!("{HOME}/AGENTS.md"), "home file must not load inside a nested repo");
    let files = t.plain(HOME).load_project_context_files(CWD, &vec![]);
    let summary: Vec<(String, Option<i64>, String)> =
        files.iter().map(|f| (f.path.clone(), f.depth, f.source.provider.clone())).collect();
    assert_eq!(
        summary,
        [
            (format!("{HOME}/.ara/agent/AGENTS.md"), None, "native".into()),
            (format!("{REPO}/packages/AGENTS.md"), Some(1), "agents-md".into()),
            (own, Some(0), foreign::file_id_text()),
        ]
    );
    assert_eq!(files[1].content, "Packages rule.\n\nSee Style: tabs.");
    assert_eq!(files[2].content, "Repo rule one.\n\nRepo rule two.\n\nApp rule.");
    assert_eq!(files[0].source.level, Level::User);
    assert_eq!(files[2].source.provider_name, foreign::file_text());
}

#[test]
fn foreign_user_config_is_opt_in_but_agents_dirs_are_not() {
    let (c, dir, md) = (foreign::id_text(), foreign::dir_text(), foreign::file_text());
    let mut t = tree();
    t.file(&format!("{HOME}/{dir}/{md}"), "own user");
    t.file(&format!("{HOME}/.codex/AGENTS.md"), "codex user");
    t.file(&format!("{HOME}/.agents/AGENTS.md"), "agents user");
    let user_files = |d: &mut Discovery| -> Vec<String> {
        let result = d.load_context_files(CWD, &LoadOptions::default());
        result.all.iter().filter(|(f, _)| f.level == Level::User).map(|(f, _)| f.content.clone()).collect()
    };
    assert_eq!(user_files(&mut t.plain(HOME)), ["agents user"]);

    let mut policy = ProviderPolicy::default();
    policy.enabled_user_sources.push(c.clone());
    let mut opted_in = t.discovery(HOME, HostDirs::ara(HOME), policy);
    assert_eq!(user_files(&mut opted_in), ["own user", "agents user"]);
    // One user-level file survives: the highest-priority provider's.
    let items = opted_in.load_context_files(CWD, &LoadOptions::default()).items;
    assert_eq!(items.iter().filter(|f| f.level == Level::User).count(), 1);
    assert_eq!(items.iter().find(|f| f.level == Level::User).unwrap().content, "own user");

    let mut dirs = HostDirs::ara(HOME);
    dirs.claude_config_dir = Some(format!("{HOME}/alt"));
    t.file(&format!("{HOME}/alt/{md}"), "relocated");
    let mut relocated = t.discovery(HOME, dirs, ProviderPolicy::default());
    assert_eq!(user_files(&mut relocated), ["relocated", "agents user"]);

    let mut policy = ProviderPolicy::default();
    policy.enabled_user_sources.push("*".into());
    policy.disabled.push(c);
    let mut all_but_one = t.discovery(HOME, HostDirs::ara(HOME), policy);
    assert_eq!(user_files(&mut all_but_one), ["agents user", "codex user"]);
}

#[test]
fn native_project_dir_is_the_nearest_non_empty_one_up_to_the_repo_root() {
    let mut t = tree();
    t.file(&format!("{REPO}/.ara/AGENTS.md"), "repo native");
    t.dir(&format!("{REPO}/packages/.ara")); // empty: skipped
    let items = t.plain(HOME).load_context_files(CWD, &LoadOptions::default()).items;
    let native: Vec<&ContextFile> = items.iter().filter(|f| f.source.provider == "native").collect();
    assert_eq!(native.len(), 1);
    assert_eq!((native[0].path.clone(), native[0].depth), (format!("{REPO}/.ara/AGENTS.md"), Some(2)));
    assert_eq!(native[0].source.provider_name, "ARA");
}

#[test]
fn cache_serves_repeat_reads_until_invalidated() {
    let file = format!("{CWD}/AGENTS.md");
    let mut t = tree();
    t.file(&file, "v1");
    let mut d = t.plain(HOME);
    let content = |d: &mut Discovery| d.load_project_context_files(CWD, &vec![]).last().map(|f| f.content.clone());
    assert_eq!(content(&mut d).as_deref(), Some("v1"));
    d.fs.put_file(&file, Some(b"v2".to_vec()));
    assert_eq!(content(&mut d).as_deref(), Some("v1"));
    d.fs.invalidate(&file);
    d.fs.put_file(&file, Some(b"v2".to_vec()));
    assert_eq!(content(&mut d).as_deref(), Some("v2"));
}

#[test]
fn what_is_not_known_is_asked_for() {
    let mut fs = FsCache::new("/w");
    assert_eq!(fs.read_file("a.md"), None);
    assert!(!fs.is_there("/x"));
    assert_eq!(fs.take_wanted().len(), 2);
    assert!(fs.take_wanted().is_empty());
    fs.put_file("/w/a.md", Some(b"text".to_vec()));
    assert_eq!(fs.read_file("a.md").as_deref(), Some("text"));
    fs.clear();
    assert_eq!(fs.read_file("a.md"), None);
}

#[test]
fn telling_asks_for_nothing() {
    let mut fs = FsCache::new("/w");
    assert!(fs.wanted.is_empty());
    assert_eq!(fs.read_file("a.md"), None);
    assert_eq!(fs.wanted, [Wanted::File("/w/a.md".into())]);
    fs.put_file("/w/b.md", Some(b"b".to_vec()));
    fs.put_dir("/w", vec![], None);
    fs.put_path("/w/b.md", true, "/w/b.md", false, true);
    fs.invalidate("/w/b.md");
    fs.clear();
    assert_eq!(fs.wanted, [Wanted::File("/w/a.md".into())]);
}

#[test]
fn an_answer_stays_once_nothing_is_asked_for() {
    let mut t = tree();
    t.file(&format!("{CWD}/AGENTS.md"), "see @more.md");
    t.file(&format!("{CWD}/more.md"), "more");
    let mut d = Discovery::new("/", HOME, HostDirs::ara(HOME), ProviderPolicy::default());
    let mut rounds = 0;
    let first = loop {
        let found = d.load_project_context_files(CWD, &vec![]);
        let asked = d.fs.take_wanted();
        if asked.is_empty() {
            break found;
        }
        rounds += 1;
        assert!(rounds < 50);
        for w in asked {
            match w {
                Wanted::File(p) => {
                    let bytes = t.files.iter().find(|(q, _)| *q == p).map(|(_, b)| b.clone());
                    d.fs.put_file(&p, bytes);
                }
                Wanted::Dir(p) => d.fs.put_dir(&p, vec![], None),
                Wanted::Path(p) => {
                    let (file, dir) = (t.files.iter().any(|(q, _)| *q == p), t.dirs.contains(&p));
                    d.fs.put_path(&p, file || dir, &p, dir, file);
                }
            }
        }
    };
    assert!(rounds > 0);
    assert_eq!(first.len(), 1);
    d.fs.put_file("/elsewhere", Some(b"new".to_vec()));
    let again = d.load_project_context_files(CWD, &vec![]);
    assert_eq!(again[0].content, first[0].content);
    assert!(d.fs.wanted.is_empty());
}

#[test]
fn bom_and_invalid_utf8_decode_like_bun() {
    let mut t = tree();
    t.bytes(&format!("{CWD}/AGENTS.md"), b"\xEF\xBB\xBFrule \xFF end");
    let files = t.plain(HOME).load_project_context_files(CWD, &vec![]);
    assert_eq!(files.last().unwrap().content, "rule \u{FFFD} end");
}

#[test]
fn host_limits_on_reads_and_imports() {
    let mut t = tree();
    t.file(&format!("{CWD}/big.md"), &"x".repeat(64));
    t.file(&format!("{HOME}/secret.md"), "SECRET");
    t.file(&format!("{CWD}/AGENTS.md"), "See @big.md and @~/secret.md");
    let last = |d: &mut Discovery| d.load_project_context_files(CWD, &vec![]).last().unwrap().content.clone();
    assert_eq!(last(&mut t.plain(HOME)), format!("See {} and SECRET", "x".repeat(64)));

    let mut capped = FsCache::with_max_file_bytes("/", 32);
    t.tell(&mut capped);
    assert_eq!(capped.read_file(&format!("{CWD}/big.md")), None);
    assert!(capped.read_file(&format!("{CWD}/AGENTS.md")).is_some());

    let mut limited = t.plain(HOME);
    limited.import_policy = Some(Box::new(Below(REPO)));
    assert_eq!(last(&mut limited), format!("See {} and @~/secret.md", "x".repeat(64)));
}

#[test]
fn imports_of_special_targets_keep_their_token() {
    let mut t = tree();
    t.file(&format!("{CWD}/AGENTS.md"), "a @pipe.md b @./ c @loop-a d");
    let mut d = t.plain(HOME);
    d.fs.put_file(&format!("{CWD}/pipe.md"), None);
    d.fs.put_file(&format!("{CWD}/loop-a"), None);
    assert_eq!(d.load_project_context_files(CWD, &vec![]).last().unwrap().content, "a @pipe.md b @./ c @loop-a d");
}

#[test]
fn prompt_files_follow_config_dir_priority() {
    let (home, cwd) = ("/t/home", "/t/repo/app");
    let find = |t: &Tree, policy: &ProviderPolicy, name: &str| {
        t.discovery(home, HostDirs::ara(home), policy.clone()).discover_prompt_file(cwd, name)
    };
    let plain = ProviderPolicy::default();
    let mut t = Tree::new();
    t.dir(cwd);
    assert_eq!(find(&t, &plain, "SYSTEM.md"), None);

    // Foreign user dirs are opt-in; the native user dir always counts.
    t.file("/t/home/.codex/SYSTEM.md", "x");
    assert_eq!(find(&t, &plain, "SYSTEM.md"), None);
    let mut with_codex = ProviderPolicy::default();
    with_codex.enabled_user_sources.push("codex".into());
    assert_eq!(find(&t, &with_codex, "SYSTEM.md").as_deref(), Some("/t/home/.codex/SYSTEM.md"));
    t.file("/t/home/.ara/agent/SYSTEM.md", "x");
    assert_eq!(find(&t, &with_codex, "SYSTEM.md").as_deref(), Some("/t/home/.ara/agent/SYSTEM.md"));

    // A parent's project dir does not count; the cwd's does, before the user's.
    t.file("/t/repo/.ara/SYSTEM.md", "x");
    assert_eq!(find(&t, &plain, "SYSTEM.md").as_deref(), Some("/t/home/.ara/agent/SYSTEM.md"));
    t.file("/t/repo/app/.gemini/SYSTEM.md", "x");
    assert_eq!(find(&t, &plain, "SYSTEM.md").as_deref(), Some("/t/repo/app/.gemini/SYSTEM.md"));
    let own = format!("{cwd}/{}/SYSTEM.md", foreign::dir_text());
    t.file(&own, "x");
    assert_eq!(find(&t, &plain, "SYSTEM.md"), Some(own));
    t.file("/t/repo/app/.ara/SYSTEM.md", "x");
    assert_eq!(find(&t, &plain, "SYSTEM.md").as_deref(), Some("/t/repo/app/.ara/SYSTEM.md"));
    assert_eq!(
        t.plain(home).find_config_file(cwd, "SYSTEM.md", ConfigLevel::User).as_deref(),
        Some("/t/home/.ara/agent/SYSTEM.md")
    );
    // A directory of that name counts too.
    t.dir("/t/repo/app/.ara/APPEND_SYSTEM.md");
    assert_eq!(find(&t, &plain, "APPEND_SYSTEM.md").as_deref(), Some("/t/repo/app/.ara/APPEND_SYSTEM.md"));
}

// ------------------------------------------------------------------ standalone files

fn standalone(t: &Tree, cwd: &str, home: &str, repo_root: Option<&str>, name: &str) -> Vec<String> {
    let ctx = LoadContext {
        cwd: cwd.into(),
        home: home.into(),
        repo_root: repo_root.map(|r| r.to_string()),
        explicit_providers: None,
        include_opt_out_user_sources: false,
        dirs: HostDirs::ara(home),
        policy: ProviderPolicy::default(),
        skill_toggles: SkillToggles::default(),
    };
    load_standalone_context_files(&mut t.cache(), &ctx, "test", name).into_iter().map(|f| f.path).collect()
}

fn names() -> [String; 2] {
    ["AGENTS.md".to_string(), foreign::file_text()]
}

#[test]
fn workspace_file_above_nested_repo_without_home_context() {
    for name in names() {
        let mut t = Tree::new();
        let (repo, workspace) = ("/t/home/repos/writer/internal/service", "/t/home/repos/writer");
        t.dir(&format!("{repo}/src"));
        t.file(&format!("{repo}/{name}"), "repo context");
        t.file(&format!("{workspace}/{name}"), "workspace context");
        t.file(&format!("/t/home/{name}"), "home context");
        assert_eq!(
            standalone(&t, &format!("{repo}/src"), "/t/home", Some(repo), &name),
            [format!("{repo}/{name}"), format!("{workspace}/{name}")]
        );
    }
}

#[test]
fn cwd_and_intermediate_context_without_repo_under_home() {
    for name in names() {
        let mut t = Tree::new();
        let (cwd, intermediate) = ("/t/home/workspace/packages/service", "/t/home/workspace/packages");
        t.file(&format!("{cwd}/{name}"), "cwd context");
        t.file(&format!("{intermediate}/{name}"), "intermediate context");
        t.file(&format!("/t/home/{name}"), "home context");
        assert_eq!(
            standalone(&t, cwd, "/t/home", None, &name),
            [format!("{cwd}/{name}"), format!("{intermediate}/{name}"), format!("/t/home/{name}")]
        );
    }
}

#[test]
fn home_context_when_repo_root_is_above_home() {
    for name in names() {
        let mut t = Tree::new();
        let (repo, home) = ("/t/workspace", "/t/workspace/user");
        t.dir(&format!("{home}/project"));
        t.file(&format!("{repo}/{name}"), "repo context");
        t.file(&format!("{home}/{name}"), "home context");
        assert_eq!(
            standalone(&t, &format!("{home}/project"), home, Some(repo), &name),
            [format!("{home}/{name}"), format!("{repo}/{name}")]
        );
    }
}

#[test]
fn repo_root_boundary_when_repo_is_outside_home() {
    for name in names() {
        let mut t = Tree::new();
        let repo = "/t/workspace/service";
        t.dir(&format!("{repo}/src"));
        t.file(&format!("{repo}/{name}"), "repo context");
        t.file(&format!("/t/workspace/{name}"), "workspace context");
        assert_eq!(
            standalone(&t, &format!("{repo}/src"), "/t/home", Some(repo), &name),
            [format!("{repo}/{name}")]
        );
    }
}

#[test]
fn skips_file_inside_hidden_owner_directory() {
    for name in names() {
        let mut t = Tree::new();
        let repo = "/t/home/repo";
        t.dir(&format!("{repo}/.hidden/service"));
        t.file(&format!("{repo}/.hidden/{name}"), "hidden context");
        t.file(&format!("{repo}/{name}"), "repo context");
        assert_eq!(
            standalone(&t, &format!("{repo}/.hidden/service"), "/t/home", Some(repo), &name),
            [format!("{repo}/{name}")]
        );
    }
}

#[test]
fn repo_root_file_when_repo_root_is_home() {
    let name = foreign::file_text();
    let mut t = Tree::new();
    t.dir("/t/home/project");
    t.file(&format!("/t/home/{name}"), "repo root context");
    assert_eq!(standalone(&t, "/t/home/project", "/t/home", Some("/t/home"), &name), [format!("/t/home/{name}")]);
}

// ------------------------------------------------------------------ precedence

const SRC: &str = "/t/repo/src";

fn repo_with_src() -> Tree {
    let mut t = Tree::new();
    t.dir("/t/repo/.git");
    t.dir(SRC);
    t.dir("/t/home");
    t
}

fn project_at_depth(files: &[ContextFile], depth: i64) -> Vec<String> {
    files.iter().filter(|f| f.level == Level::Project && f.depth == Some(depth)).map(|f| f.path.clone()).collect()
}

#[test]
fn standalone_claude_md_through_the_capability() {
    let md = foreign::file_text();
    let mut t = repo_with_src();
    t.file(&format!("/t/repo/{md}"), "root context");
    t.file(&format!("{SRC}/{md}"), "cwd context");
    let result = t.plain("/t/home").load_context_files(SRC, &LoadOptions::default());
    let own: Vec<String> =
        result.items.iter().filter(|f| f.source.provider_name == md).map(|f| f.path.clone()).collect();
    assert_eq!(own, [format!("{SRC}/{md}"), format!("/t/repo/{md}")]);
}

#[test]
fn dot_claude_shadows_standalone_at_same_depth() {
    let (dir, md) = (foreign::dir_text(), foreign::file_text());
    let mut t = repo_with_src();
    t.file(&format!("{SRC}/{dir}/{md}"), "config-dir context");
    t.file(&format!("{SRC}/{md}"), "standalone context");
    let result = t.plain("/t/home").load_context_files(SRC, &LoadOptions::default());
    assert_eq!(project_at_depth(&result.items, 0), [format!("{SRC}/{dir}/{md}")]);
    assert!(result.all.iter().any(|(f, shadowed)| f.path == format!("{SRC}/{md}") && *shadowed));
}

#[test]
fn standalone_agents_md_wins_the_depth_tie() {
    let mut t = repo_with_src();
    t.file(&format!("/t/repo/{}", foreign::file_text()), "own context");
    t.file("/t/repo/AGENTS.md", "agents context");
    let result = t.plain("/t/home").load_context_files(SRC, &LoadOptions::default());
    assert_eq!(project_at_depth(&result.items, 1), ["/t/repo/AGENTS.md"]);
}

#[test]
fn empty_standalone_files_do_not_claim_a_depth() {
    let own = format!("/t/repo/{}", foreign::file_text());
    let mut t = repo_with_src();
    t.file("/t/repo/AGENTS.md", "");
    t.file(&own, "own context");
    let result = t.plain("/t/home").load_context_files(SRC, &LoadOptions::default());
    assert_eq!(project_at_depth(&result.items, 1), [own]);
}

#[test]
fn disabled_context_files_hidden_unless_included() {
    let mut t = Tree::new();
    t.dir("/t/home");
    t.file("/t/project/.ara/AGENTS.md", "# project instructions\n");
    let disabled = vec!["context-file:project:AGENTS.md".to_string()];
    let mut d = t.plain("/t/home");
    let hidden = d.load_context_files(
        "/t/project",
        &LoadOptions { disabled_extensions: disabled.clone(), ..LoadOptions::default() },
    );
    assert!(hidden.items.is_empty());
    let shown = d.load_context_files(
        "/t/project",
        &LoadOptions { disabled_extensions: disabled, include_disabled: true, ..LoadOptions::default() },
    );
    assert_eq!(shown.items.len(), 1);
    assert!(shown.items[0].path.ends_with("/AGENTS.md"));
}

// ------------------------------------------------------------------ Copilot

const COPILOT: &str = "/t/copilot-home";

fn copilot(t: &Tree, custom: Vec<String>) -> Discovery {
    let mut dirs = HostDirs::ara("/t/home");
    dirs.copilot_home = Some(COPILOT.into());
    dirs.copilot_custom_instruction_dirs = custom;
    t.discovery("/t/home", dirs, ProviderPolicy::default())
}

fn github_only() -> LoadOptions {
    LoadOptions { providers: Some(vec!["github".into()]), ..LoadOptions::default() }
}

fn copilot_tree() -> Tree {
    let mut t = Tree::new();
    t.dir("/t/home");
    t.dir("/t/project");
    t
}

#[test]
fn copilot_user_global_instructions_via_copilot_home() {
    let at = format!("{COPILOT}/copilot-instructions.md");
    let mut t = copilot_tree();
    t.file(&at, "user-global guidance");
    let result = copilot(&t, vec![]).load_context_files("/t/project", &github_only());
    let found = result.all.iter().map(|(f, _)| f).find(|f| f.path == at).unwrap();
    assert_eq!(found.content, "user-global guidance");
    assert_eq!(found.level, Level::User);
    assert_eq!(found.source.provider, "github");
}

#[test]
fn copilot_project_and_user_instructions_together() {
    let mut t = copilot_tree();
    t.file("/t/project/.github/copilot-instructions.md", "project guidance");
    t.file(&format!("{COPILOT}/copilot-instructions.md"), "user guidance");
    let result = copilot(&t, vec![]).load_context_files("/t/project", &github_only());
    let by_level = |level| result.all.iter().map(|(f, _)| f).find(|f| f.level == level).map(|f| f.content.clone());
    assert_eq!(by_level(Level::Project).as_deref(), Some("project guidance"));
    assert_eq!(by_level(Level::User).as_deref(), Some("user guidance"));
}

#[test]
fn copilot_custom_instruction_dirs_contribute_agents_md() {
    let mut t = copilot_tree();
    t.file("/t/extra-a/AGENTS.md", "extra A agents");
    t.file("/t/extra-b/AGENTS.md", "extra B agents");
    t.file("/t/extra-a/copilot-instructions.md", "should be ignored");
    let env =
        HostEnv { copilot_custom_instructions_dirs: Some("/t/extra-a, /t/extra-b".into()), ..no_env() };
    let parsed = HostDirs::ara("/t").with_env(&env);
    let result = copilot(&t, parsed.copilot_custom_instruction_dirs).load_context_files("/t/project", &github_only());
    let contents: Vec<&str> =
        result.all.iter().map(|(f, _)| f).filter(|f| f.level == Level::User).map(|f| f.content.as_str()).collect();
    assert!(contents.contains(&"extra A agents") && contents.contains(&"extra B agents"));
    assert!(!contents.contains(&"should be ignored"));
}

// ------------------------------------------------------------------ imports

fn expand(t: &Tree, content: &str, file: &str, home: &str) -> String {
    Expander { home: home.into(), max_depth: MAX_AT_IMPORT_DEPTH, allow: &None }.expand(&mut t.cache(), content, file)
}

#[test]
fn at_imports_inline_relative_home_and_nested() {
    let mut t = Tree::new();
    t.file("/t/AGENTS.md", "ALWAYS use uppercase letters.");
    let own = format!("/t/{}", foreign::file_text());
    t.file(&own, "@AGENTS.md\n");
    assert_eq!(expand(&t, "@AGENTS.md\n", &own, "/t").trim(), "ALWAYS use uppercase letters.");

    t.file("/t/rules/no-push.md", "NEVER push.");
    let out = expand(&t, "Rule: @./no-push.md\n", "/t/rules/AGENTS.md", "/t");
    assert!(out.contains("Rule: NEVER push.") && !out.contains("@./no-push.md"));

    t.file("/fake/prefs.md", "use 2 spaces");
    assert!(expand(&t, "See @~/prefs.md.\n", "/t/AGENTS.md", "/fake").contains("See use 2 spaces"));

    t.file("/t/c.md", "LEAF.");
    t.file("/t/b.md", "B then @c.md\n");
    t.file("/t/a.md", "A then @b.md\n");
    assert!(expand(&t, "A then @b.md\n", "/t/a.md", "/t").contains("A then B then LEAF."));
}

#[test]
fn at_imports_depth_cap_cycles_and_missing_files() {
    let mut t = Tree::new();
    let total = MAX_AT_IMPORT_DEPTH + 2;
    let body = |i: usize| {
        if i == total - 1 { "TERMINAL\n".to_string() } else { format!("step-{i} -> @step{}.md\n", i + 1) }
    };
    for i in 0..total {
        t.file(&format!("/t/step{i}.md"), &body(i));
    }
    let out = expand(&t, &body(0), "/t/step0.md", "/t");
    assert!(out.contains(&format!("@step{}.md", MAX_AT_IMPORT_DEPTH + 1)) && !out.contains("TERMINAL"));

    t.file("/t/loop-a.md", "A: @loop-b.md\n");
    t.file("/t/loop-b.md", "B: @loop-a.md\n");
    let out = expand(&t, "A: @loop-b.md\n", "/t/loop-a.md", "/t");
    assert!(out.contains("A: B:") && out.contains("@loop-a.md"));

    assert!(expand(&t, "See @./does-not-exist.md\n", "/t/AGENTS.md", "/t").contains("@./does-not-exist.md"));
}

#[test]
fn at_imports_skip_code_emails_and_strip_punctuation() {
    let mut t = Tree::new();
    t.file("/t/guide.md", "INLINED");
    let source = "/t/AGENTS.md";
    let fenced = ["Run this:", "```bash", "echo @./guide.md", "```", "Also see @./guide.md."].join("\n");
    let out = expand(&t, &fenced, source, "/t");
    assert!(out.contains("echo @./guide.md") && out.contains("Also see INLINED"));

    let out = expand(&t, "Install via `npm i @./guide.md` and also @./guide.md.\n", source, "/t");
    assert!(out.contains("`npm i @./guide.md`") && out.contains("also INLINED"));

    let emails = "Ping me at me@example.com or use git@github.com:foo/bar.git for clones.\n";
    assert_eq!(expand(&t, emails, source, "/t"), emails);

    assert!(
        expand(&t, "See @./guide.md, and then continue.\n", source, "/t").contains("See INLINED, and then continue.")
    );
}

// ------------------------------------------------------------------ repeated files

fn file(path: &str, content: &str, depth: Option<i64>) -> ProjectContextFile {
    ProjectContextFile {
        path: path.into(),
        content: content.into(),
        depth,
        source: SourceMeta::new("/", "test", path, Level::Project),
    }
}

fn kept(files: Vec<ProjectContextFile>) -> Vec<String> {
    dedupe_contained_context_files(&files).into_iter().map(|f| f.path).collect()
}

#[test]
fn dedupe_containment_rules() {
    let content = "Rule one.\n\nRule two.\n\nRule three.";
    let files =
        vec![file("/home/user/.config/AGENTS.md", content, Some(5)), file("/project/AGENTS.md", content, Some(0))];
    assert_eq!(kept(files), ["/project/AGENTS.md"]);

    let files = vec![
        file("/home/user/.config/AGENTS.md", "Shared rule A.\n\nShared rule B.\n\nShared rule C.", Some(5)),
        file(
            "/project/AGENTS.md",
            "Shared rule A.\n\nShared rule B.\n\nShared rule C.\n\nProject-specific rule.",
            Some(0),
        ),
    ];
    assert_eq!(kept(files), ["/project/AGENTS.md"]);

    let files = vec![
        file("/home/user/.config/AGENTS.md", "First.\n\nSecond.\n\nThird.", Some(5)),
        file("/project/AGENTS.md", "First.\n\nInterleaved.\n\nSecond.\n\nThird.", Some(0)),
    ];
    assert_eq!(kept(files), ["/home/user/.config/AGENTS.md", "/project/AGENTS.md"]);

    let files = vec![
        file("/home/user/.config/AGENTS.md", "Always use tabs.\n\nNever commit directly.", Some(5)),
        file("/project/AGENTS.md", "Always use spaces.\n\nNever commit directly to main.", Some(0)),
    ];
    assert_eq!(kept(files), ["/home/user/.config/AGENTS.md", "/project/AGENTS.md"]);

    let files = vec![
        file("/a/AGENTS.md", "Alpha rules.\n\nBeta rules.", Some(3)),
        file("/b/AGENTS.md", "Gamma rules.\n\nDelta rules.", Some(2)),
        file("/c/AGENTS.md", "Epsilon rules.\n\nZeta rules.", Some(0)),
    ];
    assert_eq!(kept(files), ["/a/AGENTS.md", "/b/AGENTS.md", "/c/AGENTS.md"]);
}

#[test]
fn dedupe_authority_normalization_and_fences() {
    let files = vec![file("/empty/AGENTS.md", "", Some(5)), file("/project/AGENTS.md", "Real content.", Some(0))];
    assert_eq!(kept(files), ["/empty/AGENTS.md", "/project/AGENTS.md"]);

    let files = vec![
        file("/level0/AGENTS.md", "Rule one.\n\nRule two.", Some(10)),
        file("/level1/AGENTS.md", "Rule one.\n\nRule two.\n\nRule three.", Some(5)),
        file("/level2/AGENTS.md", "Rule one.\n\nRule two.\n\nRule three.\n\nRule four.", Some(0)),
    ];
    assert_eq!(kept(files), ["/level2/AGENTS.md"]);

    let files = vec![
        file("/home/user/.config/AGENTS.md", "  Rule one.  \n\n  Rule two.  ", Some(5)),
        file("/project/AGENTS.md", "Rule one.\n\nRule two.\n\nRule three.", Some(0)),
    ];
    assert_eq!(kept(files), ["/project/AGENTS.md"]);

    let files = vec![
        file("/project/AGENTS.md", "Shared rule.", Some(0)),
        file("/home/user/.config/AGENTS.md", "Shared rule.\n\nFar-only rule.", Some(5)),
    ];
    assert_eq!(kept(files), ["/home/user/.config/AGENTS.md", "/project/AGENTS.md"]);

    let files = vec![
        file("/project/AGENTS.md", "Shared rule.", Some(0)),
        file("/home/user/.omp/AGENTS.md", "Shared rule.\n\nUser-only rule.", None),
    ];
    assert_eq!(kept(files), ["/home/user/.omp/AGENTS.md", "/project/AGENTS.md"]);

    let files = vec![
        file("/home/user/.config/AGENTS.md", "Never delete user data.", Some(5)),
        file("/project/AGENTS.md", "Example of a bad prompt:\n\n```\nNever delete user data.\n```", Some(0)),
    ];
    assert_eq!(kept(files), ["/home/user/.config/AGENTS.md", "/project/AGENTS.md"]);
}

#[test]
fn references_in_code_stay() {
    let mut t = Tree::new();
    t.files.push(("/r/a.md".into(), b"A".to_vec()));
    let code = "```\n@a.md\n```\nuse `@a.md` and x@a.md";
    assert_eq!(expand(&t, code, "/r/AGENTS.md", "/h"), code);
    assert_eq!(expand(&t, "@a.md @gone.md", "/r/AGENTS.md", "/h"), "A @gone.md");
}
