//! Where files and skills are looked for, and which of those that are found compete.
use crate::at_imports;
use crate::at_imports::{ExpanderView, MAX_AT_IMPORT_DEPTH};
use crate::capability;
use crate::capability::{Level, LoadContextView, Sourced};
use crate::context_files;
use crate::context_files::{ContextFile, ContextFileView};
use crate::files;
use crate::files::FsView;
use crate::foreign;
use crate::paths;
use crate::project;
use crate::project::DiscoveryView;
use crate::skills;
use crate::skills::{RootView, Skill, SkillView};
use crate::system_md;
use crate::system_md::{SystemMd, SystemMdView};
use crate::system_prompt;
use crate::text;
use crate::value_laws;
use vstd::prelude::*;

verus! {

// ------------------------------------------------------------------ what competes

/// Context files compete where both are the user's, or where both are a project's and lie equally
/// far up; what lies below the working directory counts as in it.
pub proof fn law_which_context_files_compete(a: ContextFileView, b: ContextFileView)
    requires
        a.level != Level::Native && b.level != Level::Native,
    ensures
        ({
            let x: int = match a.depth {
                Some(d) => if d > 0 {
                    d as int
                } else {
                    0
                },
                None => 0,
            };
            let y: int = match b.depth {
                Some(d) => if d > 0 {
                    d as int
                } else {
                    0
                },
                None => 0,
            };
            ContextFile::key_of(a) == ContextFile::key_of(b) <==> a.level == b.level && (a.level
                == Level::User || x == y)
        }),
        ContextFile::key_of(a) is Some,
        !ContextFile::aliases(a, b),
{
    let x = context_files::scope_of(a.depth) as nat;
    let y = context_files::scope_of(b.depth) as nat;
    value_laws::law_numbers_read_back(x);
    value_laws::law_numbers_read_back(y);
    reveal_strlit("user");
    reveal_strlit("project:");
    let head = "project:"@;
    let s = head + text::decimal(x);
    let t = head + text::decimal(y);
    assert("user"@[0] == 'u' && head[0] == 'p' && head.len() == 8);
    assert(s[0] == 'p' && t[0] == 'p');
    assert(s.skip(8) =~= text::decimal(x));
    assert(t.skip(8) =~= text::decimal(y));
}

/// Skills compete by their names, system prompts by their levels.
pub proof fn law_what_else_competes(a: SkillView, b: SkillView, c: SystemMdView, d: SystemMdView)
    ensures
        Skill::key_of(a) == Skill::key_of(b) <==> a.name == b.name,
        SystemMd::key_of(c) == SystemMd::key_of(d) <==> c.level == d.level,
        !Skill::aliases(a, b) && !SystemMd::aliases(c, d),
{
    reveal_strlit("user");
    reveal_strlit("project");
    reveal_strlit("native");
    assert("user"@.len() == 4 && "project"@.len() == 7 && "native"@.len() == 6);
}

/// A skill is switched off by its name, a context file by its level and the name of its file; a
/// system prompt cannot be.
pub proof fn law_how_items_are_switched_off(s: SkillView, f: ContextFileView, m: SystemMdView)
    ensures
        Skill::extension_of(s) == Some("skill:"@ + s.name),
        f.level is User ==> ContextFile::extension_of(f) == Some(
            "context-file:"@ + "user"@ + ":"@ + paths::name_of(f.path),
        ),
        f.level is Project ==> ContextFile::extension_of(f) == Some(
            "context-file:"@ + "project"@ + ":"@ + paths::name_of(f.path),
        ),
        SystemMd::extension_of(m) is None,
{
}

/// A skill needs a name and a path; a context file a path and the level of a user or a project; a
/// system prompt a path.
pub proof fn law_what_items_need(s: SkillView, f: ContextFileView, m: SystemMdView)
    ensures
        Skill::problem_of(s) is None <==> s.name.len() > 0 && s.path.len() > 0,
        ContextFile::problem_of(f) is None <==> f.path.len() > 0 && f.level != Level::Native,
        SystemMd::problem_of(m) is None <==> m.path.len() > 0,
{
}

// ------------------------------------------------------------------ where files are looked for

/// The walk up from the working directory ends at the root of the repository, or else at the home
/// directory.
pub proof fn law_where_the_walk_ends(ctx: LoadContextView)
    ensures
        ctx.repo_root matches Some(root) ==> context_files::walk_end(ctx) == root,
        ctx.repo_root is None ==> context_files::walk_end(ctx) == ctx.home,
        skills::walk(ctx) == paths::upwards(ctx.cwd, context_files::walk_end(ctx)),
{
}

/// The home directory comes first, then the further ones, each place once.
pub proof fn law_which_homes_count(home: Seq<char>, extra: Seq<Seq<char>>, dir: Seq<char>)
    ensures
        context_files::home_dirs(home, Seq::empty()) == seq![home],
        ({
            let have = context_files::home_dirs(home, extra);
            let all = context_files::home_dirs(home, extra.push(dir));
            let there = exists|i: int|
                0 <= i < have.len() && paths::same_place(#[trigger] have[i], dir);
            &&& there ==> all == have
            &&& !there ==> all == have.push(dir)
        }),
{
    assert(extra.push(dir).drop_last() =~= extra);
}

/// The native places: the file of the user, and that of the nearest native directory.
pub proof fn law_where_native_files_are(fs: FsView, ctx: LoadContextView)
    ensures
        ({
            let spots = context_files::native_spots(fs, ctx);
            let found = context_files::nearest_native(fs, ctx, ctx.cwd, 0);
            &&& spots.len() == (if found is Some {
                2int
            } else {
                1int
            })
            &&& spots[0].path == paths::joined(ctx.dirs.native_user_dir, "AGENTS.md"@)
                && spots[0].level is User && !spots[0].keep_empty
            &&& found matches Some(d) ==> spots[1].path == paths::joined(d.0, "AGENTS.md"@)
                && spots[1].level is Project && spots[1].depth == Some(d.1 as i64)
        }),
        ({
            let prompts = system_md::native_spots(fs, ctx);
            let found = context_files::nearest_native(fs, ctx, ctx.cwd, 0);
            &&& prompts[0].path == paths::joined(ctx.dirs.native_user_dir, "SYSTEM.md"@)
                && prompts[0].level is User
            &&& found matches Some(d) ==> prompts.len() == 2 && prompts[1].path == paths::joined(
                d.0,
                "SYSTEM.md"@,
            ) && prompts[1].level is Project
        }),
{
}

/// The places of the foreign agent: that of the project always, that of the user where its
/// configuration counts, which may lie elsewhere. Empty files count there.
pub proof fn law_where_the_foreign_files_are(ctx: LoadContextView)
    ensures
        ({
            let spots = context_files::claude_spots(ctx);
            let on = capability::user_source_enabled(ctx, foreign::id());
            let dir = match ctx.dirs.claude_config_dir {
                Some(d) => d,
                None => paths::joined(ctx.home, foreign::dir()),
            };
            &&& spots.len() == (if on {
                2int
            } else {
                1int
            })
            &&& spots.last().level is Project && spots.last().keep_empty && spots.last().path
                == paths::joined(paths::joined(ctx.cwd, foreign::dir()), foreign::file())
            &&& on ==> spots[0].level is User && spots[0].keep_empty && spots[0].path
                == paths::joined(dir, foreign::file())
        }),
{
}

/// The shared directories: of a project those on the way up but for the home directory, of the user
/// those of the homes; each has two places.
pub proof fn law_where_shared_files_are(
    ctx: LoadContextView,
    dirs: Seq<Seq<char>>,
    dir: Seq<char>,
    level: Level,
)
    ensures
        context_files::agent_pairs(ctx, Seq::empty(), level).len() == 0,
        ({
            let have = context_files::agent_pairs(ctx, dirs, level);
            let all = context_files::agent_pairs(ctx, dirs.push(dir), level);
            let n = have.len() as int;
            let out = level == Level::Project && paths::same_place(dir, ctx.home);
            &&& out ==> all == have
            &&& !out ==> all.len() == n + 2 && all.take(n) == have && all[n].path == paths::joined(
                paths::joined(dir, ".agent"@),
                "AGENTS.md"@,
            ) && all[n + 1].path == paths::joined(paths::joined(dir, ".agents"@), "AGENTS.md"@)
            &&& !out && level == Level::Project ==> all[n].level is Project && all[n + 1].level
                is Project
            &&& !out && level == Level::User ==> all[n].level is User && all[n + 1].level is User
        }),
{
    assert(dirs.push(dir).drop_last() =~= dirs);
    let have = context_files::agent_pairs(ctx, dirs, level);
    let all = context_files::agent_pairs(ctx, dirs.push(dir), level);
    if all.len() > have.len() {
        assert(all.take(have.len() as int) =~= have);
    }
}

// ------------------------------------------------------------------ where skills are looked for

/// A directory of skills.
pub open spec fn is_root(r: RootView, dir: Seq<char>, level: Level, described: bool) -> bool {
    r.dir == dir && r.level == level && r.require_description == described
}

/// Native skills need a description; they are looked for on the way up, then in the directory of
/// the user. Those of other tools are looked for in their own directories, those of the user only
/// where their configuration counts.
pub proof fn law_where_skills_are(ctx: LoadContextView)
    ensures
        ({
            let native = skills::roots_of(ctx, "native"@);
            native.len() > 0 && is_root(
                native.last(),
                paths::joined(ctx.dirs.native_user_dir, "skills"@),
                Level::User,
                true,
            ) && native.drop_last() == skills::roots_below(
                skills::walk(ctx),
                None,
                ctx.dirs.native_project_dir,
                Level::Project,
                true,
            )
        }),
        ({
            let codex = skills::roots_of(ctx, "codex"@);
            let on = ctx.skill_toggles.codex_user || capability::user_source_enabled(
                ctx,
                "codex"@,
            );
            &&& codex.len() == (if on {
                2int
            } else {
                1int
            })
            &&& is_root(
                codex.last(),
                paths::joined(ctx.cwd, ".codex/skills"@),
                Level::Project,
                false,
            )
            &&& on ==> is_root(
                codex[0],
                paths::joined(ctx.home, ".codex/skills"@),
                Level::User,
                false,
            )
        }),
        ({
            let opencode = skills::roots_of(ctx, "opencode"@);
            let on = capability::user_source_enabled(ctx, "opencode"@);
            &&& opencode.len() == (if on {
                2int
            } else {
                1int
            })
            &&& is_root(
                opencode.last(),
                paths::joined(ctx.cwd, ".opencode/skills"@),
                Level::Project,
                false,
            )
        }),
        ({
            let github = skills::roots_of(ctx, "github"@);
            github.len() == 1 && is_root(
                github[0],
                paths::joined(ctx.cwd, ".github/skills"@),
                Level::Project,
                true,
            )
        }),
{
    reveal_strlit("native");
    reveal_strlit("agents");
    reveal_strlit("codex");
    reveal_strlit("opencode");
    reveal_strlit("github");
    assert("native"@.len() == 6 && "agents"@.len() == 6 && "codex"@.len() == 5);
    assert("native"@[0] == 'n' && "agents"@[0] == 'a' && "github"@[0] == 'g');
    assert("opencode"@.len() == 8 && "github"@.len() == 6);
    lemma_foreign();
    let native = skills::roots_of(ctx, "native"@);
    assert(native.drop_last() =~= skills::roots_below(
        skills::walk(ctx),
        None,
        ctx.dirs.native_project_dir,
        Level::Project,
        true,
    ));
}

proof fn lemma_foreign()
    ensures
        foreign::id().len() == 6,
        foreign::id()[0] == 'c',
{
    reveal_strlit("CLAUDE_CONFIG_DIR");
    let c = foreign::capitals();
    assert(c.len() == 6 && c[0] == 'C');
    assert(foreign::id()[0] == text::lower_char(c[0]));
}

/// In each directory on the way, but for one that is left out, skills are looked for below the
/// directory of the tool.
pub proof fn law_which_directories_hold_skills(
    dirs: Seq<Seq<char>>,
    dir: Seq<char>,
    skipped: Option<Seq<char>>,
    sub: Seq<char>,
    level: Level,
    described: bool,
)
    ensures
        ({
            let have = skills::roots_below(dirs, skipped, sub, level, described);
            let all = skills::roots_below(dirs.push(dir), skipped, sub, level, described);
            let out = skipped matches Some(s) && paths::same_place(dir, s);
            &&& out ==> all == have
            &&& !out ==> all.len() == have.len() + 1 && all.drop_last() == have && is_root(
                all.last(),
                paths::joined(paths::joined(dir, sub), "skills"@),
                level,
                described,
            )
        }),
{
    assert(dirs.push(dir).drop_last() =~= dirs);
    let have = skills::roots_below(dirs, skipped, sub, level, described);
    let all = skills::roots_below(dirs.push(dir), skipped, sub, level, described);
    if all.len() > have.len() {
        assert(all.drop_last() =~= have);
    }
}

/// Directories of skills are read one after the other; one that cannot be read is told of, and
/// gives none.
pub proof fn law_skills_are_read_in_order(
    fs: FsView,
    provider: Seq<char>,
    roots: Seq<RootView>,
    r: RootView,
)
    ensures
        ({
            let have = skills::scan_all(fs, provider, roots);
            let all = skills::scan_all(fs, provider, roots.push(r));
            let n = have.items.len() as int;
            &&& all.items.len() >= n && all.items.take(n) == have.items
            &&& files::listing_at(fs, r.dir).failure matches Some(e) ==> all.items == have.items
                && all.warnings == have.warnings.push(
                "Failed to read skills directory: "@ + r.dir + " ("@ + e + ")"@,
            )
        }),
        skills::scan_all(fs, provider, Seq::empty()).items.len() == 0,
{
    assert(roots.push(r).drop_last() =~= roots);
    let have = skills::scan_all(fs, provider, roots);
    let all = skills::scan_all(fs, provider, roots.push(r));
    assert(all.items.take(have.items.len() as int) =~= have.items);
    match files::listing_at(fs, r.dir).failure {
        Some(e) => {
            assert(all.items =~= have.items);
            assert(all.warnings =~= have.warnings.push(
                "Failed to read skills directory: "@ + r.dir + " ("@ + e + ")"@,
            ));
        },
        None => {},
    }
}

// ------------------------------------------------------------------ what a project is given

/// Each context file comes to the prompt with its references replaced, and otherwise as it was
/// found.
pub proof fn law_files_come_with_their_references(
    x: ExpanderView,
    found: Seq<ContextFileView>,
    i: int,
)
    requires
        0 <= i < found.len(),
    ensures
        ({
            let all = project::expanded_files(x, found);
            &&& all.len() == found.len()
            &&& all[i].path == found[i].path && all[i].depth == found[i].depth && all[i].source
                == found[i].source
            &&& all[i].content == at_imports::expanded(
                x,
                found[i].content,
                found[i].path,
                MAX_AT_IMPORT_DEPTH as nat,
            )
        }),
{
}

/// The context files of further roots follow, but for a root that is the working directory.
pub proof fn law_files_of_further_roots_follow(
    d: DiscoveryView,
    cwd: Seq<char>,
    disabled: Seq<Seq<char>>,
    roots: Seq<Seq<char>>,
    root: Seq<char>,
)
    ensures
        ({
            let have = system_prompt::files_of_roots(d, cwd, disabled, roots);
            let all = system_prompt::files_of_roots(d, cwd, disabled, roots.push(root));
            &&& paths::resolved(d.fs.current, root) == cwd ==> all == have
            &&& paths::resolved(d.fs.current, root) != cwd ==> all == have
                + project::project_files(d, root, disabled)
        }),
        system_prompt::files_of_roots(d, cwd, disabled, Seq::empty()).len() == 0,
{
    assert(roots.push(root).drop_last() =~= roots);
}

/// The providers are told the directory, the home, the repository and the policy of the host; what
/// is asked for by name counts even where it is off by default.
pub proof fn law_what_providers_are_told(
    d: DiscoveryView,
    cwd: Seq<char>,
    options: capability::LoadOptionsView,
)
    ensures
        ({
            let ctx = project::context_for(d, cwd, options);
            let here = paths::resolved(d.fs.current, cwd);
            &&& ctx.cwd == here && ctx.home == d.home && ctx.dirs == d.dirs && ctx.policy
                == d.policy
            &&& ctx.repo_root == files::repo_root_from(d.fs, paths::resolved(d.fs.current, here))
            &&& ctx.explicit_providers == options.providers
            &&& ctx.include_opt_out_user_sources == options.include_disabled
        }),
{
}

/// A file of the user has no depth; one in a directory of a project has that of the directory above
/// its own.
pub proof fn law_how_deep_files_lie(
    cwd: Seq<char>,
    path: Seq<char>,
    dir: Seq<char>,
    above: Seq<char>,
)
    requires
        crate::paths::parent_of(path) == Some(dir),
    ensures
        crate::context_files::user_spot(path).depth is None,
        crate::context_files::user_spot(path).level is User,
        !crate::context_files::user_spot(path).keep_empty,
        crate::context_files::depth_above(cwd, path) == crate::paths::depth_of(cwd, dir),
        crate::paths::parent_of(dir) == Some(above) ==> crate::context_files::depth_two_above(
            cwd,
            path,
        ) == crate::paths::depth_of(cwd, above),
{
}

} // verus!
