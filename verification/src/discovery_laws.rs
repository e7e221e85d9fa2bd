//! How files and other items are discovered: who is asked, what is taken of the answers, where
//! files are looked for, and which of them reach the prompt.
use crate::capability;
use crate::capability::{
    Choice, HostDirsView, HostEnvView, LoadContextView, LoadOptionsView, OutcomeView,
    ProviderPolicyView, ProviderView, Sourced,
};
use crate::config_files;
use crate::config_files::ConfigLevel;
use crate::context_files;
use crate::context_files::SpotView;
use crate::files;
use crate::files::FsView;
use crate::foreign;
use crate::paths;
use crate::project;
use crate::project::{BlocksView, ProjectContextFileView, FIRST};
use crate::system_md;
use crate::system_md::PromptSpotView;
use crate::text;
use crate::text::Space;
use vstd::prelude::*;

verus! {

// ------------------------------------------------------------------ who is asked

/// A provider that is not switched off, was asked for where any was, and was not left out.
pub open spec fn wanted(policy: ProviderPolicyView, options: LoadOptionsView) -> spec_fn(
    ProviderView,
) -> bool {
    |p: ProviderView|
        !policy.disabled.contains(p.id) && !options.exclude_providers.contains(p.id) && (
        options.providers matches Some(ids) ==> ids.contains(p.id))
}

/// All providers that are wanted are asked, in their order, and no others.
pub proof fn law_wanted_providers_are_asked(
    providers: Seq<ProviderView>,
    policy: ProviderPolicyView,
    options: LoadOptionsView,
)
    ensures
        capability::asked(providers, policy, options) == providers.filter(wanted(policy, options)),
    decreases providers.len(),
{
    reveal(Seq::filter);
    if providers.len() > 0 {
        law_wanted_providers_are_asked(providers.drop_last(), policy, options);
    } else {
        assert(capability::asked(providers, policy, options) =~= Seq::empty());
        assert(providers.filter(wanted(policy, options)) =~= Seq::empty());
    }
}

/// What a provider finds counts, unless it is switched off by name or left out by the host. It is
/// given the name of its provider, and stays in order.
pub proof fn law_what_counts_of_an_answer<T: Sourced>(
    items: Seq<(T::V, Choice)>,
    item: T::V,
    choice: Choice,
    disabled: Seq<Seq<char>>,
    name: Seq<char>,
)
    ensures
        capability::candidates::<T>(Seq::empty(), disabled, name).len() == 0,
        ({
            let off = T::extension_of(item) matches Some(id) && disabled.contains(id);
            let have = capability::candidates::<T>(items, disabled, name);
            let all = capability::candidates::<T>(items.push((item, choice)), disabled, name);
            &&& off || choice is Drop ==> all == have
            &&& !off && choice is Keep ==> all == have.push((T::named_by(item, name), false))
            &&& !off && choice is Hide ==> all == have.push((T::named_by(item, name), true))
        }),
{
    assert(items.push((item, choice)).drop_last() =~= items);
}

/// A provider that fails adds a warning and nothing else. One that answers adds its items behind
/// those of the providers before it, and its warnings under its name; it is named among the
/// sources where any of its items is to be seen.
pub proof fn law_what_an_answer_adds<T: Sourced>(
    providers: Seq<ProviderView>,
    outcomes: Seq<OutcomeView<T::V>>,
    outcome: OutcomeView<T::V>,
    disabled: Seq<Seq<char>>,
)
    requires
        outcomes.len() < providers.len(),
    ensures
        ({
            let p = providers[outcomes.len() as int];
            let have = capability::gathered::<T>(providers, outcomes, disabled);
            let all = capability::gathered::<T>(providers, outcomes.push(outcome), disabled);
            match outcome {
                OutcomeView::Failed(e) => {
                    &&& all.items == have.items && all.providers == have.providers
                    &&& all.warnings == have.warnings.push(
                        "["@ + p.display_name + "] "@ + ("Failed to load: "@ + e),
                    )
                },
                OutcomeView::Found(r) => {
                    let more = capability::candidates::<T>(r.items, disabled, p.display_name);
                    &&& all.items == have.items + more
                    &&& all.warnings == have.warnings + Seq::new(
                        r.warnings.len(),
                        |i: int| "["@ + p.display_name + "] "@ + r.warnings[i],
                    )
                    &&& all.providers == (if exists|i: int|
                        0 <= i < more.len() && !(#[trigger] more[i]).1 {
                        have.providers.push(p.id)
                    } else {
                        have.providers
                    })
                },
            }
        }),
        capability::gathered::<T>(providers, Seq::empty(), disabled).items.len() == 0,
        capability::gathered::<T>(providers, Seq::empty(), disabled).warnings.len() == 0,
        capability::gathered::<T>(providers, Seq::empty(), disabled).providers.len() == 0,
{
    let all = outcomes.push(outcome);
    assert(all.drop_last() =~= outcomes);
    let p = providers[outcomes.len() as int];
    match outcome {
        OutcomeView::Failed(e) => {},
        OutcomeView::Found(r) => {
            assert(capability::all_tagged(p.display_name, r.warnings) =~= Seq::new(
                r.warnings.len(),
                |i: int| "["@ + p.display_name + "] "@ + r.warnings[i],
            ));
        },
    }
}

proof fn lemma_first_ones<V>(items: Seq<(V, bool)>)
    ensures
        capability::first_ones(items) == items.filter(|x: (V, bool)| !x.1).map_values(
            |x: (V, bool)| x.0,
        ),
    decreases items.len(),
{
    reveal(Seq::filter);
    let keep = |x: (V, bool)| !x.1;
    let value = |x: (V, bool)| x.0;
    let all = items.filter(keep).map_values(value);
    if items.len() > 0 {
        lemma_first_ones(items.drop_last());
        let have = items.drop_last().filter(keep);
        if keep(items.last()) {
            assert(items.filter(keep) =~= have.push(items.last()));
            assert(have.push(items.last()).map_values(value) =~= have.map_values(value).push(
                items.last().0,
            ));
        } else {
            assert(items.filter(keep) =~= have);
        }
    } else {
        assert(capability::first_ones(items) =~= Seq::empty());
        assert(all =~= Seq::empty());
    }
}

proof fn lemma_valid_ones<T: Sourced>(items: Seq<T::V>)
    ensures
        capability::valid_ones::<T>(items) == items.filter(|v: T::V| T::problem_of(v) is None),
    decreases items.len(),
{
    reveal(Seq::filter);
    let fine = |v: T::V| T::problem_of(v) is None;
    if items.len() > 0 {
        lemma_valid_ones::<T>(items.drop_last());
    } else {
        assert(capability::valid_ones::<T>(items) =~= Seq::empty());
        assert(items.filter(fine) =~= Seq::empty());
    }
}

/// What is loaded are the items that no other shadows, in order, without those that something is
/// wrong with, unless these are asked for too. The sources and the warnings of the answers are
/// passed on.
pub proof fn law_what_is_loaded<T: Sourced>(
    providers: Seq<ProviderView>,
    outcomes: Seq<OutcomeView<T::V>>,
    options: LoadOptionsView,
)
    ensures
        ({
            let r = capability::loaded::<T>(providers, outcomes, options);
            let off = if options.include_disabled {
                Seq::empty()
            } else {
                options.disabled_extensions
            };
            let g = capability::gathered::<T>(providers, outcomes, off);
            let first = r.all.filter(|x: (T::V, bool)| !x.1).map_values(|x: (T::V, bool)| x.0);
            &&& options.include_invalid ==> r.items == first && r.warnings == g.warnings
            &&& !options.include_invalid ==> r.items == first.filter(
                |v: T::V| T::problem_of(v) is None,
            )
            &&& r.providers == g.providers
            &&& r.warnings.len() >= g.warnings.len()
            &&& r.warnings.take(g.warnings.len() as int) == g.warnings
        }),
{
    let r = capability::loaded::<T>(providers, outcomes, options);
    let off = if options.include_disabled {
        Seq::empty()
    } else {
        options.disabled_extensions
    };
    let g = capability::gathered::<T>(providers, outcomes, off);
    lemma_first_ones(r.all);
    lemma_valid_ones::<T>(capability::first_ones(r.all));
    assert(r.warnings.take(g.warnings.len() as int) =~= g.warnings);
}

/// Of each item that something is wrong with, the host is told where it is and what.
pub proof fn law_what_is_wrong_is_told<T: Sourced>(items: Seq<T::V>, item: T::V)
    ensures
        capability::complaints::<T>(Seq::empty()).len() == 0,
        capability::complaints::<T>(items.push(item)) == (match T::problem_of(item) {
            Some(e) => seq![
                "["@ + T::source_of(item).provider_name + "] "@ + ("Invalid item at "@
                    + T::source_of(item).path + ": "@ + e),
            ] + capability::complaints::<T>(items),
            None => capability::complaints::<T>(items),
        }),
{
    assert(items.push(item).drop_last() =~= items);
}

/// The items that are to be seen are those that are not hidden, in order.
pub proof fn law_hidden_items_are_not_seen<T: Sourced>(items: Seq<(T::V, bool)>, n: int)
    requires
        0 < n <= items.len(),
    ensures
        capability::visible::<T>(items, 0).len() == 0,
        items[n - 1].1 ==> capability::visible::<T>(items, n) == capability::visible::<T>(
            items,
            n - 1,
        ),
        !items[n - 1].1 ==> {
            let all = capability::visible::<T>(items, n);
            let have = capability::visible::<T>(items, n - 1);
            all.len() == have.len() + 1 && all.drop_last() == have && all.last().0 == items[n - 1].0
        },
{
    if !items[n - 1].1 {
        assert(capability::visible::<T>(items, n).drop_last() =~= capability::visible::<T>(
            items,
            n - 1,
        ));
    }
}

// ------------------------------------------------------------------ whose files count

/// The configuration of the user counts for a tool that is not switched off: always where it is not
/// a foreign one; for a foreign one only where it is asked for, all are, or it is opted in.
pub proof fn law_whose_configuration_counts(ctx: LoadContextView, id: Seq<char>)
    requires
        id.len() == 0 || id[0] != '.',
    ensures
        ({
            let on = capability::user_source_enabled(ctx, id);
            let opted = ctx.policy.enabled_user_sources;
            let asked = ctx.explicit_providers matches Some(ids) && ids.contains(id);
            &&& ctx.policy.disabled.contains(id) ==> !on
            &&& !ctx.policy.disabled.contains(id) && !capability::is_foreign(id) ==> on
            &&& !ctx.policy.disabled.contains(id) && (asked || ctx.include_opt_out_user_sources
                || opted.contains(id) || opted.contains("*"@) || opted.contains("all"@)) ==> on
            &&& capability::is_foreign(id) && id != foreign::id() && id != foreign::plugins_id()
                && !asked && !ctx.include_opt_out_user_sources && !opted.contains(id)
                && !opted.contains("*"@) && !opted.contains("all"@) ==> !on
            &&& capability::user_source_enabled(ctx, seq!['.'] + id) == on
        }),
        capability::is_foreign("cursor"@) && capability::is_foreign("codex"@)
            && capability::is_foreign("gemini"@) && capability::is_foreign("opencode"@)
            && capability::is_foreign("windsurf"@) && capability::is_foreign("github"@),
        capability::is_foreign(foreign::id()) && capability::is_foreign(foreign::plugins_id()),
{
    assert((seq!['.'] + id).skip(1) =~= id);
    assert((seq!['.'] + id)[0] == '.');
}

/// A variable that is blank sets nothing; a list is split at its commas; the home of the system
/// below counts only where that system is there and can be reached.
pub proof fn law_what_the_environment_sets(dirs: HostDirsView, env: HostEnvView)
    ensures
        ({
            let d = capability::dirs_with_env(dirs, env);
            let below = env.linux && ((env.wsl_distro_name matches Some(s) && s.len() > 0) || (
            env.wsl_interop matches Some(s) && s.len() > 0));
            &&& env.copilot_home is None ==> d.copilot_home is None
            &&& env.copilot_home matches Some(s) ==> d.copilot_home == (if text::trim(
                Space::Unicode,
                s,
            ).len() > 0 {
                Some(text::trim(Space::Unicode, s))
            } else {
                None
            })
            &&& env.claude_config_dir is None ==> d.claude_config_dir is None
            &&& env.claude_config_dir matches Some(s) ==> d.claude_config_dir == (if text::trim(
                Space::Unicode,
                s,
            ).len() > 0 {
                Some(paths::resolved(env.current, text::trim(Space::Unicode, s)))
            } else {
                None
            })
            &&& !below || env.user_profile is None ==> d.extra_user_homes == dirs.extra_user_homes
            &&& below && env.user_profile is Some ==> d.extra_user_homes == (
            match capability::wsl_mount(env.user_profile.unwrap()) {
                Some(p) => seq![p],
                None => dirs.extra_user_homes,
            })
            &&& d.native_name == dirs.native_name && d.native_user_dir == dirs.native_user_dir
                && d.native_project_dir == dirs.native_project_dir
        }),
{
}

/// The texts without the space around them, but for those that are blank.
pub open spec fn trimmed_items(pieces: Seq<Seq<char>>) -> Seq<Seq<char>> {
    pieces.map_values(|p: Seq<char>| text::trim(Space::Unicode, p)).filter(
        |p: Seq<char>| p.len() > 0,
    )
}

proof fn lemma_list_items(pieces: Seq<Seq<char>>)
    ensures
        capability::list_items(pieces) == trimmed_items(pieces),
    decreases pieces.len(),
{
    reveal(Seq::filter);
    let f = |p: Seq<char>| text::trim(Space::Unicode, p);
    if pieces.len() > 0 {
        lemma_list_items(pieces.drop_last());
        assert(pieces.map_values(f).drop_last() =~= pieces.drop_last().map_values(f));
        assert(pieces.map_values(f).last() == text::trim(Space::Unicode, pieces.last()));
    } else {
        assert(capability::list_items(pieces) =~= Seq::empty());
        assert(trimmed_items(pieces) =~= Seq::empty());
    }
}

/// A list in a variable holds the items between its commas, in order, without the space around
/// them; blank ones do not count.
pub proof fn law_lists_in_variables(pieces: Seq<Seq<char>>)
    requires
        pieces.len() > 0,
        forall|i: int| 0 <= i < pieces.len() ==> !(#[trigger] pieces[i]).contains(','),
    ensures
        capability::comma_list(Some(text::join(pieces, seq![',']))) == trimmed_items(pieces),
        capability::comma_list(None).len() == 0,
{
    assert(text::pieces_without(pieces, ','));
    text::law_joined_pieces_split(pieces, ',');
    lemma_list_items(pieces);
}

// ------------------------------------------------------------------ where files are

/// At each place that holds a file the file is found, with what it holds and where it is; places
/// are looked at in order, and an empty file counts only where the place says so.
pub proof fn law_what_is_found_at_places(
    fs: FsView,
    provider: Seq<char>,
    spots: Seq<SpotView>,
    s: SpotView,
)
    ensures
        context_files::files_at(fs, provider, Seq::empty()).len() == 0,
        ({
            let have = context_files::files_at(fs, provider, spots);
            let all = context_files::files_at(fs, provider, spots.push(s));
            let held = files::file_at(fs, s.path);
            let counts = held is Some && (held.unwrap().len() > 0 || s.keep_empty);
            &&& !counts ==> all == have
            &&& counts ==> {
                &&& all.len() == have.len() + 1
                &&& all.drop_last() == have
                &&& all.last().path == s.path
                &&& all.last().content == held.unwrap()
                &&& all.last().level == s.level
                &&& all.last().depth == s.depth
                &&& all.last().source.provider == provider
                &&& all.last().source.level == s.level
                &&& all.last().source.path == paths::resolved(fs.current, s.path)
            }
        }),
{
    assert(spots.push(s).drop_last() =~= spots);
    let have = context_files::files_at(fs, provider, spots);
    let all = context_files::files_at(fs, provider, spots.push(s));
    if all != have {
        assert(all.drop_last() =~= have);
    }
}

/// The native directory of a project is the nearest one that holds anything: in the working
/// directory, or else as seen from the directory above it, one level further up, but never above
/// the root of the repository.
pub proof fn law_the_nearest_native_directory_counts(
    fs: FsView,
    ctx: LoadContextView,
    dir: Seq<char>,
    depth: int,
)
    requires
        0 <= depth < i64::MAX,
    ensures
        ({
            let native = paths::joined(dir, ctx.dirs.native_project_dir);
            let found = context_files::nearest_native(fs, ctx, dir, depth);
            let here = files::listing_at(fs, native).entries.len() > 0;
            let top = ctx.repo_root matches Some(root) && paths::same_place(root, dir);
            &&& here ==> found == Some((paths::resolved(fs.current, native), depth))
            &&& !here && (top || paths::parent_of(dir) is None) ==> found is None
            &&& !here && !top && paths::parent_of(dir) is Some ==> found
                == context_files::nearest_native(
                fs,
                ctx,
                paths::parent_of(dir).unwrap(),
                depth + 1,
            )
        }),
{
}

/// The places of the foreign tools in the home directory are looked at only where their
/// configuration counts, as places of the user.
pub proof fn law_foreign_places(ctx: LoadContextView)
    ensures
        ({
            let codex = context_files::codex_spots(ctx);
            let opencode = context_files::opencode_spots(ctx);
            let gemini = context_files::gemini_spots(ctx);
            &&& codex.len() == 1 <==> capability::user_source_enabled(ctx, "codex"@)
            &&& codex.len() == 0 <==> !capability::user_source_enabled(ctx, "codex"@)
            &&& codex.len() == 1 ==> codex[0].level is User && codex[0].path == paths::joined(
                paths::joined(ctx.home, ".codex"@),
                "AGENTS.md"@,
            )
            &&& opencode.len() == 1 <==> capability::user_source_enabled(ctx, "opencode"@)
            &&& opencode.len() == 1 ==> opencode[0].level is User && opencode[0].path
                == paths::joined(
                paths::joined(paths::joined(ctx.home, ".config"@), "opencode"@),
                "AGENTS.md"@,
            )
            &&& gemini.len() == 2 <==> capability::user_source_enabled(ctx, "gemini"@)
            &&& gemini.len() == 1 <==> !capability::user_source_enabled(ctx, "gemini"@)
            &&& gemini.last().level is Project && gemini.last().path == paths::joined(
                paths::joined(ctx.cwd, ".gemini"@),
                "GEMINI.md"@,
            )
            &&& gemini.len() == 2 ==> gemini[0].level is User && gemini[0].path == paths::joined(
                paths::joined(ctx.home, ".gemini"@),
                "GEMINI.md"@,
            )
        }),
        ({
            let github = context_files::github_spots(ctx);
            let n: int = if capability::user_source_enabled(ctx, "github"@) {
                1
            } else {
                0
            };
            let more = ctx.dirs.copilot_custom_instruction_dirs;
            &&& github.len() == 1 + n + more.len()
            &&& github[0].level is Project && github[0].path == paths::joined(
                paths::joined(ctx.cwd, ".github"@),
                "copilot-instructions.md"@,
            )
            &&& forall|i: int|
                0 <= i < more.len() ==> (#[trigger] github[1 + n + i]).path == paths::joined(
                    more[i],
                    "AGENTS.md"@,
                ) && github[1 + n + i].level is User
        }),
{
}

/// How far up standalone files are looked for. Outside of repositories: up to the home directory,
/// and it counts, or else up to the root of the file system, and it does not. In a repository
/// below the home directory: up to the home directory, and it does not count. In any other one:
/// up to its root, and it counts.
pub proof fn law_how_far_up_files_are_looked_for(
    current: Seq<char>,
    home: Seq<char>,
    cwd: Seq<char>,
    repo: Option<Seq<char>>,
)
    ensures
        ({
            let r = context_files::reach(current, home, cwd, repo);
            let at_home = paths::within(current, home, cwd);
            match repo {
                None => {
                    &&& !r.to_home
                    &&& at_home ==> r.boundary == home && r.with_boundary
                    &&& !at_home ==> r.boundary == seq!['/'] && !r.with_boundary
                },
                Some(root) => {
                    let below = at_home && paths::within(current, home, root) && root != home;
                    &&& r.to_home == below
                    &&& below ==> r.boundary == home && !r.with_boundary
                    &&& !below ==> r.boundary == root && r.with_boundary
                },
            }
        }),
{
}

/// Standalone files are looked for in every directory on the way up that counts: hidden ones do
/// not, nor does a boundary that is out of reach.
pub proof fn law_which_directories_count(
    r: context_files::ReachView,
    home: Seq<char>,
    cwd: Seq<char>,
    dirs: Seq<Seq<char>>,
    dir: Seq<char>,
    name: Seq<char>,
)
    ensures
        context_files::standalone_spots(r, home, cwd, Seq::empty(), name).len() == 0,
        ({
            let have = context_files::standalone_spots(r, home, cwd, dirs, name);
            let all = context_files::standalone_spots(r, home, cwd, dirs.push(dir), name);
            let hidden = paths::name_of(dir).len() > 0 && paths::name_of(dir)[0] == '.';
            let out = (r.to_home && dir == home) || (dir == r.boundary && !r.with_boundary);
            &&& hidden || out ==> all == have
            &&& !hidden && !out ==> all.len() == have.len() + 1 && all.drop_last() == have
                && all.last().path == paths::joined(dir, name) && all.last().level is Project
                && !all.last().keep_empty
        }),
{
    assert(dirs.push(dir).drop_last() =~= dirs);
    let have = context_files::standalone_spots(r, home, cwd, dirs, name);
    let all = context_files::standalone_spots(r, home, cwd, dirs.push(dir), name);
    if all != have {
        assert(all.drop_last() =~= have);
    }
}

/// A system prompt is found at each place that holds one, with what it holds and where it is.
pub proof fn law_which_system_prompts_are_found(
    fs: FsView,
    provider: Seq<char>,
    spots: Seq<PromptSpotView>,
    s: PromptSpotView,
)
    ensures
        system_md::prompts_at(fs, provider, Seq::empty()).len() == 0,
        ({
            let have = system_md::prompts_at(fs, provider, spots);
            let all = system_md::prompts_at(fs, provider, spots.push(s));
            let held = files::file_at(fs, s.path);
            let counts = held is Some && (held.unwrap().len() > 0 || s.keep_empty);
            &&& !counts ==> all == have
            &&& counts ==> all.len() == have.len() + 1 && all.drop_last() == have
                && all.last().path == s.path && all.last().content == held.unwrap()
                && all.last().level == s.level && all.last().source.provider == provider
        }),
{
    assert(spots.push(s).drop_last() =~= spots);
    let have = system_md::prompts_at(fs, provider, spots);
    let all = system_md::prompts_at(fs, provider, spots.push(s));
    if all != have {
        assert(all.drop_last() =~= have);
    }
}

/// The directories of the user's configuration: the native one first, then those of the foreign
/// tools whose configuration counts. Those of a project are all in the working directory.
pub proof fn law_where_configuration_lies(d: project::DiscoveryView, cwd: Seq<char>)
    ensures
        ({
            let here = paths::resolved(d.fs.current, cwd);
            let user = config_files::config_dirs_at(d, cwd, ConfigLevel::User);
            let mine = config_files::config_dirs_at(d, cwd, ConfigLevel::Project);
            let ctx = project::context_at(d, here);
            &&& user.len() > 0 && user[0] == paths::resolved(d.fs.current, d.dirs.native_user_dir)
            &&& capability::user_source_enabled(ctx, ".codex"@) ==> user.contains(
                paths::joined(d.home, ".codex"@),
            )
            &&& capability::user_source_enabled(ctx, ".gemini"@) ==> user.last() == paths::joined(
                d.home,
                ".gemini"@,
            )
            &&& !capability::user_source_enabled(ctx, ".codex"@)
                && !capability::user_source_enabled(ctx, ".gemini"@)
                && !capability::user_source_enabled(ctx, foreign::dir()) ==> user.len() == 1
            &&& mine.len() == 4 && mine[0] == paths::joined(here, d.dirs.native_project_dir)
            &&& mine[1] == paths::joined(here, foreign::dir()) && mine[2] == paths::joined(
                here,
                ".codex"@,
            ) && mine[3] == paths::joined(here, ".gemini"@)
        }),
{
    let here = paths::resolved(d.fs.current, cwd);
    let user = config_files::config_dirs_at(d, cwd, ConfigLevel::User);
    let ctx = project::context_at(d, here);
    if capability::user_source_enabled(ctx, ".codex"@) {
        let k: int = if capability::user_source_enabled(ctx, foreign::dir()) {
            2
        } else {
            1
        };
        assert(user[k] == paths::joined(d.home, ".codex"@));
    }
}

// ------------------------------------------------------------------ what reaches the prompt

/// Paragraphs stand next to one another in a text exactly where the text is something, these
/// paragraphs, and something else.
pub proof fn law_when_a_text_holds_another(
    before: Seq<Seq<char>>,
    rule: Seq<Seq<char>>,
    after: Seq<Seq<char>>,
    source: Seq<Seq<char>>,
)
    ensures
        rule.len() > 0 ==> project::contains_run(before + rule + after, rule),
        rule.len() == 0 ==> !project::contains_run(source, rule),
        project::contains_run(source, rule) ==> exists|a: Seq<Seq<char>>, b: Seq<Seq<char>>|
            source == #[trigger] (a + rule + b),
{
    let all = before + rule + after;
    let n = before.len() as int;
    if rule.len() > 0 {
        assert(all.subrange(n, n + rule.len()) =~= rule);
        assert(project::run_at(all, rule, n));
    }
    if project::contains_run(source, rule) {
        let i = choose|i: int|
            0 <= i && i + rule.len() <= source.len() && #[trigger] project::run_at(source, rule, i);
        let a = source.take(i);
        let b = source.skip(i + rule.len());
        assert(source =~= a + source.subrange(i, i + rule.len()) + b);
        assert(source == a + rule + b);
    }
}

/// A blank line ends a paragraph, unless it stands in fenced code, where nothing ends; a fence is
/// part of its paragraph, and opens or closes the code.
pub proof fn law_where_paragraphs_end(b: BlocksView, line: Seq<char>)
    ensures
        ({
            let n = project::block_line(b, line);
            let start = text::trim_start(Space::Js, line);
            let fence = text::stands_at(start, 0, "```"@) || text::stands_at(start, 0, "~~~"@);
            let blank = text::trim(Space::Js, line).len() == 0;
            let paragraph = text::trim(Space::Js, text::join(b.current, seq!['\n']));
            &&& fence ==> n.in_fence == !b.in_fence && n.current == b.current.push(line)
                && n.blocks == b.blocks
            &&& !fence ==> n.in_fence == b.in_fence
            &&& !fence && (b.in_fence || !blank) ==> n.current == b.current.push(line) && n.blocks
                == b.blocks
            &&& !fence && !b.in_fence && blank && b.current.len() > 0 && text::trim(
                Space::Js,
                b.current.last(),
            ).len() > 0 ==> n.current.len() == 0 && n.blocks == (if paragraph.len() > 0 {
                b.blocks.push(paragraph)
            } else {
                b.blocks
            })
        }),
{
}

/// A file whose paragraphs no closer file holds reaches the prompt.
pub proof fn law_what_is_not_repeated_stays(files: Seq<ProjectContextFileView>, k: int)
    requires
        0 <= k < project::ranked(files, FIRST as int).len(),
        forall|j: int|
            k < j < project::ranked(files, FIRST as int).len() ==> !project::contains_run(
                project::comparable_blocks(
                    (#[trigger] project::ranked(files, FIRST as int)[j]).content,
                ),
                project::comparable_blocks(project::ranked(files, FIRST as int)[k].content),
            ),
    ensures
        project::deduped(files).contains(project::ranked(files, FIRST as int)[k]),
{
    let all = project::ranked(files, FIRST as int);
    assert(!project::is_repeated(all, k));
    lemma_stays(all, 0, k);
}

proof fn lemma_stays(files: Seq<ProjectContextFileView>, i: int, k: int)
    requires
        0 <= i <= k < files.len(),
        !project::is_repeated(files, k),
    ensures
        project::unrepeated_from(files, i).contains(files[k]),
    decreases k - i,
{
    let here = project::unrepeated_from(files, i);
    if i == k {
        assert(here[0] == files[k]);
    } else {
        lemma_stays(files, i + 1, k);
        let rest = project::unrepeated_from(files, i + 1);
        let at = choose|at: int| 0 <= at < rest.len() && rest[at] == files[k];
        if project::is_repeated(files, i) {
            assert(here == rest);
        } else {
            assert(here[at + 1] == files[k]);
        }
    }
}

} // verus!
