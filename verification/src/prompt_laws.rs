//! What the system prompt is made of.
use crate::capability;
use crate::files;
use crate::files::{DirEntryView, FsView};
use crate::json;
use crate::json::{Entries, JsonView};
use crate::paths;
use crate::project;
use crate::project::DiscoveryView;
use crate::skills::LoadedSkillView;
use crate::sse;
use crate::system_md;
use crate::system_prompt;
use crate::system_prompt::{
    FactView, FileReadView, HostFactsView, Personality, PromptInputsView, PromptTemplatesView,
    SystemPromptOptionsView,
};
use crate::text;
use crate::text::Space;
use vstd::prelude::*;

verus! {

/// An input with several lines is the text itself. Any other one is the name of a file, and stands
/// for what that holds; where it cannot be read, for itself, and that is told unless there is no
/// such file. An empty one stands for nothing.
pub proof fn law_what_an_input_stands_for(s: Seq<char>, what: Seq<char>, read: FileReadView)
    ensures
        s.len() == 0 ==> system_prompt::prompt_input(Some(s), read) is None,
        s.contains('\n') ==> system_prompt::prompt_input(Some(s), read) == Some(s),
        s.contains('\n') ==> system_prompt::input_warnings(Some(s), what, read).len() == 0,
        s.len() > 0 && !s.contains('\n') ==> (match read {
            FileReadView::Bytes(b) => system_prompt::prompt_input(Some(s), read) == Some(
                sse::utf8_text(b),
            ) && system_prompt::input_warnings(Some(s), what, read).len() == 0,
            FileReadView::Missing => system_prompt::prompt_input(Some(s), read) == Some(s)
                && system_prompt::input_warnings(Some(s), what, read).len() == 0,
            FileReadView::Failed(e) => system_prompt::prompt_input(Some(s), read) == Some(s)
                && system_prompt::input_warnings(Some(s), what, read) == seq![
                "Could not read "@ + what + " file "@ + s + ": "@ + e,
            ],
        }),
        system_prompt::prompt_input(None, read) is None,
{
}

/// A plain manner asks for nothing. Any other one is that of the user's file, where it says
/// anything, or else the one that is set.
pub proof fn law_which_manner_is_asked_for(
    t: PromptTemplatesView,
    p: Personality,
    read: FileReadView,
)
    ensures
        ({
            let m = system_prompt::manner(t, p, read);
            let own: Seq<char> = match read {
                FileReadView::Bytes(b) => text::trim(Space::Unicode, sse::utf8_text(b)),
                _ => Seq::empty(),
            };
            &&& p is Plain ==> m.len() == 0
            &&& !(p is Plain) && own.len() > 0 ==> m == own
            &&& p is Default && own.len() == 0 ==> m == text::trim(
                Space::Unicode,
                t.default_personality,
            )
            &&& p is Friendly && own.len() == 0 ==> m == text::trim(
                Space::Unicode,
                t.friendly_personality,
            )
            &&& p is Pragmatic && own.len() == 0 ==> m == text::trim(
                Space::Unicode,
                t.pragmatic_personality,
            )
        }),
{
}

/// A text counts where it says anything that none of two others says already.
pub proof fn law_what_is_said_is_not_said_again(
    s: Seq<char>,
    one: Option<Seq<char>>,
    two: Option<Seq<char>>,
)
    ensures
        ({
            let t = text::trim(Space::Js, s);
            let blocks = project::comparable_blocks(t);
            let in_one = one matches Some(a) && project::contains_run(
                project::comparable_blocks(a),
                blocks,
            );
            let in_two = two matches Some(b) && project::contains_run(
                project::comparable_blocks(b),
                blocks,
            );
            &&& in_one || in_two ==> system_prompt::deduped_source(Some(s), one, two).len() == 0
            &&& !in_one && !in_two ==> system_prompt::deduped_source(Some(s), one, two) == t
        }),
        system_prompt::deduped_source(None, one, two).len() == 0,
{
    let t = text::trim(Space::Js, s);
    let none = project::comparable_blocks(Seq::empty());
    assert(none.len() == 0) by {
        assert(text::trim(Space::Js, Seq::<char>::empty()).len() == 0);
    }
    if t.len() == 0 {
        assert(system_prompt::deduped_source(Some(s), one, two) =~= t);
    }
}

/// Systems and processors go by the names that are usual for them.
pub proof fn law_what_machines_are_called(name: Seq<char>)
    ensures
        system_prompt::platform_name("macos"@) == "darwin"@,
        system_prompt::platform_name("windows"@) == "win32"@,
        name != "macos"@ && name != "windows"@ ==> system_prompt::platform_name(name) == name,
        system_prompt::arch_name("x86_64"@) == "x64"@,
        system_prompt::arch_name("aarch64"@) == "arm64"@,
        system_prompt::arch_name("x86"@) == "ia32"@,
        name != "x86_64"@ && name != "aarch64"@ && name != "x86"@ ==> system_prompt::arch_name(name)
            == name,
{
    reveal_strlit("macos");
    reveal_strlit("windows");
    reveal_strlit("x86_64");
    reveal_strlit("aarch64");
    reveal_strlit("x86");
    assert("macos"@.len() == 5 && "windows"@.len() == 7);
    assert("x86_64"@.len() == 6 && "aarch64"@.len() == 7 && "x86"@.len() == 3);
}

/// The facts on a machine stand in a fixed order, under their labels; one that says nothing is
/// left out.
pub proof fn law_which_facts_are_told(f: HostFactsView)
    ensures
        ({
            let kernel = system_prompt::kernel_name(f.version, f.sysname, f.release);
            let cpu = system_prompt::cpu_model_of(f.cpuinfo);
            let terminal = system_prompt::terminal_of(f);
            system_prompt::facts_of(f) == told("OS"@, Some(
                system_prompt::platform_name(f.os) + " "@ + f.release,
            )) + told("Distro"@, Some(f.sysname)) + told("Kernel"@, Some(kernel)) + told(
                "Arch"@,
                Some(system_prompt::arch_name(f.arch)),
            ) + told("CPU"@, cpu) + told("Terminal"@, terminal)
        }),
{
    let kernel = system_prompt::kernel_name(f.version, f.sysname, f.release);
    assert(system_prompt::facts_of(f) =~= told("OS"@, Some(
        system_prompt::platform_name(f.os) + " "@ + f.release,
    )) + told("Distro"@, Some(f.sysname)) + told("Kernel"@, Some(kernel)) + told(
        "Arch"@,
        Some(system_prompt::arch_name(f.arch)),
    ) + told("CPU"@, system_prompt::cpu_model_of(f.cpuinfo)) + told(
        "Terminal"@,
        system_prompt::terminal_of(f),
    ));
}

/// A fact, where it says anything.
pub open spec fn told(label: Seq<char>, value: Option<Seq<char>>) -> Seq<FactView> {
    if value matches Some(v) && v.len() > 0 {
        seq![FactView { label, value: value.unwrap() }]
    } else {
        Seq::empty()
    }
}

/// The terminal is the program that says who it is, with its version where it tells that; else
/// what the variables tell, in their order.
pub proof fn law_which_terminal_is_told(f: HostFactsView)
    ensures
        ({
            let t = system_prompt::terminal_of(f);
            let named = f.term_program matches Some(p) && p.len() > 0;
            let versioned = f.term_program_version matches Some(v) && v.len() > 0;
            let term = capability::setting(f.term);
            let color = capability::setting(f.colorterm);
            &&& named && versioned ==> t == Some(
                f.term_program.unwrap() + " "@ + f.term_program_version.unwrap(),
            )
            &&& named && !versioned ==> t == f.term_program
            &&& !named && f.wt_session is Some ==> t == Some("Windows Terminal"@)
            &&& !named && f.wt_session is None && term is Some ==> t == term
            &&& !named && f.wt_session is None && term is None && color is Some ==> t == color
            &&& !named && f.wt_session is None && term is None && color is None ==> t
                == capability::setting(f.terminal_emulator)
        }),
{
}

/// A processor is named behind the colon of the first line that names a model.
pub proof fn law_which_processor_is_told(value: Seq<char>)
    requires
        !value.contains('\n'),
        text::trim(Space::Unicode, value).len() > 0,
    ensures
        system_prompt::model_in("model name"@ + seq!['\t', ':'] + value) == Some(
            text::trim(Space::Unicode, value),
        ),
        system_prompt::cpu_model_of(None) is None,
{
    reveal_strlit("model name");
    let line = "model name"@ + seq!['\t', ':'] + value;
    assert("model name"@.len() == 10);
    assert(line.subrange(0, 10) =~= "model name"@);
    let rest = line.skip(10);
    assert(rest =~= seq!['\t', ':'] + value);
    assert(rest[0] == '\t' && rest[1] == ':');
    text::lemma_trim_start(Space::Unicode, rest);
    reveal_with_fuel(text::trim_start, 3);
    let t = text::trim_start(Space::Unicode, rest);
    assert(rest.skip(1)[0] == ':');
    assert(t =~= rest.skip(1));
    assert(t.skip(1) =~= value);
}

// ------------------------------------------------------------------ repositories and roots

proof fn lemma_repo_names(fs: FsView, dir: Seq<char>, entries: Seq<DirEntryView>)
    ensures
        system_prompt::repo_names(fs, dir, entries) == entries.filter(holds_repo(fs, dir)).map_values(
            |e: DirEntryView| e.name,
        ),
    decreases entries.len(),
{
    reveal(Seq::filter);
    let keep = holds_repo(fs, dir);
    let name = |e: DirEntryView| e.name;
    if entries.len() > 0 {
        lemma_repo_names(fs, dir, entries.drop_last());
        let have = entries.drop_last().filter(keep);
        if keep(entries.last()) {
            assert(entries.filter(keep) =~= have.push(entries.last()));
            assert(have.push(entries.last()).map_values(name) =~= have.map_values(name).push(
                entries.last().name,
            ));
        } else {
            assert(entries.filter(keep) =~= have);
        }
    } else {
        assert(system_prompt::repo_names(fs, dir, entries) =~= Seq::empty());
        assert(entries.filter(keep).map_values(name) =~= Seq::empty());
    }
}

/// A directory, or a link to one, with a `.git` in it.
pub open spec fn holds_repo(fs: FsView, dir: Seq<char>) -> spec_fn(DirEntryView) -> bool {
    |e: DirEntryView|
        {
            let child = paths::joined(dir, e.name);
            let git = paths::joined(child, ".git"@);
            (e.is_dir || (e.is_link && files::is_dir_at(fs, child))) && (files::is_dir_at(fs, git)
                || files::is_file_at(fs, git))
        }
}

/// Outside of repositories, the repository right below the working directory is told of where it
/// is the only one there.
pub proof fn law_which_repository_is_told(d: DiscoveryView, cwd: Seq<char>)
    ensures
        ({
            let here = paths::resolved(d.fs.current, cwd);
            let repos = files::listing_at(d.fs, here).entries.filter(holds_repo(d.fs, here));
            let inside = files::repo_root_from(d.fs, paths::resolved(d.fs.current, here)) is Some;
            let told = system_prompt::active_repo_at(d, cwd);
            &&& told is Some <==> !inside && repos.len() == 1
            &&& told is Some ==> told == Some(repos[0].name)
        }),
{
    let here = paths::resolved(d.fs.current, cwd);
    lemma_repo_names(d.fs, here, files::listing_at(d.fs, here).entries);
}

proof fn lemma_other_roots(current: Seq<char>, cwd: Seq<char>, roots: Seq<Seq<char>>)
    ensures
        system_prompt::other_roots(current, cwd, roots) == roots.filter(
            |r: Seq<char>| paths::resolved(current, r) != cwd,
        ),
    decreases roots.len(),
{
    reveal(Seq::filter);
    let other = |r: Seq<char>| paths::resolved(current, r) != cwd;
    if roots.len() > 0 {
        lemma_other_roots(current, cwd, roots.drop_last());
    } else {
        assert(system_prompt::other_roots(current, cwd, roots) =~= Seq::empty());
        assert(roots.filter(other) =~= Seq::empty());
    }
}

proof fn lemma_shown_skills(all: Seq<LoadedSkillView>)
    ensures
        system_prompt::shown_skills(all) == all.filter(|s: LoadedSkillView| !s.hide),
    decreases all.len(),
{
    reveal(Seq::filter);
    let shown = |s: LoadedSkillView| !s.hide;
    if all.len() > 0 {
        lemma_shown_skills(all.drop_last());
    } else {
        assert(system_prompt::shown_skills(all) =~= Seq::empty());
        assert(all.filter(shown) =~= Seq::empty());
    }
}

/// The prompt is given what the host asks for: the roots other than the working directory, in
/// order; the skills that are not hidden, where a tool can read them; the model only where it is
/// asked for; the text to be appended; and a `SYSTEM.md` only where there is no custom prompt.
pub proof fn law_what_a_prompt_is_given(
    d: DiscoveryView,
    cwd: Seq<char>,
    o: SystemPromptOptionsView,
    f: HostFactsView,
    personality: Seq<char>,
)
    ensures
        ({
            let x = system_prompt::inputs_of(d, cwd, o, f, personality);
            let custom = o.custom_prompt matches Some(p) && p.len() > 0;
            &&& x.harness_name == o.harness_name
            &&& x.cwd == cwd
            &&& x.personality == personality
            &&& custom ==> x.custom == o.custom_prompt
            &&& !custom ==> x.custom is None
            &&& o.append_prompt matches Some(a) ==> x.append == a
            &&& o.append_prompt is None ==> x.append.len() == 0
            &&& o.include_model_in_prompt && o.model is Some ==> x.model == o.model.unwrap()
            &&& !o.include_model_in_prompt || o.model is None ==> x.model.len() == 0
            &&& x.roots == o.additional_workspace_roots.filter(
                |r: Seq<char>| paths::resolved(d.fs.current, r) != cwd,
            )
            &&& o.tools matches Some(t) ==> x.tools == t
            &&& o.skills matches Some(all) ==> x.skills == (if system_prompt::tool_names(
                x.tools,
            ).contains("read"@) {
                all.filter(|s: LoadedSkillView| !s.hide)
            } else {
                Seq::empty()
            })
            &&& !custom ==> x.customization == system_prompt::deduped_source(
                match system_md::chosen(system_md::system_prompts(d, cwd).items) {
                    Some(s) => Some(s.content),
                    None => None,
                },
                None,
                o.append_prompt,
            )
            &&& x.include_workspace_tree == o.include_workspace_tree
            &&& x.render_mermaid == o.render_mermaid && x.reactions == o.reactions
            &&& x.urls == o.urls
            &&& o.workspace_tree matches Some(w) ==> x.tree == w.rendered && x.tree_truncated
                == w.truncated
        }),
{
    lemma_other_roots(d.fs.current, cwd, o.additional_workspace_roots);
    if o.skills is Some {
        lemma_shown_skills(o.skills.unwrap());
    }
}

// ------------------------------------------------------------------ what the templates see

/// The templates see what the prompt is given under the names that they use.
pub proof fn law_what_the_templates_see(x: PromptInputsView)
    ensures
        ({
            let data = system_prompt::prompt_data(x);
            &&& data.contains(("harnessName"@, JsonView::String(x.harness_name)))
            &&& data.contains(("systemPromptCustomization"@, JsonView::String(x.customization)))
            &&& data.contains(
                (
                    "customPrompt"@,
                    match x.custom {
                        Some(c) => JsonView::String(c),
                        None => JsonView::Null,
                    },
                ),
            )
            &&& data.contains(("appendPrompt"@, JsonView::String(x.append)))
            &&& data.contains(("cwd"@, JsonView::String(system_prompt::with_slashes(x.cwd))))
            &&& data.contains(("model"@, JsonView::String(x.model)))
            &&& data.contains(("personality"@, JsonView::String(x.personality)))
            &&& data.contains(
                (
                    "tools"@,
                    JsonView::Array(
                        Seq::new(x.tools.len(), |i: int| JsonView::String(x.tools[i].name)),
                    ),
                ),
            )
            &&& data.contains(
                (
                    "additionalWorkspaceRoots"@,
                    JsonView::Array(Seq::new(x.roots.len(), |i: int| JsonView::String(x.roots[i]))),
                ),
            )
            &&& data.contains(
                ("includeWorkspaceTree"@, JsonView::Bool(x.include_workspace_tree)),
            )
            &&& data.contains(("renderMermaid"@, JsonView::Bool(x.render_mermaid)))
            &&& data.contains(("reactions"@, JsonView::Bool(x.reactions)))
            &&& data.contains(("contextFiles"@, system_prompt::context_json(x.context_files)))
            &&& data.contains(("skills"@, system_prompt::skills_json(x.skills)))
            &&& data.contains(("environment"@, system_prompt::facts_json(x.facts)))
            &&& data.contains(("urls"@, system_prompt::urls_json(x.urls)))
        }),
{
    let data = system_prompt::prompt_data(x);
    assert(data[0].1 == JsonView::String(x.harness_name));
    assert(data[1].1 == JsonView::String(x.customization));
    assert(data[2].0 == "customPrompt"@);
    assert(data[3].1 == JsonView::String(x.append));
    assert(system_prompt::texts_json(system_prompt::tool_names(x.tools))->Array_0 =~= Seq::new(
        x.tools.len(),
        |i: int| JsonView::String(x.tools[i].name),
    ));
    assert(data[4].0 == "tools"@);
    assert(data[10].0 == "environment"@);
    assert(data[11].0 == "contextFiles"@);
    assert(data[14].0 == "skills"@);
    assert(data[17].0 == "cwd"@);
    assert(system_prompt::texts_json(x.roots)->Array_0 =~= Seq::new(
        x.roots.len(),
        |i: int| JsonView::String(x.roots[i]),
    ));
    assert(data[18].0 == "additionalWorkspaceRoots"@);
    assert(data[19].0 == "model"@);
    assert(data[21].0 == "personality"@);
    assert(data[34].0 == "includeWorkspaceTree"@);
    assert(data[35].0 == "renderMermaid"@);
    assert(data[36].0 == "reactions"@);
    assert(data[42].0 == "urls"@);
}

/// Each context file and each skill is seen with what it says: a file with its path and its text,
/// a skill with its name and its description, a fact with its label.
pub proof fn law_what_lists_show(x: PromptInputsView, i: int)
    ensures
        0 <= i < x.context_files.len() ==> ({
            let all = system_prompt::context_json(x.context_files)->Array_0;
            &&& all.len() == x.context_files.len()
            &&& json::member(all[i], "path"@) == Some(
                JsonView::String(system_prompt::with_slashes(x.context_files[i].path)),
            )
            &&& json::member(all[i], "content"@) == Some(
                JsonView::String(x.context_files[i].content),
            )
        }),
        0 <= i < x.skills.len() ==> ({
            let all = system_prompt::skills_json(x.skills)->Array_0;
            &&& all.len() == x.skills.len()
            &&& json::member(all[i], "name"@) == Some(JsonView::String(x.skills[i].name))
            &&& json::member(all[i], "description"@) == Some(
                JsonView::String(x.skills[i].description),
            )
        }),
        0 <= i < x.facts.len() ==> ({
            let all = system_prompt::facts_json(x.facts)->Array_0;
            &&& all.len() == x.facts.len()
            &&& json::member(all[i], "label"@) == Some(JsonView::String(x.facts[i].label))
            &&& json::member(all[i], "value"@) == Some(JsonView::String(x.facts[i].value))
        }),
{
    reveal_strlit("path");
    reveal_strlit("content");
    reveal_strlit("name");
    reveal_strlit("description");
    reveal_strlit("label");
    reveal_strlit("value");
    assert("path"@.len() == 4 && "content"@.len() == 7);
    assert("name"@.len() == 4 && "description"@.len() == 11);
    assert("label"@[0] == 'l' && "value"@[0] == 'v');
    reveal_with_fuel(json::find_key, 3);
}

/// The prompt is the main block, that of the project where it says anything, and that on the
/// repository below where there is one and it says anything, in this order. With a custom prompt
/// the main block comes from the template for these. A template that does not render is an error.
pub proof fn law_the_blocks_of_a_prompt(
    t: PromptTemplatesView,
    data: Entries,
    custom: bool,
    repo: Option<Seq<char>>,
)
    ensures
        ({
            let blocks = system_prompt::blocks_of(t, data, custom, repo);
            let main = system_prompt::rendered(
                if custom {
                    t.custom
                } else {
                    t.system
                },
                data,
            );
            let second = system_prompt::rendered(
                t.project,
                system_prompt::project_data(data, custom),
            );
            let third = system_prompt::rendered(
                t.active_repo,
                seq![
                    (
                        "relativeRepoRoot"@,
                        JsonView::String(system_prompt::with_slashes(repo.unwrap())),
                    ),
                ],
            );
            &&& blocks is Ok <==> main is Ok && second is Ok && (repo is None || third is Ok)
            &&& blocks matches Ok(b) ==> b == seq![main->Ok_0] + said(second->Ok_0) + (
            if repo is Some {
                said(third->Ok_0)
            } else {
                Seq::empty()
            })
        }),
        !custom ==> system_prompt::project_data(data, custom) == data,
{
    let blocks = system_prompt::blocks_of(t, data, custom, repo);
    let main = system_prompt::rendered(
        if custom {
            t.custom
        } else {
            t.system
        },
        data,
    );
    let second = system_prompt::rendered(t.project, system_prompt::project_data(data, custom));
    if blocks is Ok {
        let one = system_prompt::with_text(seq![main->Ok_0], second->Ok_0);
        assert(one =~= seq![main->Ok_0] + said(second->Ok_0));
        if repo is Some {
            let third = system_prompt::rendered(
                t.active_repo,
                system_prompt::repo_data(repo.unwrap()),
            );
            assert(system_prompt::with_text(one, third->Ok_0) =~= one + said(third->Ok_0));
        } else {
            assert(one + Seq::<Seq<char>>::empty() =~= one);
        }
    }
}

/// A text without the space around it, where anything is left.
pub open spec fn said(s: Seq<char>) -> Seq<Seq<char>> {
    if text::trim(Space::Js, s).len() > 0 {
        seq![text::trim(Space::Js, s)]
    } else {
        Seq::empty()
    }
}

// ------------------------------------------------------------------ warnings and defaults

/// A file that asks for a manner is warned of where it is empty or cannot be read; one that is not
/// there, or not asked for, is not.
pub proof fn law_when_a_manner_is_warned_of(
    d: DiscoveryView,
    o: SystemPromptOptionsView,
    read: FileReadView,
)
    ensures
        ({
            let w = system_prompt::prompt_warnings(d, o, read);
            let path = paths::joined(d.dirs.native_user_dir, "PERSONALITY.md"@);
            &&& o.personality is Plain || read is Missing ==> w.len() == 0
            &&& !(o.personality is Plain) && read is Failed ==> w == seq![
                "Failed to read PERSONALITY.md; using the configured personality preset ("@ + path
                    + "): "@ + read->Failed_0,
            ]
            &&& !(o.personality is Plain) && read is Bytes ==> (w.len() > 0 <==> text::trim(
                Space::Unicode,
                sse::utf8_text(read->Bytes_0),
            ).len() == 0)
        }),
{
}

/// Without a list of tools the usual ones are listed; the repository below is the one that is told,
/// or else the one that is found.
pub proof fn law_what_holds_by_default(
    d: DiscoveryView,
    cwd: Seq<char>,
    o: SystemPromptOptionsView,
)
    ensures
        o.tools is None ==> ({
            let t = system_prompt::tools_of(o);
            t.len() == 4 && t[0].name == "read"@ && t[1].name == "bash"@ && t[2].name == "edit"@
                && t[3].name == "write"@
        }),
        o.active_repo_context matches Some(r) ==> system_prompt::repo_of(d, cwd, o) == r,
        o.active_repo_context is None ==> system_prompt::repo_of(d, cwd, o)
            == system_prompt::active_repo_at(d, cwd),
        o.context_files matches Some(own) ==> system_prompt::prompt_files(d, cwd, o)
            == project::deduped(
            own + system_prompt::files_of_roots(
                d,
                cwd,
                o.disabled_extensions,
                o.additional_workspace_roots,
            ),
        ),
{
}

/// The prompt for a directory is made of the blocks of its templates, given what the host asks for;
/// it fails only where a template does.
pub proof fn law_what_a_system_prompt_is(
    d: DiscoveryView,
    cwd: Seq<char>,
    o: SystemPromptOptionsView,
    t: PromptTemplatesView,
    f: HostFactsView,
    read: FileReadView,
)
    ensures
        ({
            let here = paths::resolved(d.fs.current, cwd);
            let x = system_prompt::inputs_of(
                d,
                here,
                o,
                f,
                system_prompt::manner(t, o.personality, read),
            );
            let blocks = system_prompt::blocks_of(
                t,
                system_prompt::prompt_data(x),
                o.custom_prompt matches Some(p) && p.len() > 0,
                system_prompt::repo_of(d, here, o),
            );
            let p = system_prompt::system_prompt_of(d, cwd, o, t, f, read);
            &&& blocks matches Ok(b) ==> (p matches Ok(q) && q.blocks == b && q.warnings
                == system_prompt::prompt_warnings(d, o, read))
            &&& blocks matches Err(e) ==> p == Err::<system_prompt::SystemPromptView, Seq<char>>(e)
        }),
{
}

/// Any address that is resolved makes the list of addresses show, each under its own name.
pub proof fn law_which_addresses_are_shown(x: PromptInputsView)
    ensures
        ({
            let v = system_prompt::urls_json(x.urls);
            let any = x.urls.skill || x.urls.rule || x.urls.agent || x.urls.history
                || x.urls.artifact || x.urls.local || x.urls.mcp || x.urls.github
                || x.urls.harness_docs is Some;
            v matches JsonView::Object(o) && o.contains(("any"@, JsonView::Bool(any)))
                && o.contains(("skill"@, JsonView::Bool(x.urls.skill))) && o.contains(
                ("rule"@, JsonView::Bool(x.urls.rule)),
            ) && o.contains(("local"@, JsonView::Bool(x.urls.local))) && o.contains(
                ("mcp"@, JsonView::Bool(x.urls.mcp)),
            ) && o.contains(("github"@, JsonView::Bool(x.urls.github)))
        }),
{
    let o = system_prompt::urls_json(x.urls)->Object_0;
    assert(o[0].0 == "any"@);
    assert(o[1].0 == "skill"@);
    assert(o[2].0 == "rule"@);
    assert(o[6].0 == "local"@);
    assert(o[7].0 == "mcp"@);
    assert(o[8].0 == "github"@);
}

} // verus!
