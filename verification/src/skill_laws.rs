//! Which skills are read, which of them are wanted, and which one counts of several of a name.
use crate::capability;
use crate::capability::{Level, LoadContextView, SourceMetaView};
use crate::files;
use crate::files::{DirEntryView, FsView};
use crate::foreign;
use crate::frontmatter;
use crate::js;
use crate::js::Order;
use crate::json;
use crate::json::JsonView;
use crate::paths;
use crate::skills;
use crate::skills::{
    AimView, ChosenView, LoadedSkillView, ScanView, SkillView, SkillsSettingsView,
};
use crate::text;
use crate::text::Space;
use vstd::prelude::*;

verus! {

/// Skills are looked for in the visible directories, and in the links, below a directory, where
/// these hold a `SKILL.md` that is not empty.
pub proof fn law_where_skills_are_looked_for(
    fs: FsView,
    dir: Seq<char>,
    aim: AimView,
    entries: Seq<DirEntryView>,
    e: DirEntryView,
)
    ensures
        ({
            let have = skills::scan_entries(fs, dir, aim, entries);
            let all = skills::scan_entries(fs, dir, aim, entries.push(e));
            let path = paths::joined(paths::joined(dir, e.name), "SKILL.md"@);
            let hidden = e.name.len() > 0 && e.name[0] == '.';
            let held = files::file_at(fs, path);
            let looked = !hidden && (e.is_dir || e.is_link) && held is Some && held.unwrap().len()
                > 0;
            &&& !looked ==> all == have
            &&& looked ==> all == skills::with_skill(have, aim, path, e.name, held.unwrap())
        }),
        skills::scan_entries(fs, dir, aim, Seq::empty()).items.len() == 0,
        skills::scan_entries(fs, dir, aim, Seq::empty()).warnings.len() == 0,
{
    assert(entries.push(e).drop_last() =~= entries);
}

/// The file of a skill is read as frontmatter and a body. One that cannot be read is warned of; one
/// that is disabled, or lacks a description that is required, is left out without a word; every
/// other one is added, with its name, its place and its text.
pub proof fn law_what_is_read_of_a_skill(
    scan: ScanView,
    aim: AimView,
    path: Seq<char>,
    dir_name: Seq<char>,
    content: Seq<char>,
)
    ensures
        ({
            let next = skills::with_skill(scan, aim, path, dir_name, content);
            match frontmatter::frontmatter_of(content, skills::skill_options(path)) {
                Err(_) => next.items == scan.items && next.warnings == scan.warnings.push(
                    "Failed to read skill file: "@ + path,
                ),
                Ok(f) => {
                    let off = json::lookup(f.frontmatter, "enabled"@) == Some(
                        JsonView::Bool(false),
                    );
                    let described = json::lookup(f.frontmatter, "description"@) matches Some(v)
                        && js::is_truthy(v);
                    &&& next.warnings == scan.warnings
                    &&& off || (aim.require_description && !described) ==> next.items == scan.items
                    &&& !off && (!aim.require_description || described) ==> {
                        let s = next.items.last();
                        &&& next.items.len() == scan.items.len() + 1
                        &&& next.items.drop_last() == scan.items
                        &&& s.path == path && s.content == f.body && s.frontmatter == f.frontmatter
                        &&& s.level == aim.level && s.source.provider == aim.provider
                        &&& s.name == (match json::lookup(f.frontmatter, "name"@) {
                            Some(JsonView::String(n)) => if text::trim(Space::Js, n).len() > 0 {
                                text::trim(Space::Js, n)
                            } else {
                                dir_name
                            },
                            _ => dir_name,
                        })
                    }
                },
            }
        }),
{
    let next = skills::with_skill(scan, aim, path, dir_name, content);
    if next.items != scan.items {
        assert(next.items.drop_last() =~= scan.items);
    }
}

/// A skill is wanted where it is not switched off, no glob of those to be ignored matches it, and
/// one of those to be included does, where there are any.
pub proof fn law_which_skills_are_wanted(s: SkillsSettingsView, name: Seq<char>)
    ensures
        ({
            let ignored = exists|i: int|
                0 <= i < s.ignored_skills.len() && skills::glob_match(
                    #[trigger] s.ignored_skills[i],
                    name,
                ) == Some(true);
            let included = exists|i: int|
                0 <= i < s.include_skills.len() && skills::glob_match(
                    #[trigger] s.include_skills[i],
                    name,
                ) == Some(true);
            skills::is_wanted(s, name) <==> (!s.disabled_extensions.contains("skill:"@ + name)
                && !ignored && (included || s.include_skills.len() == 0))
        }),
{
}

/// Of several skills that providers offer under one name, the first that is wanted counts; a file
/// that is there already under another path is not offered twice.
pub proof fn law_the_first_skill_of_a_name_counts(
    c: ChosenView,
    fs: FsView,
    ctx: LoadContextView,
    s: SkillsSettingsView,
    skill: SkillView,
)
    ensures
        ({
            let n = skills::choose_default(c, fs, ctx, s, skill);
            let wanted = skills::is_wanted(s, skill.name) && skills::source_enabled(
                ctx,
                s,
                skill.source,
            );
            let place = files::real_at(fs, skill.path);
            let fresh = !paths::holds_place(c.reals, place);
            &&& !wanted || c.names.contains(skill.name) ==> n == c
            &&& wanted && !c.names.contains(skill.name) ==> n.names == c.names.push(skill.name)
                && n.warnings == c.warnings
            &&& wanted && !c.names.contains(skill.name) && !fresh ==> n.skills == c.skills
            &&& wanted && !c.names.contains(skill.name) && fresh ==> {
                let last = n.skills.last();
                &&& n.skills.len() == c.skills.len() + 1 && n.skills.drop_last() == c.skills
                &&& n.reals == c.reals.push(place)
                &&& last.name == skill.name && last.file_path == skill.path
                &&& last.source == skill.source.provider + ":"@ + (match skill.level {
                    Level::User => "user"@,
                    Level::Project => "project"@,
                    Level::Native => "native"@,
                })
            }
        }),
{
    let n = skills::choose_default(c, fs, ctx, s, skill);
    if n.skills != c.skills {
        assert(n.skills.drop_last() =~= c.skills);
    }
}

proof fn lemma_find_named(list: Seq<LoadedSkillView>, name: Seq<char>, i: int)
    requires
        0 <= i <= list.len(),
    ensures
        match skills::find_named(list, name, i) {
            Some(k) => i <= k < list.len() && list[k].name == name && forall|j: int|
                i <= j < k ==> (#[trigger] list[j]).name != name,
            None => forall|j: int| i <= j < list.len() ==> (#[trigger] list[j]).name != name,
        },
    decreases list.len() - i,
{
    if i < list.len() && list[i].name != name {
        lemma_find_named(list, name, i + 1);
    }
}

/// A skill of a custom directory takes the place of one of its name that a provider offers, gives
/// way, with a warning, to one of an earlier custom directory, and is added where there is none. A
/// file that is there already changes nothing.
pub proof fn law_custom_skills_take_the_place_of_others(c: ChosenView, fs: FsView, skill: SkillView)
    ensures
        ({
            let n = skills::choose_custom(c, fs, skill);
            let place = files::real_at(fs, skill.path);
            let there = paths::holds_place(c.reals, place);
            let at = skills::find_named(c.skills, skill.name, 0);
            &&& there ==> n == c
            &&& !there && at is None ==> {
                &&& n.skills.len() == c.skills.len() + 1 && n.skills.drop_last() == c.skills
                &&& n.skills.last().name == skill.name && n.skills.last().file_path == skill.path
                &&& n.skills.last().source == "custom:user"@ && n.warnings == c.warnings
                &&& forall|j: int|
                    0 <= j < c.skills.len() ==> (#[trigger] c.skills[j]).name != skill.name
            }
            &&& !there && at is Some ==> {
                let i = at.unwrap();
                let custom = text::stands_at(c.skills[i].source, 0, "custom:"@);
                &&& 0 <= i < c.skills.len() && c.skills[i].name == skill.name
                &&& custom ==> n.skills == c.skills && n.warnings.len() == c.warnings.len() + 1
                    && n.warnings.last().skill_path == skill.path
                &&& !custom ==> {
                    &&& n.skills.len() == c.skills.len() && n.warnings == c.warnings
                    &&& n.skills[i].file_path == skill.path && n.skills[i].name == skill.name
                    &&& n.skills[i].source == "custom:user"@
                    &&& forall|j: int|
                        0 <= j < c.skills.len() && j != i ==> #[trigger] n.skills[j] == c.skills[j]
                }
            }
        }),
{
    lemma_find_named(c.skills, skill.name, 0);
    let n = skills::choose_custom(c, fs, skill);
    if n.skills.len() > c.skills.len() {
        assert(n.skills.drop_last() =~= c.skills);
    }
}

/// The settings switch the skills of the native, the shared and the foreign directories on and off,
/// each for the user and for the project; the others of the user count where their tool does, and
/// those of a project always.
pub proof fn law_which_sources_of_skills_are_on(
    ctx: LoadContextView,
    s: SkillsSettingsView,
    meta: SourceMetaView,
)
    ensures
        ({
            let on = skills::source_enabled(ctx, s, meta);
            let p = meta.provider;
            &&& p == "native"@ && meta.level is User ==> on == s.enable_native_user
            &&& p == "native"@ && meta.level is Project ==> on == s.enable_native_project
            &&& p == "agents"@ && meta.level is User ==> on == s.enable_agents_user
            &&& p == "agents"@ && meta.level is Project ==> on == s.enable_agents_project
            &&& p == "codex"@ && meta.level is User ==> on == (s.enable_codex_user
                || capability::user_source_enabled(ctx, "codex"@))
            &&& p == "codex"@ && meta.level is Project ==> on
            &&& (p == "opencode"@ || p == "github"@) && meta.level is User ==> on
                == capability::user_source_enabled(ctx, p)
            &&& (p == "opencode"@ || p == "github"@) && meta.level is Project ==> on
            &&& p == foreign::id() && p != "codex"@ && meta.level is Project ==> on
                == s.enable_claude_project
            &&& p == foreign::id() && p != "codex"@ && meta.level is User ==> on == (
            s.enable_claude_user || capability::user_source_enabled(ctx, foreign::id()))
        }),
{
    reveal_strlit("native");
    reveal_strlit("agents");
    reveal_strlit("codex");
    reveal_strlit("opencode");
    reveal_strlit("github");
    assert("native"@.len() == 6 && "agents"@.len() == 6 && "codex"@.len() == 5);
    assert("native"@[0] == 'n' && "agents"@[0] == 'a' && "github"@[0] == 'g');
    assert("opencode"@.len() == 8 && "github"@.len() == 6);
    foreign_name();
}

/// The name of the foreign agent as a source.
proof fn foreign_name()
    ensures
        foreign::id().len() == 6,
        foreign::id()[0] == 'c',
{
    reveal_strlit("CLAUDE_CONFIG_DIR");
    let c = foreign::capitals();
    assert(c.len() == 6);
    assert(c[0] == 'C');
    assert(foreign::id()[0] == text::lower_char(c[0]));
}

/// A skill is offered under its name, with its description and its place; it is hidden where its
/// frontmatter says so, in either way.
pub proof fn law_how_a_skill_is_offered(skill: SkillView, source: Seq<char>, meta: SourceMetaView)
    ensures
        ({
            let o = skills::offered(skill, source, meta);
            let fm = skill.frontmatter;
            &&& o.name == skill.name && o.file_path == skill.path && o.source == source && o.meta
                == meta
            &&& json::lookup(fm, "description"@) matches Some(JsonView::String(d))
                ==> o.description == d
            &&& !(json::lookup(fm, "description"@) matches Some(JsonView::String(_)))
                ==> o.description.len() == 0
            &&& o.hide <==> json::lookup(fm, "hide"@) == Some(JsonView::Bool(true)) || json::lookup(
                fm,
                "disableModelInvocation"@,
            ) == Some(JsonView::Bool(true))
            &&& paths::parent_of(skill.path) matches Some(d) ==> o.base_dir == d
        }),
{
}

/// A source names a provider and a level.
pub proof fn law_what_a_source_names(provider: Seq<char>)
    requires
        provider.len() > 0,
        !provider.contains(':'),
    ensures
        skills::source_parts(provider + ":project"@) == (provider, Level::Project),
        skills::source_parts(provider + ":user"@) == (provider, Level::User),
        skills::source_parts(provider) == (provider, Level::User),
{
    reveal_strlit(":project");
    reveal_strlit(":user");
    reveal_strlit("project");
    reveal_strlit("user");
    assert(":project"@ =~= seq![':'] + "project"@);
    assert(":user"@ =~= seq![':'] + "user"@);
    lemma_parts(provider, "project"@, ":project"@);
    lemma_parts(provider, "user"@, ":user"@);
    assert("project"@.len() == 7 && "user"@.len() == 4);
    text::lemma_find_char(provider, ':', 0);
    match text::find_char(provider, ':', 0) {
        Some(i) => {
            assert(provider[i] == ':');
        },
        None => {},
    }
}

proof fn lemma_parts(provider: Seq<char>, level: Seq<char>, tail: Seq<char>)
    requires
        !provider.contains(':'),
        tail == seq![':'] + level,
    ensures
        text::find_char(provider + tail, ':', 0) == Some(provider.len() as int),
        (provider + tail).take(provider.len() as int) == provider,
        (provider + tail).skip(provider.len() as int + 1) == level,
{
    let s = provider + tail;
    let n = provider.len() as int;
    text::lemma_find_char(s, ':', 0);
    assert(s[n] == ':');
    match text::find_char(s, ':', 0) {
        Some(i) => {
            if i < n {
                assert(provider[i] == ':');
            }
        },
        None => {},
    }
    assert(s.take(n) =~= provider);
    assert(s.skip(n + 1) =~= level);
}

proof fn lemma_wanted_ones(s: SkillsSettingsView, list: Seq<SkillView>)
    ensures
        skills::wanted_ones(s, list) == list.filter(|k: SkillView| skills::is_wanted(s, k.name)),
    decreases list.len(),
{
    reveal(Seq::filter);
    if list.len() > 0 {
        lemma_wanted_ones(s, list.drop_last());
    } else {
        assert(skills::wanted_ones(s, list) =~= Seq::empty());
        assert(list.filter(|k: SkillView| skills::is_wanted(s, k.name)) =~= Seq::empty());
    }
}

/// Custom directories are read in order; of their skills those that are wanted count, and what was
/// wrong is told with the directory. A tilde stands for the home directory.
pub proof fn law_custom_directories_are_read_in_order(
    fs: FsView,
    home: Seq<char>,
    s: SkillsSettingsView,
    dirs: Seq<Seq<char>>,
    dir: Seq<char>,
)
    ensures
        ({
            let have = skills::custom_skills(fs, home, s, dirs);
            let all = skills::custom_skills(fs, home, s, dirs.push(dir));
            let scan = skills::custom_scan(fs, skills::untilded(dir, home));
            &&& all.0 == have.0 + scan.items.filter(|k: SkillView| skills::is_wanted(s, k.name))
            &&& all.1.len() == have.1.len() + scan.warnings.len()
        }),
        skills::custom_skills(fs, home, s, Seq::empty()).0.len() == 0,
        skills::untilded(seq!['~'], home) == home,
        dir.len() > 0 && dir[0] == '/' ==> skills::untilded(seq!['~'] + dir, home) == home + dir,
        dir.len() == 0 || dir[0] != '~' ==> skills::untilded(dir, home) == dir,
{
    assert(dirs.push(dir).drop_last() =~= dirs);
    lemma_wanted_ones(s, skills::custom_scan(fs, skills::untilded(dir, home)).items);
    let t = seq!['~'] + dir;
    if dir.len() > 0 {
        assert(t.len() >= 2 && t[0] == '~' && t[1] == dir[0]);
        assert(t.skip(1) =~= dir);
        assert(dir != seq!['~'] || dir[0] == '~');
    } else {
        assert(dir != seq!['~']);
    }
}

/// Skills stand by their names, in lower case letters first, then as they are, then by their
/// paths.
pub proof fn law_by_what_skills_are_ordered(
    a_name: Seq<char>,
    a_path: Seq<char>,
    b_name: Seq<char>,
    b_path: Seq<char>,
)
    ensures
        ({
            let o = skills::skill_order(a_name, a_path, b_name, b_path);
            let by_lower = js::text_order(skills::lowercase(a_name), skills::lowercase(b_name));
            let by_name = js::text_order(a_name, b_name);
            &&& by_lower != Order::Equal ==> o == by_lower
            &&& by_lower == Order::Equal && by_name != Order::Equal ==> o == by_name
            &&& by_lower == Order::Equal && by_name == Order::Equal ==> o == js::text_order(
                a_path,
                b_path,
            )
        }),
{
}

/// A warning on a directory names the directory; that on a second skill of a name names both files.
pub proof fn law_what_warnings_on_skills_say(
    fs: FsView,
    home: Seq<char>,
    s: SkillsSettingsView,
    dirs: Seq<Seq<char>>,
    i: int,
    skill: SkillView,
    other: LoadedSkillView,
)
    ensures
        skills::collision(skill, other).skill_path == skill.path,
        skills::collision(skill, other).message == "name collision: \""@ + skill.name
            + "\" already loaded from "@ + other.file_path + ", skipping this one"@,
        dirs.len() == 1 && 0 <= i < skills::custom_scan(
            fs,
            skills::untilded(dirs[0], home),
        ).warnings.len() ==> ({
            let told = skills::custom_skills(fs, home, s, dirs).1;
            let scan = skills::custom_scan(fs, skills::untilded(dirs[0], home));
            told.len() == scan.warnings.len() && told[i].message == scan.warnings[i]
                && told[i].skill_path == skills::untilded(dirs[0], home)
        }),
{
    if dirs.len() == 1 {
        reveal_with_fuel(skills::custom_skills, 2);
        let scan = skills::custom_scan(fs, skills::untilded(dirs[0], home));
        let told = skills::warnings_of(skills::untilded(dirs[0], home), scan.warnings);
        assert(Seq::<skills::SkillWarningView>::empty() + told =~= told);
    }
}

} // verus!
