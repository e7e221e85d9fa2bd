//! Named files in the native and foreign configuration directories.
use crate::capability;
use crate::context_files;
use crate::context_files::claude_config_dir;
use crate::files;
use crate::files::FsView;
use crate::foreign;
use crate::paths;
use crate::paths::{join_path, resolve};
use crate::project;
use crate::project::{Discovery, DiscoveryView};
use crate::text;
use vstd::prelude::*;

verus! {

/// Which configuration directories are searched.
#[derive(Clone, Copy, Debug, PartialEq, Eq, Structural)]
pub enum ConfigLevel {
    User,
    Project,
}

/// A directory, where the configuration of its tool counts.
pub open spec fn one_if(cond: bool, dir: Seq<char>) -> Seq<Seq<char>> {
    if cond {
        seq![dir]
    } else {
        Seq::empty()
    }
}

/// The directories of a level, the highest priority first. Those of foreign tools in the home
/// directory only where they count; those of a project are in the working directory itself.
pub open spec fn config_dirs_at(d: DiscoveryView, cwd: Seq<char>, level: ConfigLevel) -> Seq<Seq<char>> {
    let here = paths::resolved(d.fs.current, cwd);
    match level {
        ConfigLevel::User => {
            let ctx = project::context_at(d, here);
            seq![paths::resolved(d.fs.current, d.dirs.native_user_dir)] + one_if(
                capability::user_source_enabled(ctx, foreign::dir()),
                context_files::claude_dir(ctx),
            ) + one_if(
                capability::user_source_enabled(ctx, ".codex"@),
                paths::joined(d.home, ".codex"@),
            ) + one_if(
                capability::user_source_enabled(ctx, ".gemini"@),
                paths::joined(d.home, ".gemini"@),
            )
        },
        ConfigLevel::Project => seq![
            paths::joined(here, d.dirs.native_project_dir),
            paths::joined(here, foreign::dir()),
            paths::joined(here, ".codex"@),
            paths::joined(here, ".gemini"@),
        ],
    }
}

/// The first directory from `i` on in which anything of the name is.
pub open spec fn first_with(fs: FsView, dirs: Seq<Seq<char>>, name: Seq<char>, i: int) -> Option<
    Seq<char>,
>
    decreases dirs.len() - i,
{
    if i < 0 || i >= dirs.len() {
        None
    } else if files::is_known_at(fs, paths::joined(dirs[i], name)) {
        Some(paths::joined(dirs[i], name))
    } else {
        first_with(fs, dirs, name, i + 1)
    }
}

/// The file of a name of a level.
pub open spec fn config_file(
    d: DiscoveryView,
    cwd: Seq<char>,
    name: Seq<char>,
    level: ConfigLevel,
) -> Option<Seq<char>> {
    first_with(d.fs, config_dirs_at(d, cwd, level), name, 0)
}

/// The file of a name: that of the project, or else that of the user.
pub open spec fn prompt_file(d: DiscoveryView, cwd: Seq<char>, name: Seq<char>) -> Option<Seq<char>> {
    match config_file(d, cwd, name, ConfigLevel::Project) {
        Some(p) => Some(p),
        None => config_file(d, cwd, name, ConfigLevel::User),
    }
}

impl Discovery {
    /// The directories of a level, the highest priority first.
    pub fn config_dirs(&mut self, cwd: &str, level: ConfigLevel) -> (r: Vec<String>)
        ensures
            final(self)@ == old(self)@,
            text::views(r@) == config_dirs_at(old(self)@, cwd@, level),
            files::only_adds(old(self).fs.wanted@, final(self).fs.wanted@),
            files::asked_nothing(old(self).fs.wanted@, final(self).fs.wanted@) ==> forall|more: FsView| #[trigger]
                files::extends(more, old(self)@.fs) ==>
                    config_dirs_at((DiscoveryView { fs: more, ..old(self)@ }), cwd@, level)
                        == config_dirs_at(old(self)@, cwd@, level),
    {
        proof {
            files::lemma_extends_current(self@.fs);
        }
        let ghost d = self@;
        let here = resolve(&self.fs.current, cwd);
        let mut out: Vec<String> = Vec::new();
        match level {
            ConfigLevel::User => {
                let ctx = self.context(&here);
                out.push(resolve(&self.fs.current, &self.dirs.native_user_dir));
                if ctx.is_user_source_enabled(&foreign::dir_text()) {
                    out.push(claude_config_dir(&ctx));
                }
                if ctx.is_user_source_enabled(".codex") {
                    out.push(join_path(&self.home, ".codex"));
                }
                if ctx.is_user_source_enabled(".gemini") {
                    out.push(join_path(&self.home, ".gemini"));
                }
            },
            ConfigLevel::Project => {
                out.push(join_path(&here, &self.dirs.native_project_dir));
                out.push(join_path(&here, &foreign::dir_text()));
                out.push(join_path(&here, ".codex"));
                out.push(join_path(&here, ".gemini"));
            },
        }
        assert(text::views(out@) =~= config_dirs_at(d, cwd@, level));
        out
    }

    /// The file of a name of a level: the first that is there, of whatever kind.
    pub fn find_config_file(&mut self, cwd: &str, name: &str, level: ConfigLevel) -> (r: Option<
        String,
    >)
        ensures
            final(self)@ == old(self)@,
            text::opt_view(r) == config_file(old(self)@, cwd@, name@, level),
            files::only_adds(old(self).fs.wanted@, final(self).fs.wanted@),
            files::asked_nothing(old(self).fs.wanted@, final(self).fs.wanted@) ==> forall|more: FsView| #[trigger]
                files::extends(more, old(self)@.fs) ==>
                    config_file((DiscoveryView { fs: more, ..old(self)@ }), cwd@, name@, level)
                        == config_file(old(self)@, cwd@, name@, level),
    {
        let ghost d = self@;
        let dirs = self.config_dirs(cwd, level);
        let ghost all = text::views(dirs@);
        let mut i: usize = 0;
        while i < dirs.len()
            invariant
                i <= dirs@.len(),
                self@ == d,
                d == old(self)@,
                all == text::views(dirs@),
                all == config_dirs_at(d, cwd@, level),
                first_with(d.fs, all, name@, 0) == first_with(d.fs, all, name@, i as int),
                files::only_adds(old(self).fs.wanted@, self.fs.wanted@),
                files::asked_nothing(old(self).fs.wanted@, self.fs.wanted@) ==> forall|
                    more: FsView,
                | #[trigger]
                    files::extends(more, d.fs) ==> config_dirs_at(
                        (DiscoveryView { fs: more, ..d }),
                        cwd@,
                        level,
                    ) == all && first_with(more, all, name@, 0) == first_with(
                        more,
                        all,
                        name@,
                        i as int,
                    ),
            decreases dirs@.len() - i,
        {
            let path = join_path(&dirs[i], name);
            assert(all[i as int] == dirs@[i as int]@);
            if self.fs.is_there(&path) {
                return Some(path);
            }
            i += 1;
        }
        None
    }

    /// The file of a name: that of the project, or else that of the user.
    pub fn discover_prompt_file(&mut self, cwd: &str, name: &str) -> (r: Option<String>)
        ensures
            final(self)@ == old(self)@,
            text::opt_view(r) == prompt_file(old(self)@, cwd@, name@),
            files::only_adds(old(self).fs.wanted@, final(self).fs.wanted@),
            files::asked_nothing(old(self).fs.wanted@, final(self).fs.wanted@) ==> forall|more: FsView| #[trigger]
                files::extends(more, old(self)@.fs) ==>
                    prompt_file((DiscoveryView { fs: more, ..old(self)@ }), cwd@, name@)
                        == prompt_file(old(self)@, cwd@, name@),
    {
        match self.find_config_file(cwd, name, ConfigLevel::Project) {
            Some(p) => Some(p),
            None => self.find_config_file(cwd, name, ConfigLevel::User),
        }
    }
}

// ------------------------------------------------------------------ laws

/// Where the project has the file, what the user has does not matter.
pub proof fn law_the_project_file_wins(d: DiscoveryView, cwd: Seq<char>, name: Seq<char>)
    requires
        config_file(d, cwd, name, ConfigLevel::Project) is Some,
    ensures
        prompt_file(d, cwd, name) == config_file(d, cwd, name, ConfigLevel::Project),
{
}

proof fn lemma_first_is_there(fs: FsView, dirs: Seq<Seq<char>>, name: Seq<char>, i: int)
    requires
        first_with(fs, dirs, name, i) is Some,
    ensures
        files::is_known_at(fs, first_with(fs, dirs, name, i).unwrap()),
    decreases dirs.len() - i,
{
    if 0 <= i < dirs.len() && !files::is_known_at(fs, paths::joined(dirs[i], name)) {
        lemma_first_is_there(fs, dirs, name, i + 1);
    }
}

/// A file that is found is there.
pub proof fn law_a_found_file_is_there(d: DiscoveryView, cwd: Seq<char>, name: Seq<char>)
    requires
        prompt_file(d, cwd, name) is Some,
    ensures
        files::is_known_at(d.fs, prompt_file(d, cwd, name).unwrap()),
{
    if config_file(d, cwd, name, ConfigLevel::Project) is Some {
        lemma_first_is_there(d.fs, config_dirs_at(d, cwd, ConfigLevel::Project), name, 0);
    } else {
        lemma_first_is_there(d.fs, config_dirs_at(d, cwd, ConfigLevel::User), name, 0);
    }
}

} // verus!
