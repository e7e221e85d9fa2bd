//! The context of a project: its instruction files, with their references replaced and what a closer
//! file repeats left out.
use crate::at_imports;
use crate::at_imports::{Expander, ExpanderView, ImportPolicy, MAX_AT_IMPORT_DEPTH};
use crate::capability;
use crate::capability::{
    Capability, CapabilityResult, CapabilityView, HostDirs, HostDirsView, LoadContext, LoadContextView,
    LoadOptions, LoadOptionsView, ProviderPolicy, ProviderPolicyView, SkillToggles, SourceMeta, SourceMetaView,
};
use crate::context_files;
use crate::context_files::{context_file_capability, ContextFile, ContextFileView};
use crate::files;
use crate::files::{FsCache, FsView};
use crate::js;
use crate::paths;
use crate::paths::resolve;
use crate::prompt_format;
use crate::prompt_format::FormatOptions;
use crate::skills;
use crate::skills::skill_capability;
use crate::text;
use crate::text::{clone_strings, is_at, same_text, split_text, to_chars, Space};
use vstd::prelude::*;

verus! {

/// A context file for the system prompt, with its references replaced.
#[derive(Debug, PartialEq)]
pub struct ProjectContextFile {
    pub path: String,
    pub content: String,
    pub depth: Option<i64>,
    /// Which provider found it.
    pub source: SourceMeta,
}

/// What a [`ProjectContextFile`] stands for.
#[verifier::ext_equal]
pub struct ProjectContextFileView {
    pub path: Seq<char>,
    pub content: Seq<char>,
    pub depth: Option<i64>,
    pub source: SourceMetaView,
}

impl View for ProjectContextFile {
    type V = ProjectContextFileView;

    open spec fn view(&self) -> ProjectContextFileView {
        ProjectContextFileView {
            path: self.path@,
            content: self.content@,
            depth: self.depth,
            source: self.source@,
        }
    }
}

impl Clone for ProjectContextFile {
    fn clone(&self) -> (r: ProjectContextFile)
        ensures
            r@ == self@,
    {
        ProjectContextFile {
            path: self.path.clone(),
            content: self.content.clone(),
            depth: self.depth,
            source: self.source.clone(),
        }
    }
}

// ------------------------------------------------------------------ paragraphs

/// Whether a line starts or ends fenced code.
pub open spec fn is_fence(line: Seq<char>) -> bool {
    let rest = text::trim_start(Space::Js, line);
    text::stands_at(rest, 0, "```"@) || text::stands_at(rest, 0, "~~~"@)
}

/// Whether a line is blank.
pub open spec fn is_blank_line(line: Seq<char>) -> bool {
    text::trim(Space::Js, line).len() == 0
}

/// How far a text is cut into paragraphs.
#[verifier::ext_equal]
pub struct BlocksView {
    pub blocks: Seq<Seq<char>>,
    pub current: Seq<Seq<char>>,
    pub in_fence: bool,
}

/// The paragraphs with one more, where it holds anything.
pub open spec fn with_block(blocks: Seq<Seq<char>>, lines: Seq<Seq<char>>) -> Seq<Seq<char>> {
    let block = text::trim(Space::Js, text::join(lines, seq!['\n']));
    if block.len() > 0 {
        blocks.push(block)
    } else {
        blocks
    }
}

/// The cut after one more line: a blank line ends a paragraph, except in fenced code.
pub open spec fn block_line(b: BlocksView, line: Seq<char>) -> BlocksView {
    if is_fence(line) {
        BlocksView { in_fence: !b.in_fence, current: b.current.push(line), ..b }
    } else if !b.in_fence && is_blank_line(line) && b.current.len() > 0 && !is_blank_line(
        b.current.last(),
    ) {
        BlocksView { blocks: with_block(b.blocks, b.current), current: Seq::empty(), ..b }
    } else {
        BlocksView { current: b.current.push(line), ..b }
    }
}

/// The cut after lines.
pub open spec fn block_lines(lines: Seq<Seq<char>>) -> BlocksView
    decreases lines.len(),
{
    if lines.len() == 0 {
        BlocksView { blocks: Seq::empty(), current: Seq::empty(), in_fence: false }
    } else {
        block_line(block_lines(lines.drop_last()), lines.last())
    }
}

/// The paragraphs of a text that is not blank.
pub open spec fn blocks_of(rendered: Seq<char>) -> Seq<Seq<char>> {
    let b = block_lines(text::split(rendered, '\n'));
    with_block(b.blocks, b.current)
}

/// The paragraphs of a text once it is formatted.
pub open spec fn comparable_blocks(content: Seq<char>) -> Seq<Seq<char>> {
    let s = text::trim(Space::Js, content);
    if s.len() == 0 {
        Seq::empty()
    } else {
        blocks_of(
            text::trim(
                Space::Js,
                prompt_format::formatted(s, prompt_format::plain_options()),
            ),
        )
    }
}

fn fence(line: &str) -> (r: bool)
    ensures
        r == is_fence(line@),
{
    let v = to_chars(&js::trim_start(line));
    is_at(&v, 0, "```") || is_at(&v, 0, "~~~")
}

fn blank(line: &str) -> (r: bool)
    ensures
        r == is_blank_line(line@),
{
    to_chars(&js::trim(line)).len() == 0
}

fn push_block(blocks: &mut Vec<String>, lines: &Vec<String>)
    ensures
        text::views(final(blocks)@) == with_block(
            text::views(old(blocks)@),
            text::views(lines@),
        ),
{
    proof {
        reveal_strlit("\n");
        assert("\n"@ =~= seq!['\n']);
    }
    let block = js::trim(&text::join_strings(lines, "\n"));
    if to_chars(&block).len() > 0 {
        proof {
            text::lemma_views_push(blocks@, block);
        }
        blocks.push(block);
    }
}

/// The paragraphs of a text once it is formatted. Fenced code is never split.
pub fn split_comparable_prompt_blocks(content: &str) -> (r: Vec<String>)
    ensures
        text::views(r@) == comparable_blocks(content@),
{
    let mut blocks: Vec<String> = Vec::new();
    let mut current: Vec<String> = Vec::new();
    proof {
        assert(text::views(blocks@) =~= Seq::empty());
        assert(text::views(current@) =~= Seq::empty());
    }
    let s = js::trim(content);
    if to_chars(&s).len() == 0 {
        return blocks;
    }
    let rendered = js::trim(&prompt_format::format(&s, FormatOptions::default()));
    let lines = split_text(&rendered, '\n');
    let ghost all = text::split(rendered@, '\n');
    let mut in_fence = false;
    let mut i: usize = 0;
    assert(all.take(0) =~= Seq::<Seq<char>>::empty());
    while i < lines.len()
        invariant
            i <= lines@.len(),
            all == text::views(lines@),
            block_lines(all.take(i as int)) == (BlocksView {
                blocks: text::views(blocks@),
                current: text::views(current@),
                in_fence,
            }),
        decreases lines@.len() - i,
    {
        proof {
            assert(all.take(i as int + 1).drop_last() =~= all.take(i as int));
            assert(all.take(i as int + 1).last() == lines@[i as int]@);
        }
        let line = lines[i].clone();
        let n: usize = current.len();
        if fence(&line) {
            in_fence = !in_fence;
            proof {
                text::lemma_views_push(current@, line);
            }
            current.push(line);
        } else if !in_fence && blank(&line) && n > 0 && !blank(&current[n - 1]) {
            push_block(&mut blocks, &current);
            current = Vec::new();
            assert(text::views(current@) =~= Seq::empty());
        } else {
            proof {
                text::lemma_views_push(current@, line);
            }
            current.push(line);
        }
        i += 1;
    }
    assert(all.take(i as int) =~= all);
    push_block(&mut blocks, &current);
    blocks
}

/// Whether the paragraphs of `rule` stand next to one another in `source`.
pub open spec fn contains_run(source: Seq<Seq<char>>, rule: Seq<Seq<char>>) -> bool {
    rule.len() > 0 && exists|i: int|
        0 <= i && i + rule.len() <= source.len() && #[trigger] run_at(source, rule, i)
}

/// Whether the paragraphs of `rule` stand in `source` from `i` on.
pub open spec fn run_at(source: Seq<Seq<char>>, rule: Seq<Seq<char>>, i: int) -> bool {
    source.subrange(i, i + rule.len()) == rule
}

fn is_run_at(source: &Vec<String>, rule: &Vec<String>, at: usize) -> (r: bool)
    requires
        at + rule@.len() <= source@.len(),
    ensures
        r == run_at(text::views(source@), text::views(rule@), at as int),
{
    let ghost s = text::views(source@);
    let ghost p = text::views(rule@);
    let ghost here = s.subrange(at as int, at + p.len());
    let n: usize = source.len();
    let mut i: usize = 0;
    while i < rule.len()
        invariant
            i <= rule@.len(),
            n == source@.len(),
            at + rule@.len() <= n,
            s == text::views(source@),
            p == text::views(rule@),
            here == s.subrange(at as int, at + p.len()),
            forall|j: int| 0 <= j < i ==> here[j] == p[j],
        decreases rule@.len() - i,
    {
        assert(here[i as int] == source@[at + i as int]@);
        if !same_text(&source[at + i], &rule[i]) {
            assert(here[i as int] != p[i as int]);
            return false;
        }
        i += 1;
    }
    assert(here =~= p);
    true
}

/// Whether the paragraphs of `rule` stand next to one another in `source`.
pub fn prompt_blocks_contain(source: &Vec<String>, rule: &Vec<String>) -> (r: bool)
    ensures
        r == contains_run(text::views(source@), text::views(rule@)),
{
    let ghost s = text::views(source@);
    let ghost p = text::views(rule@);
    let n: usize = source.len();
    let m: usize = rule.len();
    if m == 0 || m > n {
        return false;
    }
    let mut i: usize = 0;
    while i <= n - m
        invariant
            i <= n - m + 1,
            0 < m <= n,
            n == source@.len(),
            m == rule@.len(),
            s == text::views(source@),
            p == text::views(rule@),
            forall|j: int| 0 <= j < i ==> !#[trigger] run_at(s, p, j),
        decreases n - m + 1 - i,
    {
        if is_run_at(source, rule, i) {
            return true;
        }
        i += 1;
    }
    false
}

// ------------------------------------------------------------------ order

/// The depth by which a file is placed; a file without one has `none`.
pub open spec fn rank(depth: Option<i64>, none: int) -> int {
    match depth {
        Some(d) => d as int,
        None => none,
    }
}

/// The files with one more, in front of those of a lower rank.
pub open spec fn ranked_in(
    files: Seq<ProjectContextFileView>,
    f: ProjectContextFileView,
    none: int,
) -> Seq<ProjectContextFileView>
    decreases files.len(),
{
    if files.len() == 0 || rank(files.last().depth, none) >= rank(f.depth, none) {
        files.push(f)
    } else {
        ranked_in(files.drop_last(), f, none).push(files.last())
    }
}

/// The files by falling rank; those of one rank keep their order.
pub open spec fn ranked(files: Seq<ProjectContextFileView>, none: int) -> Seq<ProjectContextFileView>
    decreases files.len(),
{
    if files.len() == 0 {
        files
    } else {
        ranked_in(ranked(files.drop_last(), none), files.last(), none)
    }
}

proof fn lemma_ranked_in(
    files: Seq<ProjectContextFileView>,
    f: ProjectContextFileView,
    none: int,
    k: int,
)
    requires
        0 <= k <= files.len(),
        k == 0 || rank(files[k - 1].depth, none) >= rank(f.depth, none),
        forall|j: int|
            k <= j < files.len() ==> rank((#[trigger] files[j]).depth, none) < rank(f.depth, none),
    ensures
        ranked_in(files, f, none) == files.insert(k, f),
    decreases files.len(),
{
    if k == files.len() {
        assert(files.insert(k, f) =~= files.push(f));
    } else {
        assert(rank(files[files.len() - 1].depth, none) < rank(f.depth, none));
        assert forall|j: int| k <= j < files.drop_last().len() implies rank(
            (#[trigger] files.drop_last()[j]).depth,
            none,
        ) < rank(f.depth, none) by {
            assert(files.drop_last()[j] == files[j]);
        }
        lemma_ranked_in(files.drop_last(), f, none, k);
        assert(files.drop_last().insert(k, f).push(files.last()) =~= files.insert(k, f));
    }
}

/// The rank of a file without a depth where it is to come first.
pub const FIRST: i128 = 0x1_0000_0000_0000_0000;

/// The rank of a file without a depth where it counts as below the working directory.
pub const BELOW: i128 = -1;

fn rank_of(depth: Option<i64>, none: i128) -> (r: i128)
    ensures
        r == rank(depth, none as int),
{
    match depth {
        Some(d) => d as i128,
        None => none,
    }
}

fn sort_by_rank(files: &Vec<ProjectContextFile>, none: i128) -> (r: Vec<ProjectContextFile>)
    ensures
        text::views(r@) == ranked(text::views(files@), none as int),
        r@.len() == files@.len(),
{
    let ghost all = text::views(files@);
    let mut out: Vec<ProjectContextFile> = Vec::new();
    let mut i: usize = 0;
    proof {
        assert(all.take(0) =~= Seq::<ProjectContextFileView>::empty());
        assert(text::views(out@) =~= all.take(0));
    }
    while i < files.len()
        invariant
            i <= files@.len(),
            out@.len() == i,
            all == text::views(files@),
            text::views(out@) == ranked(all.take(i as int), none as int),
        decreases files@.len() - i,
    {
        let f = files[i].clone();
        let ghost have = text::views(out@);
        proof {
            assert(all.take(i as int + 1).drop_last() =~= all.take(i as int));
            assert(all.take(i as int + 1).last() == f@);
        }
        let here: i128 = rank_of(f.depth, none);
        let mut k: usize = out.len();
        while k > 0 && rank_of(out[k - 1].depth, none) < here
            invariant
                k <= out@.len(),
                have == text::views(out@),
                here == rank(f@.depth, none as int),
                forall|j: int|
                    k <= j < have.len() ==> rank((#[trigger] have[j]).depth, none as int) < rank(
                        f@.depth,
                        none as int,
                    ),
            decreases k,
        {
            assert(have[k as int - 1] == out@[k as int - 1]@);
            k -= 1;
        }
        proof {
            if k > 0 {
                assert(have[k as int - 1] == out@[k as int - 1]@);
            }
            lemma_ranked_in(have, f@, none as int, k as int);
        }
        out.insert(k, f);
        assert(text::views(out@) =~= have.insert(k as int, f@));
        i += 1;
    }
    assert(all.take(i as int) =~= all);
    out
}

// ------------------------------------------------------------------ repetitions

/// Whether one of the files behind `i` holds the paragraphs of file `i`.
pub open spec fn is_repeated(files: Seq<ProjectContextFileView>, i: int) -> bool {
    exists|j: int|
        i < j < files.len() && contains_run(
            comparable_blocks((#[trigger] files[j]).content),
            comparable_blocks(files[i].content),
        )
}

/// The files from `i` on that no later one repeats.
pub open spec fn unrepeated_from(files: Seq<ProjectContextFileView>, i: int) -> Seq<
    ProjectContextFileView,
>
    decreases files.len() - i,
{
    if i < 0 || i >= files.len() {
        Seq::empty()
    } else if is_repeated(files, i) {
        unrepeated_from(files, i + 1)
    } else {
        seq![files[i]] + unrepeated_from(files, i + 1)
    }
}

/// The files, those farther up first, without those whose paragraphs a closer one holds.
pub open spec fn deduped(files: Seq<ProjectContextFileView>) -> Seq<ProjectContextFileView> {
    unrepeated_from(ranked(files, FIRST as int), 0)
}

/// The files, those farther up first, without those whose paragraphs a closer one holds. A file
/// without a depth counts as the farthest.
pub fn dedupe_contained_context_files(files: &Vec<ProjectContextFile>) -> (r: Vec<ProjectContextFile>)
    ensures
        text::views(r@) == deduped(text::views(files@)),
{
    let sorted = sort_by_rank(files, FIRST);
    let ghost all = text::views(sorted@);
    let n: usize = sorted.len();
    let mut blocks: Vec<Vec<String>> = Vec::new();
    let mut i: usize = 0;
    while i < n
        invariant
            i <= n,
            n == sorted@.len(),
            all == text::views(sorted@),
            blocks@.len() == i,
            forall|j: int|
                0 <= j < i ==> text::views((#[trigger] blocks@[j])@) == comparable_blocks(
                    all[j].content,
                ),
        decreases n - i,
    {
        assert(all[i as int] == sorted@[i as int]@);
        blocks.push(split_comparable_prompt_blocks(&sorted[i].content));
        i += 1;
    }
    let mut out: Vec<ProjectContextFile> = Vec::new();
    i = 0;
    assert(text::views(out@) + unrepeated_from(all, 0) =~= unrepeated_from(all, 0));
    while i < n
        invariant
            i <= n,
            n == sorted@.len(),
            n == blocks@.len(),
            all == text::views(sorted@),
            forall|j: int|
                0 <= j < n ==> text::views((#[trigger] blocks@[j])@) == comparable_blocks(
                    all[j].content,
                ),
            text::views(out@) + unrepeated_from(all, i as int) == unrepeated_from(all, 0),
        decreases n - i,
    {
        let mut repeated = false;
        let mut j: usize = i + 1;
        while j < n && !repeated
            invariant
                i < j <= n,
                n == sorted@.len(),
                n == blocks@.len(),
                all == text::views(sorted@),
                forall|k: int|
                    0 <= k < n ==> text::views((#[trigger] blocks@[k])@) == comparable_blocks(
                        all[k].content,
                    ),
                repeated ==> is_repeated(all, i as int),
                !repeated ==> forall|k: int|
                    i < k < j ==> !contains_run(
                        comparable_blocks((#[trigger] all[k]).content),
                        comparable_blocks(all[i as int].content),
                    ),
            decreases n - j,
        {
            let source = &blocks[j];
            let rule = &blocks[i];
            if prompt_blocks_contain(source, rule) {
                assert(text::views(blocks@[j as int]@) == comparable_blocks(all[j as int].content));
                repeated = true;
            }
            j += 1;
        }
        let ghost before = text::views(out@);
        if !repeated {
            let f = sorted[i].clone();
            proof {
                text::lemma_views_push(out@, f);
                assert(!is_repeated(all, i as int));
                assert(before + unrepeated_from(all, i as int) =~= before.push(f@)
                    + unrepeated_from(all, i as int + 1));
            }
            out.push(f);
        }
        i += 1;
    }
    assert(text::views(out@) + unrepeated_from(all, i as int) =~= text::views(out@));
    out
}

// ------------------------------------------------------------------ discovery

/// What a host discovers with: its directories, its switches, what it knows of its files, and the
/// kinds with their providers.
pub struct Discovery {
    pub home: String,
    pub dirs: HostDirs,
    pub policy: ProviderPolicy,
    pub fs: FsCache,
    pub context_files: Capability,
    pub skills: Capability,
    /// Which files references may bring in.
    pub import_policy: Option<ImportPolicy>,
}

/// What a [`Discovery`] stands for.
#[verifier::ext_equal]
pub struct DiscoveryView {
    pub home: Seq<char>,
    pub dirs: HostDirsView,
    pub policy: ProviderPolicyView,
    pub fs: FsView,
    pub context_files: CapabilityView,
    pub skills: CapabilityView,
    pub import_policy: Option<ImportPolicy>,
}

impl View for Discovery {
    type V = DiscoveryView;

    open spec fn view(&self) -> DiscoveryView {
        DiscoveryView {
            home: self.home@,
            dirs: self.dirs@,
            policy: self.policy@,
            fs: self.fs@,
            context_files: self.context_files@,
            skills: self.skills@,
            import_policy: self.import_policy,
        }
    }
}

/// What the providers are given for a working directory.
pub open spec fn context_at(d: DiscoveryView, cwd: Seq<char>) -> LoadContextView {
    let here = paths::resolved(d.fs.current, cwd);
    LoadContextView {
        cwd: here,
        home: d.home,
        repo_root: files::repo_root_from(d.fs, paths::resolved(d.fs.current, here)),
        explicit_providers: None,
        include_opt_out_user_sources: false,
        dirs: d.dirs,
        policy: d.policy,
        skill_toggles: SkillToggles { claude_user: false, codex_user: false },
    }
}

/// What the providers of context files are given: what is asked for by name counts.
pub open spec fn context_for(d: DiscoveryView, cwd: Seq<char>, options: LoadOptionsView) -> LoadContextView {
    LoadContextView {
        explicit_providers: options.providers,
        include_opt_out_user_sources: options.include_disabled,
        ..context_at(d, cwd)
    }
}

/// The files with their references replaced.
pub open spec fn expanded_files(x: ExpanderView, found: Seq<ContextFileView>) -> Seq<
    ProjectContextFileView,
> {
    found.map_values(
        |f: ContextFileView|
            ProjectContextFileView {
                path: f.path,
                content: at_imports::expanded(x, f.content, f.path, MAX_AT_IMPORT_DEPTH as nat),
                depth: f.depth,
                source: f.source,
            },
    )
}

/// The options that switch extensions off.
pub open spec fn without_extensions(disabled: Seq<Seq<char>>) -> LoadOptionsView {
    LoadOptionsView {
        providers: None,
        exclude_providers: Seq::empty(),
        include_invalid: false,
        include_disabled: false,
        disabled_extensions: disabled,
    }
}

/// The context files of a project, ready for the system prompt.
pub open spec fn project_files(d: DiscoveryView, cwd: Seq<char>, disabled: Seq<Seq<char>>) -> Seq<
    ProjectContextFileView,
> {
    let options = without_extensions(disabled);
    let found = context_files::context_files(
        d.fs,
        context_for(d, cwd, options),
        d.context_files.providers,
        options,
    ).items;
    let x = ExpanderView { fs: d.fs, home: d.home, allow: d.import_policy };
    deduped(ranked(expanded_files(x, found), BELOW as int))
}

impl Discovery {
    /// A setup, of a process in the directory `current`, that knows nothing of
    /// its files.
    pub fn new(
        current: &str,
        home: &str,
        dirs: HostDirs,
        policy: ProviderPolicy,
    ) -> (r: Discovery)
        ensures
            r@.home == home@,
            r@.dirs == dirs@,
            r@.policy == policy@,
            r@.fs == (FsView {
                current: current@,
                limit: None,
                files: Seq::empty(),
                dirs: Seq::empty(),
                paths: Seq::empty(),
            }),
            r@.context_files.providers == capability::all_registered(
                Seq::empty(),
                context_files::context_providers(dirs@.native_name),
            ),
            r@.skills.providers == capability::all_registered(
                Seq::empty(),
                skills::skill_providers(dirs@.native_name),
            ),
            r@.import_policy is None,
            r.fs.wanted@.len() == 0,
    {
        let kind = context_file_capability(&dirs.native_name);
        let skills = skill_capability(&dirs.native_name);
        Discovery {
            home: home.to_string(),
            dirs,
            policy,
            fs: FsCache::new(current),
            context_files: kind,
            skills,
            import_policy: None,
        }
    }

    /// What the providers are given for a working directory.
    pub fn context(&mut self, cwd: &str) -> (r: LoadContext)
        ensures
            final(self)@ == old(self)@,
            r@ == context_at(old(self)@, cwd@),
            files::only_adds(old(self).fs.wanted@, final(self).fs.wanted@),
            files::asked_nothing(old(self).fs.wanted@, final(self).fs.wanted@) ==> forall|more: FsView| #[trigger]
                files::extends(more, old(self)@.fs) ==>
                    context_at((DiscoveryView { fs: more, ..old(self)@ }), cwd@)
                        == context_at(old(self)@, cwd@),
    {
        proof {
            files::lemma_extends_current(self@.fs);
        }
        let here = resolve(&self.fs.current, cwd);
        let root = self.fs.find_repo_root(&here);
        LoadContext {
            cwd: here,
            home: self.home.clone(),
            repo_root: root,
            explicit_providers: None,
            include_opt_out_user_sources: false,
            dirs: self.dirs.clone(),
            policy: self.policy.clone(),
            skill_toggles: SkillToggles::default(),
        }
    }

    /// The context files that are found.
    pub fn load_context_files(&mut self, cwd: &str, options: &LoadOptions) -> (r: CapabilityResult<
        ContextFile,
    >)
        ensures
            final(self)@ == old(self)@,
            r@ == context_files::context_files(
                old(self)@.fs,
                context_for(old(self)@, cwd@, options@),
                old(self)@.context_files.providers,
                options@,
            ),
            files::only_adds(old(self).fs.wanted@, final(self).fs.wanted@),
            files::asked_nothing(old(self).fs.wanted@, final(self).fs.wanted@) ==> forall|
                more: FsView,
            | #[trigger]
                files::extends(more, old(self)@.fs) ==> context_files::context_files(
                    more,
                    context_for((DiscoveryView { fs: more, ..old(self)@ }), cwd@, options@),
                    old(self)@.context_files.providers,
                    options@,
                ) == context_files::context_files(
                    old(self)@.fs,
                    context_for(old(self)@, cwd@, options@),
                    old(self)@.context_files.providers,
                    options@,
                ),
    {
        let mut ctx = self.context(cwd);
        ctx.explicit_providers = match &options.providers {
            Some(p) => Some(clone_strings(p)),
            None => None,
        };
        ctx.include_opt_out_user_sources = options.include_disabled;
        context_files::load(&mut self.fs, &ctx, &self.context_files, options)
    }

    /// The context files of a project, ready for the system prompt: references replaced, those
    /// farther up first, and without those that a closer one holds.
    pub fn load_project_context_files(&mut self, cwd: &str, disabled_extensions: &Vec<String>) -> (r:
        Vec<ProjectContextFile>)
        ensures
            final(self)@ == old(self)@,
            text::views(r@) == project_files(old(self)@, cwd@, text::views(disabled_extensions@)),
            files::only_adds(old(self).fs.wanted@, final(self).fs.wanted@),
            files::asked_nothing(old(self).fs.wanted@, final(self).fs.wanted@) ==> forall|more: FsView| #[trigger]
                files::extends(more, old(self)@.fs) ==>
                    project_files((DiscoveryView { fs: more, ..old(self)@ }), cwd@, text::views(disabled_extensions@))
                        == project_files(old(self)@, cwd@, text::views(disabled_extensions@)),
    {
        let ghost d = self@;
        let mut options = LoadOptions::default();
        options.disabled_extensions = clone_strings(disabled_extensions);
        assert(options@ =~= without_extensions(text::views(disabled_extensions@)));
        let result = self.load_context_files(cwd, &options);
        let found = result.items;
        let expander = Expander {
            home: self.home.clone(),
            max_depth: MAX_AT_IMPORT_DEPTH,
            allow: &self.import_policy,
        };
        let ghost x = ExpanderView { fs: d.fs, home: d.home, allow: d.import_policy };
        let ghost all = text::views(found@);
        let ghost done = expanded_files(x, all);
        let mut files: Vec<ProjectContextFile> = Vec::new();
        let mut i: usize = 0;
        assert(text::views(files@) =~= done.take(0));
        while i < found.len()
            invariant
                i <= found@.len(),
                self@ == d,
                d == old(self)@,
                x == (ExpanderView { fs: d.fs, home: d.home, allow: d.import_policy }),
                expander.over(d.fs) == x,
                expander.max_depth == MAX_AT_IMPORT_DEPTH,
                all == text::views(found@),
                done == expanded_files(x, all),
                text::views(files@) == done.take(i as int),
                files::only_adds(old(self).fs.wanted@, self.fs.wanted@),
                files::asked_nothing(old(self).fs.wanted@, self.fs.wanted@) ==> forall|
                    more: FsView,
                    j: int,
                |
                    #![trigger files::extends(more, d.fs), all[j]]
                    files::extends(more, d.fs) && 0 <= j < i ==> at_imports::expanded(
                        (ExpanderView { fs: more, ..x }),
                        all[j].content,
                        all[j].path,
                        MAX_AT_IMPORT_DEPTH as nat,
                    ) == at_imports::expanded(
                        x,
                        all[j].content,
                        all[j].path,
                        MAX_AT_IMPORT_DEPTH as nat,
                    ),
                files::asked_nothing(old(self).fs.wanted@, self.fs.wanted@) ==> forall|
                    more: FsView,
                | #[trigger]
                    files::extends(more, d.fs) ==> context_files::context_files(
                        more,
                        context_for((DiscoveryView { fs: more, ..d }), cwd@, options@),
                        d.context_files.providers,
                        options@,
                    ).items == all,
            decreases found@.len() - i,
        {
            let f = &found[i];
            let content = expander.expand(&mut self.fs, &f.content, &f.path);
            let p = ProjectContextFile {
                path: f.path.clone(),
                content,
                depth: f.depth,
                source: f.source.clone(),
            };
            proof {
                text::lemma_views_push(files@, p);
                assert(all[i as int] == f@);
                assert(done[i as int] == p@);
                assert(done.take(i as int + 1) =~= done.take(i as int).push(p@));
            }
            files.push(p);
            i += 1;
        }
        assert(done.take(i as int) =~= done);
        proof {
            if files::asked_nothing(old(self).fs.wanted@, self.fs.wanted@) {
                assert forall|more: FsView| #[trigger] files::extends(more, d.fs) implies expanded_files(
                    ExpanderView { fs: more, ..x },
                    all,
                ) == done by {
                    assert(expanded_files(ExpanderView { fs: more, ..x }, all) =~= done);
                }
            }
        }
        let sorted = sort_by_rank(&files, BELOW);
        dedupe_contained_context_files(&sorted)
    }
}

// ------------------------------------------------------------------ laws

/// The files stand by falling rank.
pub open spec fn by_rank(files: Seq<ProjectContextFileView>, none: int) -> bool {
    forall|i: int, j: int|
        0 <= i < j < files.len() ==> rank((#[trigger] files[i]).depth, none) >= rank(
            (#[trigger] files[j]).depth,
            none,
        )
}

proof fn lemma_ranked_in_order(
    files: Seq<ProjectContextFileView>,
    f: ProjectContextFileView,
    none: int,
)
    requires
        by_rank(files, none),
    ensures
        by_rank(ranked_in(files, f, none), none),
        ranked_in(files, f, none).to_multiset() == files.to_multiset().insert(f),
        ranked_in(files, f, none).len() == files.len() + 1,
        forall|i: int|
            0 <= i < ranked_in(files, f, none).len() ==> (#[trigger] ranked_in(files, f, none)[i]
                == f || files.contains(ranked_in(files, f, none)[i])),
    decreases files.len(),
{
    broadcast use vstd::seq_lib::group_to_multiset_ensures;

    let after = ranked_in(files, f, none);
    if files.len() == 0 || rank(files.last().depth, none) >= rank(f.depth, none) {
        assert forall|i: int, j: int| 0 <= i < j < after.len() implies rank(
            (#[trigger] after[i]).depth,
            none,
        ) >= rank((#[trigger] after[j]).depth, none) by {
            if j == files.len() {
                assert(rank(files[i].depth, none) >= rank(files.last().depth, none)) by {
                    if i < files.len() - 1 {
                        assert(rank(files[i].depth, none) >= rank(
                            files[files.len() - 1].depth,
                            none,
                        ));
                    }
                }
            }
        }
        assert forall|i: int| 0 <= i < after.len() implies (#[trigger] after[i] == f
            || files.contains(after[i])) by {
            if i < files.len() {
                assert(after[i] == files[i]);
            }
        }
    } else {
        let t = files.drop_last();
        assert forall|i: int, j: int| 0 <= i < j < t.len() implies rank(
            (#[trigger] t[i]).depth,
            none,
        ) >= rank((#[trigger] t[j]).depth, none) by {
            assert(t[i] == files[i] && t[j] == files[j]);
        }
        lemma_ranked_in_order(t, f, none);
        let inner = ranked_in(t, f, none);
        assert(files =~= t.push(files.last()));
        assert forall|i: int, j: int| 0 <= i < j < after.len() implies rank(
            (#[trigger] after[i]).depth,
            none,
        ) >= rank((#[trigger] after[j]).depth, none) by {
            if j < inner.len() {
                assert(after[i] == inner[i] && after[j] == inner[j]);
            } else {
                assert(after[i] == inner[i]);
                if inner[i] != f {
                    let k = choose|k: int| 0 <= k < t.len() && t[k] == inner[i];
                    assert(t[k] == files[k]);
                    assert(rank(files[k].depth, none) >= rank(
                        files[files.len() - 1].depth,
                        none,
                    ));
                }
            }
        }
        assert forall|i: int| 0 <= i < after.len() implies (#[trigger] after[i] == f
            || files.contains(after[i])) by {
            if i < inner.len() {
                assert(after[i] == inner[i]);
                if inner[i] != f {
                    let k = choose|k: int| 0 <= k < t.len() && t[k] == inner[i];
                    assert(files[k] == after[i]);
                }
            } else {
                assert(files[files.len() - 1] == after[i]);
            }
        }
        assert(after.to_multiset() =~= files.to_multiset().insert(f));
    }
}

/// Placing files by rank loses none and adds none, and leaves them by falling rank.
pub proof fn law_ranking_only_reorders(files: Seq<ProjectContextFileView>, none: int)
    ensures
        by_rank(ranked(files, none), none),
        ranked(files, none).to_multiset() == files.to_multiset(),
    decreases files.len(),
{
    broadcast use vstd::seq_lib::group_to_multiset_ensures;

    if files.len() > 0 {
        law_ranking_only_reorders(files.drop_last(), none);
        lemma_ranked_in_order(ranked(files.drop_last(), none), files.last(), none);
        assert(files =~= files.drop_last().push(files.last()));
    }
}

proof fn lemma_kept_from(files: Seq<ProjectContextFileView>, i: int, k: int)
    requires
        0 <= i <= k < files.len(),
        !is_repeated(files, k),
    ensures
        unrepeated_from(files, i).contains(files[k]),
    decreases k - i,
{
    let here = unrepeated_from(files, i);
    if i == k {
        assert(here[0] == files[k]);
    } else {
        lemma_kept_from(files, i + 1, k);
        let rest = unrepeated_from(files, i + 1);
        let at = choose|at: int| 0 <= at < rest.len() && rest[at] == files[k];
        if is_repeated(files, i) {
            assert(here == rest);
        } else {
            assert(here[at + 1] == files[k]);
        }
    }
}

/// The closest file always stays.
pub proof fn law_the_closest_file_stays(files: Seq<ProjectContextFileView>)
    requires
        files.len() > 0,
    ensures
        deduped(files).contains(ranked(files, FIRST as int).last()),
{
    broadcast use vstd::seq_lib::group_to_multiset_ensures;

    let all = ranked(files, FIRST as int);
    law_ranking_only_reorders(files, FIRST as int);
    assert(all.len() == all.to_multiset().len());
    assert(files.len() == files.to_multiset().len());
    lemma_kept_from(all, 0, all.len() - 1);
}

proof fn lemma_left_out(files: Seq<ProjectContextFileView>, i: int, at: int)
    requires
        0 <= i,
        0 <= at < unrepeated_from(files, i).len(),
    ensures
        exists|k: int|
            i <= k < files.len() && unrepeated_from(files, i)[at] == #[trigger] files[k]
                && !is_repeated(files, k),
    decreases files.len() - i,
{
    if i < files.len() {
        let here = unrepeated_from(files, i);
        let rest = unrepeated_from(files, i + 1);
        if is_repeated(files, i) {
            lemma_left_out(files, i + 1, at);
        } else if at == 0 {
            assert(here[0] == files[i]);
        } else {
            lemma_left_out(files, i + 1, at - 1);
            assert(here[at] == rest[at - 1]);
        }
    }
}

/// What stays is a file whose paragraphs no closer file holds.
pub proof fn law_what_stays_is_not_repeated(files: Seq<ProjectContextFileView>, at: int)
    requires
        0 <= at < deduped(files).len(),
    ensures
        exists|k: int|
            0 <= k < ranked(files, FIRST as int).len() && deduped(files)[at] == #[trigger] ranked(
                files,
                FIRST as int,
            )[k] && !is_repeated(ranked(files, FIRST as int), k),
{
    lemma_left_out(ranked(files, FIRST as int), 0, at);
}

} // verus!
