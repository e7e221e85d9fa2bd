//! What the host makes of its command line and its environment, and what it prints.
use crate::cli;
use crate::cli::{EnvVarView, HeaderView, RouteArgsView, RouteErrorView};
use crate::json::{JsonView, NumberView};
use crate::paths;
use crate::text;
use crate::text::Space;
use crate::types::{AssistantBlockView, MessageView};
use vstd::prelude::*;

verus! {

// ------------------------------------------------------------------ the environment

proof fn lemma_value_from(env: Seq<EnvVarView>, name: Seq<char>, i: int)
    requires
        0 <= i <= env.len(),
    ensures
        match cli::value_from(env, name, i) {
            Some(v) => exists|k: int|
                i <= k < env.len() && (#[trigger] env[k]).name == name && env[k].value == v
                    && forall|j: int| i <= j < k ==> (#[trigger] env[j]).name != name,
            None => forall|k: int| i <= k < env.len() ==> (#[trigger] env[k]).name != name,
        },
    decreases env.len() - i,
{
    if i < env.len() {
        if env[i].name == name {
            assert(env[i].value == cli::value_from(env, name, i).unwrap());
        } else {
            lemma_value_from(env, name, i + 1);
            if cli::value_from(env, name, i + 1) is Some {
                let v = cli::value_from(env, name, i + 1).unwrap();
                let k = choose|k: int|
                    i + 1 <= k < env.len() && (#[trigger] env[k]).name == name && env[k].value == v
                        && forall|j: int| i + 1 <= j < k ==> (#[trigger] env[j]).name != name;
                assert(env[k].name == name);
            }
        }
    }
}

/// A variable has the value of its first entry; one that is set to nothing counts as not set.
pub proof fn law_what_variables_hold(env: Seq<EnvVarView>, name: Seq<char>)
    ensures
        match cli::value_of(env, name) {
            Some(v) => exists|k: int|
                0 <= k < env.len() && (#[trigger] env[k]).name == name && env[k].value == v
                    && forall|j: int| 0 <= j < k ==> (#[trigger] env[j]).name != name,
            None => forall|k: int| 0 <= k < env.len() ==> (#[trigger] env[k]).name != name,
        },
        cli::filled(env, name) is Some <==> (cli::value_of(env, name) matches Some(v) && v.len()
            > 0),
        cli::filled(env, name) is Some ==> cli::filled(env, name) == cli::value_of(env, name),
{
    lemma_value_from(env, name, 0);
}

/// What is asked for on the command line wins; else the variables are looked up in their order.
pub proof fn law_the_command_line_wins(args: RouteArgsView, env: Seq<EnvVarView>)
    ensures
        ({
            let own = cli::filled(env, "ARA_MODEL"@);
            let test = cli::filled(env, "ARA_TEST_MODEL_ID"@);
            cli::model_id(args, env) == (if args.model is Some {
                args.model
            } else if own is Some {
                own
            } else {
                test
            })
        }),
        ({
            let own = cli::filled(env, "ARA_BASE_URL"@);
            let test = cli::filled(env, "ARA_TEST_BASE_URL"@);
            let other = cli::filled(env, "OPENROUTER_BASE_URL"@);
            cli::base_url(args, env) == (if args.base_url is Some {
                args.base_url
            } else if own is Some {
                own
            } else if test is Some {
                test
            } else {
                other
            })
        }),
{
    reveal_with_fuel(cli::first_filled, 5);
}

/// The key is that of the variable that is named, whatever it holds; where none is named, it is
/// the one for the address.
pub proof fn law_which_key_is_used(args: RouteArgsView, env: Seq<EnvVarView>, url: Seq<char>)
    ensures
        args.api_key_env matches Some(name) ==> cli::api_key(args, env, url) == cli::value_of(
            env,
            name,
        ),
        args.api_key_env is None && cli::openrouter(url) ==> cli::api_key(args, env, url)
            == cli::filled(env, "OPENROUTER_API_KEY"@),
        args.api_key_env is None && !cli::openrouter(url) ==> cli::api_key(args, env, url) == (
        if cli::filled(env, "ARA_API_KEY"@) is Some {
            cli::filled(env, "ARA_API_KEY"@)
        } else {
            cli::filled(env, "ARA_TEST_API_KEY"@)
        }),
{
    reveal_with_fuel(cli::first_filled, 4);
}

// ------------------------------------------------------------------ routes

proof fn lemma_headers(lines: Seq<Seq<char>>, i: int)
    requires
        0 <= i <= lines.len(),
    ensures
        match cli::headers_from(lines, i) {
            Ok(h) => h.len() == lines.len() - i && forall|k: int|
                i <= k < lines.len() ==> Some(h[k - i]) == cli::header_of(#[trigger] lines[k]),
            Err(e) => lines.contains(e) && cli::header_of(e) is None,
        },
    decreases lines.len() - i,
{
    if i < lines.len() {
        lemma_headers(lines, i + 1);
        match cli::headers_from(lines, i) {
            Ok(h) => {
                let rest = cli::headers_from(lines, i + 1)->Ok_0;
                assert forall|k: int| i <= k < lines.len() implies Some(h[k - i])
                    == cli::header_of(#[trigger] lines[k]) by {
                    if k > i {
                        assert(h[k - i] == rest[k - i - 1]);
                    }
                }
            },
            Err(_) => {},
        }
    }
}

proof fn lemma_unknown(names: Seq<Seq<char>>, i: int)
    requires
        0 <= i <= names.len(),
    ensures
        match cli::unknown_from(names, i) {
            Some(n) => names.contains(n) && !cli::is_tool_name(n),
            None => forall|k: int| i <= k < names.len() ==> cli::is_tool_name(#[trigger] names[k]),
        },
    decreases names.len() - i,
{
    if i < names.len() {
        lemma_unknown(names, i + 1);
    }
}

/// A route is there exactly where a model and an address are asked for, the named key is set, every
/// header has a colon and every tool is known; it is then made of what was asked for.
pub proof fn law_what_a_route_is_made_of(args: RouteArgsView, env: Seq<EnvVarView>)
    ensures
        ({
            let route = cli::route_of(args, env);
            let id = cli::model_id(args, env);
            let url = cli::base_url(args, env);
            let names = cli::names_in(args.tools);
            let lines = args.headers;
            let key_is_there = args.api_key_env is None || cli::value_of(
                env,
                args.api_key_env.unwrap(),
            ) is Some;
            let colons = forall|k: int|
                0 <= k < lines.len() ==> cli::header_of(#[trigger] lines[k]) is Some;
            let known = forall|k: int|
                0 <= k < names.len() ==> cli::is_tool_name(#[trigger] names[k]);
            &&& route is Ok <==> id is Some && url is Some && key_is_there && colons && known
            &&& id is None ==> (route matches Err(e) && e is NoModel)
            &&& id is Some && url is None ==> (route matches Err(e) && e is NoBaseUrl)
            &&& id is Some && url is Some && !key_is_there ==> (route matches Err(e) && (
            e matches RouteErrorView::KeyNotSet(n) && Some(n) == args.api_key_env))
            &&& id is Some && url is Some && key_is_there && !colons ==> (route matches Err(e) && (
            e matches RouteErrorView::BadHeader(l) && lines.contains(l) && cli::header_of(
                l,
            ) is None))
            &&& id is Some && url is Some && key_is_there && colons && !known ==> (
            route matches Err(e) && (e matches RouteErrorView::UnknownTool(n) && names.contains(n)
                && !cli::is_tool_name(n)))
            &&& route matches Ok(r) ==> {
                &&& Some(r.model.id) == id
                &&& Some(r.model.base_url) == url
                &&& r.model.api == "openai-completions"@
                &&& r.model.provider == (match args.provider {
                    Some(p) => p,
                    None => if cli::openrouter(url.unwrap()) {
                        "openrouter"@
                    } else {
                        "openai-compatible"@
                    },
                })
                &&& !r.model.reasoning && r.model.max_tokens is None
                &&& r.api_key == cli::api_key(args, env, url.unwrap())
                &&& r.extra_headers.len() == lines.len()
                &&& forall|k: int|
                    0 <= k < lines.len() ==> Some(r.extra_headers[k]) == cli::header_of(
                        #[trigger] lines[k],
                    )
            }
        }),
{
    let names = cli::names_in(args.tools);
    lemma_headers(args.headers, 0);
    lemma_unknown(names, 0);
    if cli::headers_from(args.headers, 0) is Err {
        let l = cli::headers_from(args.headers, 0)->Err_0;
        let k = choose|k: int| 0 <= k < args.headers.len() && args.headers[k] == l;
        assert(cli::header_of(args.headers[k]) is None);
    }
    if cli::unknown_from(names, 0) is Some {
        let n = cli::unknown_from(names, 0).unwrap();
        let k = choose|k: int| 0 <= k < names.len() && names[k] == n;
        assert(!cli::is_tool_name(names[k]));
    }
}

/// A header is what stands on both sides of the first colon, without the space around it.
pub proof fn law_a_header_has_a_name_and_a_value(name: Seq<char>, value: Seq<char>)
    requires
        !name.contains(':'),
    ensures
        cli::header_of(name + seq![':'] + value) == Some(
            HeaderView {
                name: text::trim(Space::Unicode, name),
                value: text::trim(Space::Unicode, value),
            },
        ),
        cli::header_of(name) is None,
{
    let line = name + seq![':'] + value;
    let n = name.len() as int;
    text::lemma_find_char(line, ':', 0);
    text::lemma_find_char(name, ':', 0);
    assert(line[n] == ':');
    match text::find_char(line, ':', 0) {
        Some(i) => {
            if i < n {
                assert(name[i] == ':');
            }
            assert(i == n);
        },
        None => {
            assert(line[n] != ':');
        },
    }
    assert(line.subrange(0, n) =~= name);
    assert(line.subrange(n + 1, line.len() as int) =~= value);
    match text::find_char(name, ':', 0) {
        Some(i) => {
            assert(name[i] == ':');
        },
        None => {},
    }
}

/// The texts without the space around them, but for those that are blank.
pub open spec fn trimmed_names(pieces: Seq<Seq<char>>) -> Seq<Seq<char>> {
    pieces.map_values(|p: Seq<char>| text::trim(Space::Unicode, p)).filter(
        |p: Seq<char>| p.len() > 0,
    )
}

proof fn lemma_listed(pieces: Seq<Seq<char>>)
    ensures
        cli::listed(pieces) == trimmed_names(pieces),
    decreases pieces.len(),
{
    reveal(Seq::filter);
    let f = |p: Seq<char>| text::trim(Space::Unicode, p);
    if pieces.len() > 0 {
        lemma_listed(pieces.drop_last());
        assert(pieces.map_values(f).drop_last() =~= pieces.drop_last().map_values(f));
        assert(pieces.map_values(f).last() == text::trim(Space::Unicode, pieces.last()));
    } else {
        assert(cli::listed(pieces) =~= Seq::empty());
        assert(trimmed_names(pieces) =~= Seq::empty());
    }
}

/// A list holds the names between its commas, in order, without the space around them; blank ones
/// do not count.
pub proof fn law_lists_are_split_at_commas(pieces: Seq<Seq<char>>)
    requires
        pieces.len() > 0,
        forall|i: int| 0 <= i < pieces.len() ==> !(#[trigger] pieces[i]).contains(','),
    ensures
        cli::names_in(text::join(pieces, seq![','])) == trimmed_names(pieces),
{
    assert(text::pieces_without(pieces, ','));
    text::law_joined_pieces_split(pieces, ',');
    lemma_listed(pieces);
}

proof fn lemma_host_end(s: Seq<char>, i: int, end: int)
    requires
        0 <= i <= end <= s.len(),
        forall|k: int| i <= k < end ==> (#[trigger] s[k]) != '/' && s[k] != ':',
        end < s.len() ==> s[end] == '/' || s[end] == ':',
    ensures
        cli::host_end(s, i) == end,
    decreases end - i,
{
    if i < end {
        lemma_host_end(s, i + 1, end);
    }
}

/// An address leads to `openrouter.ai` by its host alone: that name, or one that ends in it behind
/// a dot.
pub proof fn law_the_host_decides_on_the_route(
    scheme: Seq<char>,
    host: Seq<char>,
    rest: Seq<char>,
)
    requires
        !scheme.contains(':'),
        !host.contains('/') && !host.contains(':'),
        rest.len() > 0 ==> rest[0] == '/' || rest[0] == ':',
    ensures
        cli::openrouter(scheme + "://"@ + host + rest) <==> (host == "openrouter.ai"@ || (
        host.len() >= 14 && host.skip(host.len() - 14) == ".openrouter.ai"@)),
{
    reveal_strlit("://");
    reveal_strlit(".openrouter.ai");
    let mid = "://"@;
    assert(mid.len() == 3 && mid[0] == ':');
    assert(".openrouter.ai"@.len() == 14);
    let url = scheme + mid + host + rest;
    let n = scheme.len() as int;
    text::lemma_find_text(url, mid, 0);
    assert(url.subrange(n, n + 3) =~= mid);
    assert(text::stands_at(url, n, mid));
    let at = text::find_text(url, mid, 0);
    assert(at is Some);
    let i = at.unwrap();
    if i < n {
        assert(url.subrange(i, i + 3)[0] == url[i]);
        assert(scheme[i] == ':');
        assert(false);
    }
    assert(i == n);
    let end = n + 3 + host.len();
    assert forall|k: int| n + 3 <= k < end implies (#[trigger] url[k]) != '/' && url[k] != ':' by {
        assert(url[k] == host[k - n - 3]);
    }
    if end < url.len() {
        assert(url[end as int] == rest[0]);
    }
    lemma_host_end(url, n + 3, end as int);
    assert(url.subrange(n + 3, end as int) =~= host);
    if host.len() >= 14 {
        assert(host.subrange(host.len() - 14, host.len() as int) =~= host.skip(host.len() - 14));
    }
}

// ------------------------------------------------------------------ prompts and directories

/// What comes on the standard input stands before the first prompt, or is the only one. A blank
/// input says nothing, and the other prompts stay as they are.
pub proof fn law_the_input_comes_first(prompts: Seq<Seq<char>>, s: Seq<char>)
    ensures
        cli::prompts_with(prompts, None) == prompts,
        text::trim(Space::Unicode, s).len() == 0 ==> cli::prompts_with(prompts, Some(s))
            == prompts,
        text::trim(Space::Unicode, s).len() > 0 ==> ({
            let all = cli::prompts_with(prompts, Some(s));
            let t = text::trim(Space::Unicode, s);
            &&& prompts.len() == 0 ==> all == seq![t]
            &&& prompts.len() > 0 ==> all == seq![t + "\n"@ + prompts[0]] + prompts.skip(1)
        }),
{
    let t = text::trim(Space::Unicode, s);
    if prompts.len() > 0 && t.len() > 0 {
        assert(cli::prompts_with(prompts, Some(s)) =~= seq![t + "\n"@ + prompts[0]]
            + prompts.skip(1));
    }
}

proof fn lemma_slashes_end(s: Seq<char>, i: int, end: int)
    requires
        0 <= i <= end <= s.len(),
        forall|k: int| i <= k < end ==> (#[trigger] s[k]) == '/',
        end < s.len() ==> s[end] != '/',
    ensures
        cli::slashes_end(s, i) == end,
    decreases end - i,
{
    if i < end {
        lemma_slashes_end(s, i + 1, end);
    }
}

proof fn lemma_slashes_start(s: Seq<char>, i: int, start: int)
    requires
        0 <= start <= i <= s.len(),
        forall|k: int| start <= k < i ==> (#[trigger] s[k]) == '/',
        start > 0 ==> s[start - 1] != '/',
    ensures
        cli::slashes_start(s, i) == start,
    decreases i,
{
    if start < i {
        lemma_slashes_start(s, i - 1, start);
    }
}

/// The sessions of a working directory lie in a directory of their own below the host's. It is
/// named by the path, without the slashes around it, with hyphens for what separates names.
pub proof fn law_where_sessions_lie(home: Seq<char>, path: Seq<char>, before: nat, after: nat)
    requires
        path.len() > 0,
        path[0] != '/',
        path.last() != '/',
    ensures
        ({
            let cwd = Seq::new(before, |i: int| '/') + path + Seq::new(after, |i: int| '/');
            let named = Seq::new(
                path.len(),
                |i: int|
                    if path[i] == '/' || path[i] == '\\' || path[i] == ':' {
                        '-'
                    } else {
                        path[i]
                    },
            );
            cli::sessions_of(home, cwd) == paths::joined(
                paths::joined(home, "sessions"@),
                "--"@ + named + "--"@,
            )
        }),
{
    let cwd = Seq::new(before, |i: int| '/') + path + Seq::new(after, |i: int| '/');
    let to = before + path.len();
    assert(cwd[before as int] == path[0]);
    assert(cwd[to - 1] == path.last());
    lemma_slashes_end(cwd, 0, before as int);
    lemma_slashes_start(cwd, cwd.len() as int, to as int);
    assert(cwd.subrange(before as int, to as int) =~= path);
    let named = Seq::new(
        path.len(),
        |i: int|
            if path[i] == '/' || path[i] == '\\' || path[i] == ':' {
                '-'
            } else {
                path[i]
            },
    );
    assert(path.map_values(|c: char| cli::hyphen(c)) =~= named);
}

/// A resumed session runs where it was recorded, unless the host is told otherwise: that wins, with
/// a warning where it is another directory. A recorded directory that is gone is not replaced.
pub proof fn law_where_a_resumed_session_runs(told: bool, recorded: bool, same: bool, is_dir: bool)
    ensures
        ({
            let c = cli::cwd_choice(told, recorded, same, is_dir);
            &&& c is Recorded <==> recorded && !told && is_dir
            &&& c is Gone <==> recorded && !told && !is_dir
            &&& c is OwnWithWarning <==> recorded && told && !same
            &&& c is Own <==> !recorded || (told && same)
        }),
{
}

/// The host's own directory is the one that is named, else one below the home directory.
pub proof fn law_where_the_host_keeps_its_files(own: Option<Seq<char>>, home: Option<Seq<char>>)
    ensures
        own matches Some(d) ==> cli::home_of(own, home) == d,
        own is None && home is Some ==> cli::home_of(own, home) == paths::joined(
            home.unwrap(),
            ".ara"@,
        ),
        own is None && home is None ==> cli::home_of(own, home) == ".ara"@,
{
}

// ------------------------------------------------------------------ what is printed

proof fn lemma_last_assistant(messages: Seq<MessageView>, i: int)
    requires
        0 <= i <= messages.len(),
    ensures
        match cli::last_assistant(messages, i) {
            Some(a) => exists|k: int|
                0 <= k < i && (#[trigger] messages[k]) == MessageView::Assistant(a) && forall|j: int|
                    k < j < i ==> !((#[trigger] messages[j]) is Assistant),
            None => forall|k: int| 0 <= k < i ==> !((#[trigger] messages[k]) is Assistant),
        },
    decreases i,
{
    if i > 0 {
        match messages[i - 1] {
            MessageView::Assistant(a) => {
                assert(messages[i - 1] == MessageView::Assistant(a));
            },
            _ => {
                lemma_last_assistant(messages, i - 1);
                match cli::last_assistant(messages, i - 1) {
                    Some(a) => {
                        let k = choose|k: int|
                            0 <= k < i - 1 && (#[trigger] messages[k]) == MessageView::Assistant(a)
                                && forall|j: int|
                                k < j < i - 1 ==> !((#[trigger] messages[j]) is Assistant);
                        assert(messages[k] == MessageView::Assistant(a));
                    },
                    None => {},
                }
            },
        }
    }
}

/// What a run reports comes from the last message of the assistant.
pub proof fn law_the_last_answer_counts(messages: Seq<MessageView>)
    ensures
        match cli::last_assistant(messages, messages.len() as int) {
            Some(a) => exists|k: int|
                0 <= k < messages.len() && (#[trigger] messages[k]) == MessageView::Assistant(a)
                    && forall|j: int|
                    k < j < messages.len() ==> !((#[trigger] messages[j]) is Assistant),
            None => forall|k: int|
                0 <= k < messages.len() ==> !((#[trigger] messages[k]) is Assistant),
        },
{
    lemma_last_assistant(messages, messages.len() as int);
}

/// An answer is printed block by block, in order: every text, and every thought that is not blank
/// where thoughts are asked for, and nothing else.
pub proof fn law_answers_are_printed_in_order(
    content: Seq<AssistantBlockView>,
    block: AssistantBlockView,
    thoughts: bool,
)
    ensures
        cli::answer_lines(Seq::empty(), thoughts).len() == 0,
        cli::answer_lines(content.push(block), thoughts) == cli::answer_lines(content, thoughts) + (
        match block {
            AssistantBlockView::Text(t) => seq![cli::printable(t.text)],
            AssistantBlockView::Thinking(t) => if thoughts && text::trim(
                Space::Unicode,
                t.thinking,
            ).len() > 0 {
                seq![cli::printable(t.thinking)]
            } else {
                Seq::empty()
            },
            _ => Seq::empty(),
        }),
{
    let all = content.push(block);
    assert(all.drop_last() =~= content);
    assert(cli::answer_lines(all, thoughts) =~= cli::answer_lines(content, thoughts) + (
    match block {
        AssistantBlockView::Text(t) => seq![cli::printable(t.text)],
        AssistantBlockView::Thinking(t) => if thoughts && text::trim(
            Space::Unicode,
            t.thinking,
        ).len() > 0 {
            seq![cli::printable(t.thinking)]
        } else {
            Seq::empty()
        },
        _ => Seq::empty(),
    }));
}

/// A run that completed prints its answer where text is asked for, and the error that its last
/// message tells of; every other end is told in one line.
pub proof fn law_how_a_run_is_reported(
    end: crate::agent_loop::RunEnd,
    messages: Seq<MessageView>,
    as_text: bool,
    thoughts: bool,
    calls: u64,
    persist_failed: bool,
)
    ensures
        ({
            let e = cli::ending_of(end, messages, as_text, thoughts, calls, persist_failed);
            let last = cli::last_assistant(messages, messages.len() as int);
            let broken: Seq<char> = match last {
                Some(a) => if (a.stop_reason is Error || a.stop_reason is Aborted)
                    && a.error_message is Some {
                    a.error_message.unwrap()
                } else {
                    "Request aborted"@
                },
                None => "Request aborted"@,
            };
            match end {
                crate::agent_loop::RunEnd::Completed => {
                    &&& e.lines == (if as_text && last is Some {
                        cli::answer_lines(last.unwrap().content, thoughts)
                    } else {
                        Seq::empty()
                    })
                    &&& e.errors == (if last is Some && last.unwrap().error_message is Some {
                        seq![cli::printable(last.unwrap().error_message.unwrap())]
                    } else {
                        Seq::empty()
                    })
                },
                crate::agent_loop::RunEnd::Deadline => e.errors == seq!["Deadline exceeded"@],
                crate::agent_loop::RunEnd::ModelCallBudget => e.errors == seq![
                    "ara: model call limit reached ("@ + text::decimal(calls as nat) + ")"@,
                ],
                _ => e.errors == seq![cli::printable(broken)],
            }
        }),
{
}

/// Of a session that was read each kind of trouble is told in a line of its own, in a fixed order,
/// and nothing is told where there was none.
pub proof fn law_what_is_told_of_a_session(
    path: Seq<char>,
    malformed: nat,
    undecodable: nat,
    paired: Seq<Seq<char>>,
    unpaired: Seq<Seq<char>>,
)
    ensures
        ({
            let notes = cli::session_notes(path, malformed, undecodable, paired, unpaired);
            let a: Seq<Seq<char>> = if malformed == 0 {
                Seq::empty()
            } else {
                seq![
                    "ara: skipped "@ + text::decimal(malformed) + " malformed record(s) in "@
                        + path,
                ]
            };
            let b: Seq<Seq<char>> = if undecodable == 0 {
                Seq::empty()
            } else {
                seq![
                    "ara: "@ + text::decimal(undecodable)
                        + " message(s) in the session could not be decoded and are not sent to the model"@,
                ]
            };
            let c: Seq<Seq<char>> = if paired.len() == 0 {
                Seq::empty()
            } else {
                seq![
                    "ara: tool call(s) "@ + text::join(paired, ", "@)
                        + " were interrupted before a result was recorded; their effects are unknown and they were not re-run"@,
                ]
            };
            let d: Seq<Seq<char>> = if unpaired.len() == 0 {
                Seq::empty()
            } else {
                seq![
                    "ara: earlier tool call(s) "@ + text::join(unpaired, ", "@)
                        + " have no recorded result"@,
                ]
            };
            notes == a + b + c + d
        }),
{
    let one = cli::session_notes(path, malformed, 0, Seq::empty(), Seq::empty());
    let two = cli::session_notes(path, malformed, undecodable, Seq::empty(), Seq::empty());
    let three = cli::session_notes(path, malformed, undecodable, paired, Seq::empty());
}

// ------------------------------------------------------------------ escape sequences

proof fn lemma_printed(s: Seq<char>, i: int, j: int)
    requires
        0 <= i <= j <= s.len(),
        forall|k: int| i <= k < j ==> !cli::is_control(#[trigger] s[k]),
    ensures
        cli::printable_from(s, i) == s.subrange(i, j) + cli::printable_from(s, j),
    decreases j - i,
{
    let tail = cli::printable_from(s, j);
    if i < j {
        assert(!cli::is_control(s[i]));
        lemma_printed(s, i + 1, j);
        assert(s.subrange(i, j) =~= seq![s[i]] + s.subrange(i + 1, j));
        assert(seq![s[i]] + (s.subrange(i + 1, j) + tail) =~= s.subrange(i, j) + tail);
    } else {
        assert(s.subrange(i, j) + tail =~= tail);
    }
}

proof fn lemma_sequence(s: Seq<char>, i: int, end: int)
    requires
        0 <= i <= end < s.len(),
        forall|k: int| i <= k < end ==> !(0x40 <= (#[trigger] s[k]) as int <= 0x7e),
        0x40 <= s[end] as int <= 0x7e,
    ensures
        cli::sequence_end(s, i) == end + 1,
    decreases end - i,
{
    if i < end {
        lemma_sequence(s, i + 1, end);
    }
}

/// An escape sequence vanishes as a whole, up to its final character; the text around it stays.
pub proof fn law_escape_sequences_vanish(
    before: Seq<char>,
    inner: Seq<char>,
    last: char,
    after: Seq<char>,
)
    requires
        forall|k: int| 0 <= k < before.len() ==> !cli::is_control(#[trigger] before[k]),
        forall|k: int| 0 <= k < after.len() ==> !cli::is_control(#[trigger] after[k]),
        forall|k: int| 0 <= k < inner.len() ==> !(0x40 <= (#[trigger] inner[k]) as int <= 0x7e),
        0x40 <= last as int <= 0x7e,
    ensures
        cli::printable(before + seq!['\u{1b}', '['] + inner + seq![last] + after) == before + after,
{
    let s = before + seq!['\u{1b}', '['] + inner + seq![last] + after;
    let n = before.len() as int;
    let end = n + 2 + inner.len();
    let m = s.len() as int;
    assert forall|k: int| 0 <= k < n implies !cli::is_control(#[trigger] s[k]) by {
        assert(s[k] == before[k]);
    }
    lemma_printed(s, 0, n);
    assert(s[n] == '\u{1b}' && s[n + 1] == '[');
    assert forall|k: int| n + 2 <= k < end implies !(0x40 <= (#[trigger] s[k]) as int <= 0x7e) by {
        assert(s[k] == inner[k - n - 2]);
    }
    assert(s[end] == last);
    lemma_sequence(s, n + 2, end);
    assert(cli::escape_end(s, n + 1) == end + 1);
    assert forall|k: int| end + 1 <= k < m implies !cli::is_control(#[trigger] s[k]) by {
        assert(s[k] == after[k - end - 1]);
    }
    lemma_printed(s, end + 1, m);
    assert(s.subrange(0, n) =~= before);
    assert(s.subrange(end + 1, m) =~= after);
    assert(cli::printable_from(s, m) =~= Seq::empty());
    assert(after + Seq::<char>::empty() =~= after);
}

/// Tabs, line feeds and everything from the blank on are printed, but for the characters that
/// control a terminal.
pub proof fn law_which_characters_are_printed(c: char)
    ensures
        c == '\t' || c == '\n' ==> !cli::is_control(c),
        0x20 <= c as int <= 0x7e ==> !cli::is_control(c),
        c as int >= 0xa0 ==> !cli::is_control(c),
        (c as int) < 0x20 && c != '\t' && c != '\n' ==> cli::is_control(c),
        0x7f <= c as int <= 0x9f ==> cli::is_control(c),
{
}

/// A model is named with its provider; a warning on a skill with the place of the skill, where it
/// has one.
pub proof fn law_how_things_are_named(
    m: crate::types::ModelView,
    w: crate::skills::SkillWarningView,
)
    ensures
        cli::model_name(m) == m.provider + "/"@ + m.id,
        w.skill_path.len() > 0 ==> cli::skill_note(w) == "ara: skill warning ("@ + w.skill_path
            + "): "@ + w.message,
        w.skill_path.len() == 0 ==> cli::skill_note(w) == "ara: skill warning: "@ + w.message,
{
}

/// A run without a journal is headed as a session of the present version without an id of its own.
pub proof fn law_how_a_run_without_a_journal_is_headed(cwd: Seq<char>)
    ensures
        cli::ephemeral_header(cwd) matches JsonView::Object(o) && o.contains(
            ("type"@, JsonView::String("session"@)),
        ) && o.contains(("id"@, JsonView::String("ephemeral"@))) && o.contains(
            ("cwd"@, JsonView::String(cwd)),
        ) && o.contains(("version"@, JsonView::Number(NumberView::PosInt(3)))),
{
    let o = cli::ephemeral_header(cwd)->Object_0;
    assert(o[0].0 == "type"@);
    assert(o[1].0 == "version"@);
    assert(o[2].0 == "id"@);
    assert(o[3].0 == "cwd"@);
}

/// A tool is labelled by its name with a capital letter.
pub proof fn law_how_tools_are_labelled(c: char, rest: Seq<char>)
    ensures
        'a' <= c <= 'z' ==> cli::label_of(seq![c] + rest) == seq![
            ((c as int) - 32) as char,
        ] + rest,
        'A' <= c <= 'Z' || c == '_' || '0' <= c <= '9' ==> cli::label_of(seq![c] + rest) == seq![c]
            + rest,
{
    let name = seq![c] + rest;
    assert(name.take(1) =~= seq![c]);
    assert(name.skip(1) =~= rest);
    assert(text::upper(seq![c]) =~= seq![text::upper(seq![c])[0]]);
}

} // verus!
