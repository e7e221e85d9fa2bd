//! What the command line decides.
use ara::agent_loop::RunEnd;
use ara::cli::{
    choose_cwd, conclude, default_session_dir, find_home, initial_prompts, is_openrouter, list_names, model_ref,
    resolve_route, sanitize_text, send_next, tool_label, write_ephemeral_header, write_session_notes, write_skill_note,
    CwdChoice, EnvVar, RouteArgs, RouteError,
};
use ara::skills::SkillWarning;
use ara::types::{AssistantBlock, AssistantMessage, Message, StopReason, ThinkingContent, UserMessage};

#[test]
fn sanitize_strips_ansi_and_controls() {
    assert_eq!(sanitize_text("a\x1b[31mred\x1b[0m\tb\nc\x07\r"), "ared\tb\nc");
    assert_eq!(sanitize_text("x\x1b]52;c;ZXZpbA==\x07y"), "xy");
    assert_eq!(sanitize_text("x\x1b]0;title\x1b\\y\u{9b}z"), "xyz");
    assert_eq!(sanitize_text("中文 ok"), "中文 ok");
}

#[test]
fn sanitized_text_stays_as_it_is() {
    let once = sanitize_text("a\x1b[1mb\x1b");
    assert_eq!(once, "ab");
    assert_eq!(sanitize_text(&once), once);
    assert_eq!(sanitize_text("\x1b[no end"), "o end");
    assert_eq!(sanitize_text("\x1b[12"), "");
}

#[test]
fn openrouter_detection_uses_the_host() {
    assert!(is_openrouter("https://openrouter.ai/api/v1"));
    assert!(!is_openrouter("http://evil.example/openrouter.ai/v1"));
    assert!(!is_openrouter("http://127.0.0.1:8080/v1"));
}

#[test]
fn hosts_below_openrouter_count() {
    assert!(is_openrouter("https://eu.openrouter.ai:443/v1"));
    assert!(!is_openrouter("https://notopenrouter.ai/v1"));
    assert!(!is_openrouter("openrouter.ai"));
}

fn var(name: &str, value: &str) -> EnvVar {
    EnvVar { name: name.into(), value: value.into() }
}

fn args() -> RouteArgs {
    RouteArgs {
        model: Some("m".into()),
        base_url: Some("http://localhost/v1".into()),
        api_key_env: None,
        provider: None,
        headers: vec![],
        tools: "read, bash".into(),
    }
}

#[test]
fn keys_stay_on_their_route() {
    let env = vec![var("OPENROUTER_API_KEY", "or"), var("ARA_API_KEY", ""), var("ARA_TEST_API_KEY", "test")];
    let route = resolve_route(&args(), &env).unwrap();
    assert_eq!(route.api_key.as_deref(), Some("test"));
    assert_eq!(route.model.provider, "openai-compatible");
    let there = RouteArgs { base_url: Some("https://openrouter.ai/api/v1".into()), ..args() };
    let route = resolve_route(&there, &env).unwrap();
    assert_eq!(route.api_key.as_deref(), Some("or"));
    assert_eq!(route.model.provider, "openrouter");
    assert_eq!(resolve_route(&there, &vec![var("ARA_API_KEY", "k")]).unwrap().api_key, None);
    let named = RouteArgs { api_key_env: Some("OPENROUTER_API_KEY".into()), ..args() };
    assert_eq!(resolve_route(&named, &env).unwrap().api_key.as_deref(), Some("or"));
}

#[test]
fn routes_that_are_refused() {
    let none = vec![];
    let refused = |a: RouteArgs| resolve_route(&a, &none).unwrap_err();
    assert!(matches!(refused(RouteArgs { model: None, ..args() }), RouteError::NoModel));
    assert!(matches!(refused(RouteArgs { base_url: None, ..args() }), RouteError::NoBaseUrl));
    assert!(matches!(refused(RouteArgs { api_key_env: Some("K".into()), ..args() }), RouteError::KeyNotSet(k) if k == "K"));
    assert!(
        matches!(refused(RouteArgs { headers: vec!["a: b".into(), "bad".into()], ..args() }), RouteError::BadHeader(h) if h == "bad")
    );
    assert!(
        matches!(refused(RouteArgs { tools: "read,nope".into(), ..args() }), RouteError::UnknownTool(t) if t == "nope")
    );
}

#[test]
fn routes_from_the_environment() {
    let env = vec![var("ARA_TEST_MODEL_ID", "tm"), var("OPENROUTER_BASE_URL", "https://openrouter.ai/api/v1")];
    let route = resolve_route(
        &RouteArgs { model: None, base_url: None, headers: vec![" X-A : b:c ".into()], ..args() },
        &env,
    )
    .unwrap();
    assert_eq!(route.model.id, "tm");
    assert_eq!(route.model.base_url, "https://openrouter.ai/api/v1");
    assert_eq!((route.extra_headers[0].name.as_str(), route.extra_headers[0].value.as_str()), ("X-A", "b:c"));
    assert_eq!(model_ref(&route.model), "openrouter/tm");
}

#[test]
fn prompts_and_places() {
    let two = vec!["a".to_string(), "b".to_string()];
    assert_eq!(initial_prompts(&two, &Some(" in\n".into())), ["in\na", "b"]);
    assert_eq!(initial_prompts(&two, &Some(" \n".into())), ["a", "b"]);
    assert_eq!(initial_prompts(&vec![], &Some("in".into())), ["in"]);
    assert_eq!(initial_prompts(&vec![], &None), Vec::<String>::new());
    assert_eq!(list_names(" a,, b ,"), ["a", "b"]);
    assert_eq!(find_home(&None, &Some("/h".into())), "/h/.ara");
    assert_eq!(find_home(&Some("/x".into()), &Some("/h".into())), "/x");
    assert_eq!(find_home(&None, &None), ".ara");
    assert_eq!(default_session_dir("/h/.ara", "/a/b:c/"), "/h/.ara/sessions/--a-b-c--");
    assert_eq!(default_session_dir("/h/.ara", "/"), "/h/.ara/sessions/----");
    assert_eq!(tool_label("read"), "Read");
    assert_eq!(tool_label("éa"), "");
}

#[test]
fn where_a_resumed_session_runs() {
    assert_eq!(choose_cwd(true, true, false, true), CwdChoice::OwnWithWarning);
    assert_eq!(choose_cwd(true, true, true, false), CwdChoice::Own);
    assert_eq!(choose_cwd(false, true, false, true), CwdChoice::Recorded);
    assert_eq!(choose_cwd(false, true, false, false), CwdChoice::Gone);
    assert_eq!(choose_cwd(false, false, false, false), CwdChoice::Own);
}

#[test]
fn notes_on_a_session() {
    let notes = write_session_notes("/s", 2, 1, &vec!["a".into(), "b".into()], &vec!["c".into()]);
    assert_eq!(notes.len(), 4);
    assert_eq!(notes[0], "ara: skipped 2 malformed record(s) in /s");
    assert!(notes[2].starts_with("ara: tool call(s) a, b were interrupted"));
    assert_eq!(notes[3], "ara: earlier tool call(s) c have no recorded result");
    assert!(write_session_notes("/s", 0, 0, &vec![], &vec![]).is_empty());
    let at = SkillWarning { skill_path: "/p".into(), message: "m".into() };
    assert_eq!(write_skill_note(&at), "ara: skill warning (/p): m");
    assert_eq!(
        write_ephemeral_header("/w").text(),
        r#"{"type":"session","version":3,"id":"ephemeral","cwd":"/w"}"#
    );
}

fn answer(error: Option<&str>, stop: StopReason) -> Vec<Message> {
    let mut a = AssistantMessage::empty("a", "p", "m");
    a.content.push(AssistantBlock::Thinking(ThinkingContent { thinking: "t".into(), thinking_signature: None }));
    a.content.push(AssistantBlock::text("x\x1b[0my"));
    a.stop_reason = stop;
    a.error_message = error.map(|e| e.to_string());
    vec![Message::Assistant(a), Message::User(UserMessage::text("u"))]
}

#[test]
fn how_the_host_ends() {
    let done = answer(None, StopReason::Stop);
    let e = conclude(RunEnd::Completed, &done, true, false, 0, false);
    assert_eq!((e.lines, e.errors.len(), e.code), (vec!["xy".to_string()], 0, 0));
    let e = conclude(RunEnd::Completed, &done, true, true, 0, true);
    assert_eq!((e.lines, e.code), (vec!["t".to_string(), "xy".to_string()], 1));
    let e = conclude(RunEnd::Completed, &done, false, true, 0, false);
    assert!(e.lines.is_empty());
    let failed = answer(Some("bad\x07"), StopReason::Error);
    let e = conclude(RunEnd::Error, &failed, true, false, 0, false);
    assert_eq!((e.errors, e.code), (vec!["bad".to_string()], 1));
    let e = conclude(RunEnd::Aborted, &done, true, false, 0, false);
    assert_eq!(e.errors, ["Request aborted"]);
    let e = conclude(RunEnd::Deadline, &done, true, false, 0, false);
    assert_eq!((e.lines.len(), e.errors, e.code), (0, vec!["Deadline exceeded".to_string()], 1));
    let e = conclude(RunEnd::ModelCallBudget, &done, true, false, 7, false);
    assert_eq!(e.errors, ["ara: model call limit reached (7)"]);
}

#[test]
fn messages_follow_completed_runs() {
    let sent = |ends: &[RunEnd]| {
        let mut n = 0;
        for end in ends {
            n += 1;
            if !send_next(*end) {
                break;
            }
        }
        n
    };
    assert_eq!(sent(&[RunEnd::Completed, RunEnd::Completed, RunEnd::Completed]), 3);
    assert_eq!(sent(&[RunEnd::Completed, RunEnd::Deadline, RunEnd::Completed]), 2);
    for end in [RunEnd::Deadline, RunEnd::ModelCallBudget, RunEnd::Aborted, RunEnd::Error] {
        assert_eq!(sent(&[end, RunEnd::Completed]), 1);
    }
}
