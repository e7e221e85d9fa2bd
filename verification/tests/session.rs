//! The journal of a session.
use ara::json::{values_equal, Json, JsonObject};
use ara::session::{
    latest_session, serialize_title_slot, unknown_effect_result, LoadReport, SessionError, SessionFile, SessionJournal,
    TitleSlot, Write, CORRUPT_HEADER_MESSAGE, SESSION_TITLE_SLOT_BYTES, UNKNOWN_EFFECT_TEXT,
};
use ara::types::{
    AssistantBlock, AssistantMessage, Message, StopReason, ToolCall, ToolResultMessage, UserBlock, UserMessage,
};

fn value(text: &str) -> Json {
    Json::from_text(text).unwrap()
}

fn assistant(text: &str, calls: &[&str]) -> Message {
    let mut m = AssistantMessage::empty("openai-completions", "fake", "m");
    if !text.is_empty() {
        m.content.push(AssistantBlock::text(text));
    }
    for id in calls {
        m.content.push(AssistantBlock::ToolCall(ToolCall {
            id: id.to_string(),
            name: "bash".into(),
            arguments: JsonObject::new(),
            thought_signature: None,
        }));
    }
    m.stop_reason = if calls.is_empty() { StopReason::Stop } else { StopReason::ToolUse };
    Message::Assistant(m)
}

fn result(id: &str) -> Message {
    Message::ToolResult(ToolResultMessage {
        tool_call_id: id.into(),
        tool_name: "bash".into(),
        content: vec![UserBlock::text("ok")],
        details: None,
        is_error: false,
        timestamp: 1,
    })
}

fn user(text: &str) -> Message {
    Message::User(UserMessage::text(text))
}

/// A file that is kept in memory.
struct Disk {
    file: Option<String>,
    backup: Option<String>,
    broken: bool,
}

fn disk() -> Disk {
    Disk { file: None, backup: None, broken: false }
}

impl Disk {
    fn take(&mut self, j: &mut SessionJournal, w: Write) -> Result<(), String> {
        if self.broken && !matches!(w, Write::Nothing) {
            j.roll_back();
            return Err("broken".into());
        }
        match &w {
            Write::Nothing => {}
            Write::Rewrite(s) => {
                if j.pending_backup {
                    self.backup = self.file.clone();
                    j.backed_up("s.jsonl.bak".into());
                }
                self.file = Some(s.clone());
            }
            Write::Append(s) => self.file.as_mut().unwrap().push_str(s),
        }
        j.wrote(&w);
        Ok(())
    }

    fn append(&mut self, j: &mut SessionJournal, m: &Message) -> Result<(), String> {
        let id = j.new_id();
        let w = j.append_message(m, id, "2026-01-01T00:00:00.000Z".into());
        self.take(j, w)
    }

    fn model(&mut self, j: &mut SessionJournal, model: &str) {
        let id = j.new_id();
        let w = j.append_model_change(model, id, "2026-01-01T00:00:00.000Z".into());
        self.take(j, w).unwrap();
    }

    fn lines(&self) -> Vec<Json> {
        self.file.as_ref().unwrap().lines().map(value).collect()
    }

    fn open(&self) -> Result<SessionJournal, String> {
        SessionJournal::open("s.jsonl", &self.file.as_ref().unwrap().clone().into_bytes()).map_err(|e| e.text())
    }
}

/// Answers the calls whose effects are unknown; their ids, and those that cannot be answered.
fn recover(d: &mut Disk, j: &mut SessionJournal) -> (Vec<String>, Vec<String>) {
    let found = j.interrupted_tool_calls();
    for call in &found.paired {
        d.append(j, &unknown_effect_result(&call.id, &call.name, 1)).unwrap();
    }
    (found.paired.iter().map(|c| c.id.clone()).collect(), found.unpaired_earlier.clone())
}

fn text_of(v: &Json, key: &str) -> String {
    match v.get(key) {
        Some(Json::String(s)) => s.clone(),
        other => panic!("{other:?}"),
    }
}

#[test]
fn lazy_materialization_and_per_entry_append() {
    let mut d = disk();
    let mut j = SessionJournal::create("/s", "/w");
    d.model(&mut j, "fake/m");
    d.append(&mut j, &user("hi")).unwrap();
    assert!(d.file.is_none(), "no file before an assistant message");
    d.append(&mut j, &assistant("hello", &[])).unwrap();
    let raw = d.file.clone().unwrap();
    let first_line_len = raw.find('\n').unwrap() as u64 + 1;
    assert_eq!(first_line_len, SESSION_TITLE_SLOT_BYTES, "fixed-width title slot");
    let l = d.lines();
    assert_eq!(text_of(&l[0], "type"), "title");
    assert_eq!(text_of(&l[1], "type"), "session");
    assert!(values_equal(l[1].get("version").unwrap(), &value("3")));
    assert_eq!(text_of(&l[1], "id"), j.session_id());
    assert_eq!(l.len(), 5);
    assert_eq!(text_of(&l[2], "type"), "model_change");
    assert_eq!(l[2].get("parentId"), Some(&Json::Null));
    assert_eq!(l[3].get("parentId"), l[2].get("id"));
    assert_eq!(l[4].get("parentId"), l[3].get("id"));
    assert_eq!(text_of(&l[4], "id").len(), 8);
    // Every later entry is on disk as soon as append returns.
    d.append(&mut j, &user("more")).unwrap();
    assert_eq!(d.lines().len(), 6);
}

#[test]
fn a_new_session_has_a_hyphenated_id() {
    let id = SessionJournal::create("/s", "/w").session_id();
    assert_eq!(id.len(), 36);
    for (i, c) in id.chars().enumerate() {
        if [8, 13, 18, 23].contains(&i) {
            assert_eq!(c, '-');
        } else {
            assert!(c.is_ascii_digit() || ('a'..='f').contains(&c));
        }
    }
}

#[test]
fn reopen_restores_branch_and_continues_chain() {
    let mut d = disk();
    let mut j = SessionJournal::create("/s", "/w");
    d.model(&mut j, "fake/m");
    let msgs = vec![user("q"), assistant("", &["c1"]), result("c1"), assistant("done", &[])];
    for m in &msgs {
        d.append(&mut j, m).unwrap();
    }
    let leaf = j.leaf_id().unwrap().to_string();
    let mut r = d.open().unwrap();
    assert_eq!(r.report, LoadReport { malformed_records: 0, backup: None });
    assert_eq!(r.build_context(), msgs);
    assert_eq!(r.current_model().as_deref(), Some("fake/m"));
    assert_eq!(r.leaf_id(), Some(leaf.as_str()));
    d.append(&mut r, &user("next")).unwrap();
    assert_eq!(text_of(d.lines().last().unwrap(), "parentId"), leaf);
}

#[test]
fn torn_tail_is_backed_up_then_rewritten() {
    let mut d = disk();
    let mut j = SessionJournal::create("/s", "/w");
    d.append(&mut j, &assistant("seed", &[])).unwrap();
    let torn = r#"{"type":"message","id":"torn","message":{"role":"user","content":"lost"#;
    d.file.as_mut().unwrap().push_str(torn);
    let original = d.file.clone();

    let mut r = d.open().unwrap();
    assert_eq!(r.report.malformed_records, 1);
    assert_eq!(d.file, original, "open alone never rewrites");
    d.append(&mut r, &user("after resume")).unwrap();
    let kinds: Vec<String> = d.lines().iter().skip(1).map(|v| text_of(v, "type")).collect();
    assert_eq!(kinds, vec!["session", "message", "message"]);
    assert!(r.report.backup.is_some(), "backup written");
    assert_eq!(d.backup, original, "torn bytes preserved");
    // A further append takes the fast path again.
    d.append(&mut r, &user("again")).unwrap();
    assert_eq!(d.lines().len(), 5);
}

#[test]
fn corrupt_header_is_rejected_without_touching_bytes() {
    let original = "{broken header\n{\"type\":\"message\",\"id\":\"m1\",\"parentId\":null,\"timestamp\":\"t\",\"message\":{\"role\":\"user\",\"content\":\"recover me\",\"timestamp\":0}}\n";
    let d = Disk { file: Some(original.into()), ..disk() };
    let err = d.open().err().expect("rejected");
    assert!(err.ends_with(CORRUPT_HEADER_MESSAGE), "{err}");
    assert!(err.starts_with("s.jsonl: "), "{err}");
    assert_eq!(d.file.as_deref(), Some(original));
    let d = Disk { file: Some("{\"type\":\"message\",\"id\":\"x\"}\n".into()), ..disk() };
    assert!(d.open().is_err());
}

#[test]
fn interrupted_tool_calls_get_unknown_effect_results() {
    let mut d = disk();
    let mut j = SessionJournal::create("/s", "/w");
    d.append(&mut j, &user("q")).unwrap();
    d.append(&mut j, &assistant("", &["c1", "c2"])).unwrap();
    d.append(&mut j, &result("c1")).unwrap();

    // A crash while c2 was running.
    let mut r = d.open().unwrap();
    assert_eq!(recover(&mut d, &mut r), (vec!["c2".to_string()], vec![]));
    let ctx = r.build_context();
    let Message::ToolResult(last) = ctx.last().unwrap() else { panic!() };
    assert_eq!(last.tool_call_id, "c2");
    assert!(last.is_error);
    assert_eq!(text_of(last.details.as_ref().unwrap(), "source"), "interrupted_unknown_effect");
    assert!(matches!(&last.content[0], UserBlock::Text(t) if t.text == UNKNOWN_EFFECT_TEXT));
    assert_eq!(recover(&mut d, &mut r), (vec![], vec![]), "idempotent");
    assert_eq!(d.open().unwrap().build_context().len(), 4, "recovery is journaled");
}

#[test]
fn unknown_entry_types_survive_rewrite() {
    let mut d = disk();
    let mut j = SessionJournal::create("/s", "/w");
    d.append(&mut j, &assistant("seed", &[])).unwrap();
    let leaf = j.leaf_id().unwrap().to_string();
    let label = format!(
        r#"{{"type":"label","id":"lbl00001","parentId":"{leaf}","timestamp":"t","targetId":"{leaf}","label":"keep"}}"#
    );
    d.file.as_mut().unwrap().push_str(&format!("{label}\nnot json\n"));
    let mut r = d.open().unwrap();
    d.append(&mut r, &user("x")).unwrap();
    assert!(d.lines().contains(&value(&label)), "foreign entry preserved verbatim");
    assert_eq!(r.build_context().len(), 2, "label is not model context");
}

#[test]
fn title_slot_is_fixed_width_even_for_long_titles() {
    let slot = serialize_title_slot(&TitleSlot {
        title: "长标题".repeat(200),
        source: Some("user".into()),
        updated_at: "2026-09-25T00:00:00.000Z".into(),
    });
    assert_eq!(slot.len() as u64, SESSION_TITLE_SLOT_BYTES);
    let v = value(slot.trim_end());
    assert_eq!(text_of(&v, "type"), "title");
    assert!(text_of(&v, "title").starts_with("长标题"));
}

const HEADER: &str = r#"{"type":"session","version":3,"id":"s","timestamp":"2026-09-01T00:00:00.000Z","cwd":"/"}"#;

fn message(id: &str, parent: &str, text: &str) -> String {
    format!(
        r#"{{"type":"message","id":"{id}","parentId":{parent},"timestamp":"t","message":{{"role":"user","content":"{text}","timestamp":0}}}}"#
    )
}

#[test]
fn unsupported_version_is_rejected_untouched() {
    let d = Disk {
        file: Some(format!(
            "{}\n{}\n",
            r#"{"type":"session","id":"x","timestamp":"t","cwd":"/"}"#,
            r#"{"type":"message","timestamp":"t","message":{"role":"user","content":"old","timestamp":0}}"#
        )),
        ..disk()
    };
    let err = d.open().err().unwrap();
    assert!(err.contains("unsupported session version 1"), "{err}");
}

#[test]
fn missing_parent_stops_the_walk_instead_of_failing() {
    let broken = "{\"type\":\"message\",\"id\":\"b\",\"parentId\":\"a\",\"message\":\"\\ud83d broken\n";
    let body = format!(
        "{HEADER}\n{}\n{broken}{}\n",
        message("a", "null", "first"),
        message("c", "\"b\"", "after gap")
    );
    let j = Disk { file: Some(body), ..disk() }.open().unwrap();
    assert_eq!(j.report.malformed_records, 1);
    let ctx = j.build_context();
    assert_eq!(ctx.len(), 1);
    assert!(matches!(&ctx[0], Message::User(u) if u.content.plain_text() == "after gap"));
}

#[test]
fn title_slot_source_survives_rewrite() {
    let slot = serialize_title_slot(&TitleSlot {
        title: "My fix".into(),
        source: Some("user".into()),
        updated_at: "2026-09-20T00:00:00.000Z".into(),
    });
    let mut d = Disk { file: Some(format!("{slot}{HEADER}\nnot json\n")), ..disk() };
    let mut j = d.open().unwrap();
    d.append(&mut j, &user("x")).unwrap();
    let first = &d.lines()[0];
    assert_eq!(text_of(first, "source"), "user");
    assert_eq!(text_of(first, "updatedAt"), "2026-09-20T00:00:00.000Z");
    assert_eq!(text_of(first, "title"), "My fix");
}

#[test]
fn recovery_uses_raw_entries_and_reports_non_adjacent_gaps() {
    let mut d = disk();
    let mut j = SessionJournal::create("/s", "/w");
    d.append(&mut j, &assistant("", &["c1"])).unwrap();
    // A newer writer's tool result that cannot be decoded (unknown content block).
    let leaf = text_of(d.lines().last().unwrap(), "id");
    d.file.as_mut().unwrap().push_str(&format!(
        r#"{{"type":"message","id":"r0000001","parentId":"{leaf}","timestamp":"t","message":{{"role":"toolResult","toolCallId":"c1","toolName":"bash","content":[{{"type":"hologram"}}],"isError":false,"timestamp":1}}}}"#
    ));
    d.file.as_mut().unwrap().push('\n');
    let mut r = d.open().unwrap();
    assert_eq!(r.undecodable_messages(), 1);
    assert_eq!(recover(&mut d, &mut r), (vec![], vec![]), "undecodable result still counts as answered");

    // Unpaired call followed by a user message cannot be paired adjacently.
    let mut d = disk();
    let mut j = SessionJournal::create("/s", "/w");
    d.append(&mut j, &assistant("", &["c9"])).unwrap();
    d.append(&mut j, &user("queued")).unwrap();
    let before = j.entries().len();
    assert_eq!(recover(&mut d, &mut j), (vec![], vec!["c9".to_string()]));
    assert_eq!(j.entries().len(), before, "nothing appended out of place");
}

#[test]
fn a_second_recovery_reports_the_same_earlier_calls() {
    let mut d = disk();
    let mut j = SessionJournal::create("/s", "/w");
    d.append(&mut j, &assistant("", &["c1", "c2"])).unwrap();
    d.append(&mut j, &result("c2")).unwrap();
    d.append(&mut j, &user("queued")).unwrap();
    d.append(&mut j, &assistant("", &["c3", "c4"])).unwrap();
    d.append(&mut j, &result("c3")).unwrap();
    assert_eq!(recover(&mut d, &mut j), (vec!["c4".to_string()], vec!["c1".to_string()]));
    let entries = j.entries().len();
    assert_eq!(recover(&mut d, &mut j), (vec![], vec!["c1".to_string()]));
    assert_eq!(j.entries().len(), entries);
}

#[test]
fn a_journal_can_be_written_before_the_first_answer() {
    let mut j = SessionJournal::create("/s", "/w");
    let id = j.new_id();
    assert!(matches!(j.append_message(&user("q"), id, "t".into()), Write::Nothing));
    match j.materialize() {
        Write::Rewrite(body) => assert!(body.contains(r#""role":"user""#) && body.ends_with('\n')),
        _ => panic!("nothing to write"),
    }
}

#[test]
fn duplicate_ids_resolve_to_the_last_line() {
    let body = format!(
        "{HEADER}\n{}\n{}\n",
        message("dup00001", "null", "first"),
        message("dup00001", "null", "second")
    );
    let j = Disk { file: Some(body), ..disk() }.open().unwrap();
    assert_eq!(j.report.malformed_records, 0);
    assert_eq!(j.entries().len(), 2, "both lines kept for rewrite fidelity");
    let ctx = j.build_context();
    assert!(matches!(&ctx[..], [Message::User(u)] if u.content.plain_text() == "second"));
}

#[test]
fn failed_append_is_rolled_back_and_retried_by_rewrite() {
    let mut d = disk();
    let mut j = SessionJournal::create("/s", "/w");
    d.append(&mut j, &assistant("seed", &[])).unwrap();
    let (len, leaf) = (j.entries().len(), j.leaf_id().unwrap().to_string());
    d.broken = true;
    assert!(d.append(&mut j, &user("lost")).is_err());
    assert_eq!(j.entries().len(), len, "an error means not recorded");
    assert_eq!(j.leaf_id(), Some(leaf.as_str()));
    d.broken = false;
    d.file = None;
    d.append(&mut j, &user("kept")).unwrap();
    let l = d.lines();
    assert_eq!(l.len(), 4, "full rewrite restored seed + kept");
    assert_eq!(text_of(&l[3], "parentId"), leaf);
}

#[test]
fn ids_are_new_and_journals_have_names() {
    let j = SessionJournal::create("/s", "/w");
    let (a, b) = (j.new_id(), j.new_id());
    assert_eq!(a.len(), 8);
    assert_ne!(a, b);
    assert!(a.chars().all(|c| c.is_ascii_hexdigit()));
    assert!(j.path().starts_with("/s/") && j.path().ends_with(".jsonl"));
    assert!(j.path().contains(&j.session_id()));
    assert_ne!(SessionJournal::create("/s", "/w").session_id(), j.session_id());
    assert!(!j.is_on_disk());
}

#[test]
fn the_latest_session_is_the_newest_journal() {
    let file = |name: &str, modified| SessionFile { name: name.into(), modified };
    let files = vec![
        file("a.jsonl", Some(5)),
        file("b.txt", Some(9)),
        file("c.jsonl", Some(7)),
        file("d.jsonl", Some(7)),
        file("e.jsonl", None),
        file(".jsonl", Some(8)),
    ];
    assert_eq!(latest_session(&files).as_deref(), Some("c.jsonl"));
    assert_eq!(latest_session(&vec![]), None);
    assert_eq!(SessionError::Io("gone".into()).text(), "gone");
}

#[test]
fn stamps_are_new() {
    let j = SessionJournal::create("/s", "/w");
    let (id, time) = j.new_stamp();
    assert_eq!(id.len(), 8);
    assert!(id.chars().all(|c| c.is_ascii_hexdigit()));
    assert_eq!(time.len(), "2026-01-01T00:00:00.000Z".len());
    assert_eq!((&time[10..11], &time[23..]), ("T", "Z"));
}
