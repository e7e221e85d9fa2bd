//! What a damaged or interrupted session comes back as.
use crate::json;
use crate::json::{JsonView, NumberView};
use crate::session;
use crate::session::{
    EntryView, LoadingView, SessionFileView, SessionJournalView, TitleSlotView, WriteView,
    SESSION_TITLE_SLOT_BYTES,
};
use crate::text;
use crate::text::Space;
use crate::types::UserBlockView;
use vstd::prelude::*;

verus! {

/// A text member of a record.
pub open spec fn text_in(v: JsonView, name: Seq<char>) -> Option<Seq<char>> {
    match json::member(v, name) {
        Some(JsonView::String(s)) => Some(s),
        _ => None,
    }
}

// ------------------------------------------------------------------ reading

/// A title counts only in the first record; it is kept with its source and its time, and nothing
/// else changes.
pub proof fn law_a_title_comes_first(st: LoadingView, v: JsonView)
    requires
        text_in(v, "type"@) == Some("title"@),
        json::member(v, "v"@) == Some(JsonView::Number(NumberView::PosInt(1))),
    ensures
        st.first ==> (session::with_record(st, Some(v)) matches Ok(n) && n.header == st.header
            && n.entries == st.entries && n.malformed == st.malformed && !n.first && (
        n.title matches Some(t) && t.source == text_in(v, "source"@) && (text_in(
            v,
            "title"@,
        ) matches Some(s) ==> t.title == s) && (text_in(v, "title"@) is None ==> t.title.len()
            == 0))),
        !st.first ==> (session::with_record(st, Some(v)) matches Ok(n) ==> n.title == st.title),
{
}

/// Blank lines are skipped; every other line is read as one record, in order, and the first error
/// ends the reading.
pub proof fn law_lines_are_read_in_order(lines: Seq<Seq<char>>, i: int, st: LoadingView)
    requires
        0 <= i < lines.len(),
    ensures
        ({
            let rest = session::loaded_from(lines, i, st);
            let blank = text::all_space(Space::Unicode, lines[i]);
            let record = match json::parsed(lines[i]) {
                Ok(JsonView::Object(o)) => Some(JsonView::Object(o)),
                _ => None,
            };
            &&& blank ==> rest == session::loaded_from(lines, i + 1, st)
            &&& !blank ==> (match session::with_record(st, record) {
                Ok(next) => rest == session::loaded_from(lines, i + 1, next),
                Err(e) => rest == Err::<LoadingView, Seq<char>>(e),
            })
        }),
        session::loaded_from(lines, lines.len() as int, st) == Ok::<LoadingView, Seq<char>>(st),
{
}

/// A file that does not end with a line end was cut off.
pub proof fn law_when_a_file_is_cut_off(bytes: Seq<u8>, last: u8)
    ensures
        session::is_torn(bytes.push(last)) <==> last != 10,
        !session::is_torn(Seq::empty()),
{
}

/// Messages that cannot be read are counted, one by one.
pub proof fn law_unreadable_messages_are_counted(entries: Seq<EntryView>, e: EntryView)
    ensures
        session::unreadable_in(Seq::empty()) == 0,
        session::unreadable_in(entries.push(e)) == session::unreadable_in(entries) + (if e.kind
            == "message"@ && session::message_of(e) is None {
            1nat
        } else {
            0nat
        }),
{
    assert(entries.push(e).drop_last() =~= entries);
}

/// Of several entries of an id the last one counts.
pub proof fn law_the_last_entry_of_an_id_counts(entries: Seq<EntryView>, id: Seq<char>, n: int)
    requires
        0 <= n <= entries.len(),
    ensures
        match session::entry_at(entries, id, n) {
            Some(i) => 0 <= i < n && entries[i].id == id && forall|k: int|
                i < k < n ==> (#[trigger] entries[k]).id != id,
            None => forall|k: int| 0 <= k < n ==> (#[trigger] entries[k]).id != id,
        },
    decreases n,
{
    if n > 0 && entries[n - 1].id != id {
        law_the_last_entry_of_an_id_counts(entries, id, n - 1);
    }
}

// ------------------------------------------------------------------ writing

/// A title that does not fit is cut at its end, as little as possible.
pub proof fn law_titles_are_cut_to_fit(slot: TitleSlotView, title: Seq<char>)
    ensures
        ({
            let t = session::fitted(slot, title);
            let fits = |s: Seq<char>|
                session::byte_len(session::title_line(slot, s, Seq::empty()))
                    <= SESSION_TITLE_SLOT_BYTES;
            &&& t.len() <= title.len() && t == title.take(t.len() as int)
            &&& t.len() > 0 ==> fits(t)
            &&& forall|n: int| t.len() < n <= title.len() ==> !fits(#[trigger] title.take(n))
        }),
    decreases title.len(),
{
    let t = session::fitted(slot, title);
    let less = title.drop_last();
    if title.len() == 0 || session::byte_len(session::title_line(slot, title, Seq::empty()))
        <= SESSION_TITLE_SLOT_BYTES {
        assert(title.take(title.len() as int) =~= title);
    } else {
        law_titles_are_cut_to_fit(slot, less);
        assert(less.take(t.len() as int) =~= title.take(t.len() as int));
        assert forall|n: int| t.len() < n <= title.len() implies session::byte_len(
            session::title_line(slot, #[trigger] title.take(n), Seq::empty()),
        ) > SESSION_TITLE_SLOT_BYTES by {
            if n == title.len() {
                assert(title.take(n) =~= title);
            } else {
                assert(less.take(n) =~= title.take(n));
            }
        }
    }
}

/// What was written whole is on disk and need not be written whole again; an append changes
/// nothing of the journal.
pub proof fn law_what_a_write_settles(j: SessionJournalView, s: Seq<char>)
    ensures
        ({
            let n = session::after_write(j, WriteView::Rewrite(s));
            &&& n.materialized && !n.rewrite_required
            &&& n.entries == j.entries && n.leaf == j.leaf && n.header == j.header && n.title
                == j.title && n.path == j.path && n.pending_backup == j.pending_backup
        }),
        session::after_write(j, WriteView::Append(s)) == j,
        session::after_write(j, WriteView::Nothing) == j,
{
}

/// An entry that could not be written is taken back: the one before it is the leaf again, and the
/// file is written whole the next time.
pub proof fn law_a_failed_entry_is_taken_back(j: SessionJournalView)
    requires
        j.entries.len() > 0,
    ensures
        ({
            let n = session::rolled_back(j);
            &&& n.entries == j.entries.drop_last()
            &&& n.leaf == j.entries.last().parent_id
            &&& n.rewrite_required
            &&& n.materialized == j.materialized && n.header == j.header && n.title == j.title
        }),
{
}

// ------------------------------------------------------------------ interrupted calls

proof fn lemma_missing(calls: Seq<(Seq<char>, Seq<char>)>, answered: Seq<Seq<char>>)
    ensures
        session::missing_of(calls, answered) == calls.filter(
            |c: (Seq<char>, Seq<char>)| !answered.contains(c.0),
        ),
    decreases calls.len(),
{
    reveal(Seq::filter);
    let open = |c: (Seq<char>, Seq<char>)| !answered.contains(c.0);
    if calls.len() > 0 {
        lemma_missing(calls.drop_last(), answered);
    } else {
        assert(session::missing_of(calls, answered) =~= Seq::empty());
        assert(calls.filter(open) =~= Seq::empty());
    }
}

/// The calls of an answer that no result answers are missing: those of the last answer, where only
/// results follow it, can be answered; those of earlier ones cannot, and are told by their ids.
pub proof fn law_which_calls_are_missing(
    branch: Seq<EntryView>,
    answered: Seq<Seq<char>>,
    n: int,
)
    requires
        0 < n <= branch.len(),
    ensures
        ({
            let e = branch[n - 1];
            let before = session::gaps_in(branch, answered, n - 1);
            let all = session::gaps_in(branch, answered, n);
            let open = session::calls_of(e).filter(
                |c: (Seq<char>, Seq<char>)| !answered.contains(c.0),
            );
            let last = forall|k: int|
                n - 1 < k < branch.len() ==> (#[trigger] branch[k]).kind != "message"@
                    || session::role_of(branch[k]) == Some("toolResult"@);
            &&& session::role_of(e) != Some("assistant"@) ==> all == before
            &&& session::role_of(e) == Some("assistant"@) && last ==> all.paired == before.paired
                + open && all.unpaired == before.unpaired
            &&& session::role_of(e) == Some("assistant"@) && !last ==> all.paired == before.paired
                && all.unpaired == before.unpaired + open.map_values(
                |c: (Seq<char>, Seq<char>)| c.0,
            )
        }),
{
    let e = branch[n - 1];
    lemma_missing(session::calls_of(e), answered);
    let last = forall|k: int|
        n - 1 < k < branch.len() ==> (#[trigger] branch[k]).kind != "message"@ || session::role_of(
            branch[k],
        ) == Some("toolResult"@);
    assert(session::results_follow(branch, n - 1) == last) by {
        if session::results_follow(branch, n - 1) {
            assert forall|k: int| n - 1 < k < branch.len() implies (#[trigger] branch[k]).kind
                != "message"@ || session::role_of(branch[k]) == Some("toolResult"@) by {
                assert(session::is_result(branch[k]));
            }
        }
        if last {
            assert forall|k: int| n - 1 < k < branch.len() implies session::is_result(
                #[trigger] branch[k],
            ) by {}
        }
    }
}

/// A call is a block of that type with an id and a name; others are passed over.
pub proof fn law_which_blocks_are_calls(blocks: Seq<JsonView>, b: JsonView)
    ensures
        session::calls_in(Seq::empty()).len() == 0,
        session::calls_in(blocks.push(b)) == (if text_in(b, "type"@) == Some("toolCall"@)
            && text_in(b, "id"@) is Some && text_in(b, "name"@) is Some {
            session::calls_in(blocks).push((text_in(b, "id"@).unwrap(), text_in(b, "name"@).unwrap()))
        } else {
            session::calls_in(blocks)
        }),
{
    assert(blocks.push(b).drop_last() =~= blocks);
}

/// A call is answered by a tool result with its id.
pub proof fn law_which_calls_are_answered(branch: Seq<EntryView>, n: int)
    requires
        0 < n <= branch.len(),
    ensures
        ({
            let e = branch[n - 1];
            let id = session::message_member(e, "toolCallId"@);
            let before = session::answered_in(branch, n - 1);
            &&& session::role_of(e) == Some("toolResult"@) && (id matches Some(JsonView::String(_)))
                ==> session::answered_in(branch, n) == before.push(id.unwrap()->String_0)
            &&& session::role_of(e) != Some("toolResult"@) ==> session::answered_in(branch, n)
                == before
        }),
{
}

/// The answer to a call whose result was never recorded is a failure under its id and name that
/// says that its effect is unknown.
pub proof fn law_an_unknown_effect_is_told(id: Seq<char>, name: Seq<char>, now: i64)
    ensures
        ({
            let m = session::unknown_effect(id, name, now);
            &&& m.tool_call_id == id && m.tool_name == name && m.is_error && m.timestamp == now
            &&& m.content.len() == 1 && (m.content[0] matches UserBlockView::Text(t) && t.text
                == session::UNKNOWN_EFFECT_TEXT@)
            &&& m.details matches Some(d) && json::member(d, "executed"@) == Some(
                JsonView::String("unknown"@),
            ) && json::member(d, "source"@) == Some(JsonView::String("interrupted_unknown_effect"@))
        }),
{
    reveal_strlit("__synthetic");
    reveal_strlit("source");
    reveal_strlit("executed");
    assert("__synthetic"@.len() == 11 && "source"@.len() == 6 && "executed"@.len() == 8);
    reveal_with_fuel(json::find_key, 4);
}

/// Only files with the ending of a journal, and a time, can be the latest session.
pub proof fn law_which_files_can_be_resumed(stem: Seq<char>, f: SessionFileView)
    requires
        stem.len() > 0,
        f.name == stem + ".jsonl"@,
    ensures
        session::counts(f) <==> f.modified is Some,
        !session::is_journal_name(stem.push('x')),
{
    reveal_strlit(".jsonl");
    assert(".jsonl"@.len() == 6 && ".jsonl"@[5] == 'l');
    let n = f.name.len() as int;
    assert(f.name.subrange(n - 6, n) =~= ".jsonl"@);
    let other = stem.push('x');
    let m = other.len() as int;
    if text::stands_at(other, m - 6, ".jsonl"@) {
        assert(other.subrange(m - 6, m)[5] == other[m - 1]);
    }
}

/// A file of another version is not read, and it is told of which version it is.
pub proof fn law_other_versions_are_not_read(st: LoadingView, v: JsonView, n: u64)
    requires
        st.header is None,
        !(st.first && session::is_title(v)),
        session::is_header(v),
    ensures
        json::uint_of(json::member(v, "version"@)) == Some(n) && n != 3 ==> session::with_record(
            st,
            Some(v),
        ) == Err::<LoadingView, Seq<char>>(
            "unsupported session version "@ + text::decimal(n as nat)
                + "; migrations are not ported yet"@,
        ),
        json::uint_of(json::member(v, "version"@)) is None ==> session::with_record(st, Some(v))
            == Err::<LoadingView, Seq<char>>(
            "unsupported session version "@ + "1 (no version field)"@
                + "; migrations are not ported yet"@,
        ),
        json::uint_of(json::member(v, "version"@)) == Some(3u64) ==> session::with_record(
            st,
            Some(v),
        ) == Ok::<LoadingView, Seq<char>>(LoadingView { header: Some(v), first: false, ..st }),
{
}

} // verus!
