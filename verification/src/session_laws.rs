//! What a journal of a session holds: which entries its branch is made of, what is read of a
//! file, and what is written to it.
use crate::codec;
use crate::json;
use crate::json::{JsonView, NumberView};
use crate::session;
use crate::session::{
    EntryView, LoadingView, SessionJournalView, WriteView, CORRUPT_HEADER_MESSAGE,
    CURRENT_SESSION_VERSION,
};
use crate::text;
use vstd::prelude::*;

verus! {

proof fn lemma_entry_at(entries: Seq<EntryView>, id: Seq<char>, n: int)
    requires
        n <= entries.len(),
    ensures
        match session::entry_at(entries, id, n) {
            Some(i) => 0 <= i < n && entries[i].id == id,
            None => forall|i: int| 0 <= i < n ==> (#[trigger] entries[i]).id != id,
        },
    decreases n,
{
    if 0 < n && entries[n - 1].id != id {
        lemma_entry_at(entries, id, n - 1);
    }
}

/// Each entry is followed by its parent.
spec fn climbs(u: Seq<EntryView>) -> bool {
    forall|i: int|
        0 <= i < u.len() - 1 ==> (#[trigger] u[i]).parent_id == Some(u[i + 1].id)
}

proof fn lemma_up_from(
    entries: Seq<EntryView>,
    at: Option<Seq<char>>,
    seen: Seq<Seq<char>>,
    fuel: nat,
)
    requires
        fuel >= session::unseen(entries, seen),
    ensures
        ({
            let u = session::up_from(entries, at, seen);
            &&& u.len() > 0 ==> at == Some(u[0].id)
            &&& climbs(u)
            &&& forall|i: int| 0 <= i < u.len() ==> entries.contains(#[trigger] u[i])
            &&& u.len() == 0 && at is Some ==> seen.contains(at.unwrap()) || forall|i: int|
                0 <= i < entries.len() ==> (#[trigger] entries[i]).id != at.unwrap()
        }),
    decreases fuel,
{
    let u = session::up_from(entries, at, seen);
    match at {
        None => {},
        Some(id) => {
            lemma_entry_at(entries, id, entries.len() as int);
            if !seen.contains(id) {
                match session::entry_at(entries, id, entries.len() as int) {
                    None => {},
                    Some(i) => {
                        lemma_unseen(entries, seen, id, i);
                        let rest = session::up_from(entries, entries[i].parent_id, seen.push(id));
                        lemma_up_from(
                            entries,
                            entries[i].parent_id,
                            seen.push(id),
                            (fuel - 1) as nat,
                        );
                        assert(u =~= seq![entries[i]] + rest);
                        assert forall|k: int| 0 <= k < u.len() - 1 implies (
                        #[trigger] u[k]).parent_id == Some(u[k + 1].id) by {
                            if k > 0 {
                                assert(u[k] == rest[k - 1]);
                                assert(rest[k - 1].parent_id == Some(rest[k - 1 + 1].id));
                            }
                        }
                        assert forall|k: int| 0 <= k < u.len() implies entries.contains(
                            #[trigger] u[k],
                        ) by {
                            if k > 0 {
                                assert(u[k] == rest[k - 1]);
                            }
                        }
                    },
                }
            }
        },
    }
}

proof fn lemma_unseen(entries: Seq<EntryView>, seen: Seq<Seq<char>>, id: Seq<char>, i: int)
    requires
        0 <= i < entries.len(),
        entries[i].id == id,
        !seen.contains(id),
    ensures
        session::unseen(entries, seen.push(id)) < session::unseen(entries, seen),
    decreases entries.len(),
{
    let init = entries.drop_last();
    let last = entries.last().id;
    assert(seen.push(id).contains(last) == (seen.contains(last) || last == id)) by {
        if seen.contains(last) {
            let k = choose|k: int| 0 <= k < seen.len() && seen[k] == last;
            assert(seen.push(id)[k] == last);
        }
        if last == id {
            assert(seen.push(id)[seen.len() as int] == last);
        }
    }
    if i < init.len() {
        lemma_unseen(init, seen, id, i);
    } else {
        lemma_fewer(init, seen, id);
    }
}

proof fn lemma_fewer(entries: Seq<EntryView>, seen: Seq<Seq<char>>, id: Seq<char>)
    ensures
        session::unseen(entries, seen.push(id)) <= session::unseen(entries, seen),
    decreases entries.len(),
{
    if entries.len() > 0 {
        lemma_fewer(entries.drop_last(), seen, id);
        let last = entries.last().id;
        if seen.contains(last) {
            let k = choose|k: int| 0 <= k < seen.len() && seen[k] == last;
            assert(seen.push(id)[k] == last);
        }
    }
}

/// The branch is a chain: it ends with the leaf, each entry is the child of the one before it, and
/// all of them are entries of the journal. Only a leaf that is no entry has no branch.
pub proof fn law_the_branch_is_a_chain(j: SessionJournalView)
    ensures
        ({
            let b = session::branch_of(j);
            &&& b.len() > 0 ==> j.leaf == Some(b.last().id)
            &&& forall|i: int|
                0 < i < b.len() ==> (#[trigger] b[i]).parent_id == Some(b[i - 1].id)
            &&& forall|i: int| 0 <= i < b.len() ==> j.entries.contains(#[trigger] b[i])
            &&& b.len() == 0 && j.leaf is Some ==> forall|i: int|
                0 <= i < j.entries.len() ==> (#[trigger] j.entries[i]).id != j.leaf.unwrap()
        }),
{
    let none = Seq::<Seq<char>>::empty();
    let u = session::up_from(j.entries, j.leaf, none);
    let b = session::branch_of(j);
    lemma_up_from(j.entries, j.leaf, none, session::unseen(j.entries, none));
    assert forall|i: int| 0 < i < b.len() implies (#[trigger] b[i]).parent_id == Some(
        b[i - 1].id,
    ) by {
        let k = u.len() - 1 - i;
        assert(b[i] == u[k]);
        assert(b[i - 1] == u[k + 1]);
    }
    assert forall|i: int| 0 <= i < b.len() implies j.entries.contains(#[trigger] b[i]) by {
        assert(b[i] == u[u.len() - 1 - i]);
    }
}

/// The messages of two stretches of a branch are those of the first and then those of the second;
/// an entry that holds a message gives this message, every other one none.
pub proof fn law_messages_follow_the_branch(a: Seq<EntryView>, b: Seq<EntryView>)
    ensures
        session::messages_in(a + b) == session::messages_in(a) + session::messages_in(b),
        b.len() == 1 ==> session::messages_in(b) == (match session::message_of(b[0]) {
            Some(m) => seq![m],
            None => Seq::empty(),
        }),
    decreases b.len(),
{
    if b.len() == 0 {
        assert(a + b =~= a);
        assert(session::messages_in(a) + session::messages_in(b) =~= session::messages_in(a));
    } else {
        law_messages_follow_the_branch(a, b.drop_last());
        assert((a + b).drop_last() =~= a + b.drop_last());
        assert((a + b).last() == b.last());
        assert(session::messages_in(a + b) =~= session::messages_in(a) + session::messages_in(b));
        if b.len() == 1 {
            assert(session::messages_in(b.drop_last()) =~= Seq::empty());
            match session::message_of(b[0]) {
                Some(m) => {
                    assert(session::messages_in(b) =~= seq![m]);
                },
                None => {
                    assert(session::messages_in(b) =~= Seq::empty());
                },
            }
        }
    }
}

/// An entry holds a message where it is of that kind and its message can be read.
pub proof fn law_which_entries_hold_messages(e: EntryView)
    ensures
        session::message_of(e) is Some ==> e.kind == "message"@,
        e.kind == "message"@ ==> session::message_of(e) == (match json::member(e.raw, "message"@) {
            Some(v) => codec::message_from(v),
            None => None,
        }),
{
}

/// The model is the one that was chosen last; an entry that chooses none does not change it.
pub proof fn law_the_last_choice_of_a_model_counts(entries: Seq<EntryView>, e: EntryView)
    ensures
        ({
            let all = entries.push(e);
            let n = entries.len() as int;
            session::model_in(all, n + 1) == (if e.kind == "model_change"@ {
                match json::member(e.raw, "model"@) {
                    Some(JsonView::String(s)) => Some(s),
                    _ => None,
                }
            } else {
                session::model_in(entries, n)
            })
        }),
{
    let n = entries.len() as int;
    lemma_model_prefix(entries, e, n);
}

proof fn lemma_model_prefix(entries: Seq<EntryView>, e: EntryView, n: int)
    requires
        n <= entries.len(),
    ensures
        session::model_in(entries.push(e), n) == session::model_in(entries, n),
    decreases n,
{
    if n > 0 {
        lemma_model_prefix(entries, e, n - 1);
    }
}

/// A text member of a record.
pub open spec fn text_member(v: JsonView, name: Seq<char>) -> Option<Seq<char>> {
    match json::member(v, name) {
        Some(JsonView::String(s)) => Some(s),
        _ => None,
    }
}

/// Behind the header, a record with an id and a type is an entry, as it stands, a child of the one
/// that it names; every other line is counted as damaged, and nothing else changes.
pub proof fn law_what_a_line_adds(st: LoadingView, record: Option<JsonView>)
    requires
        st.header is Some,
        !st.first,
    ensures
        ({
            let next = session::with_record(st, record);
            let whole = record is Some && text_member(record.unwrap(), "id"@) is Some
                && text_member(record.unwrap(), "type"@) is Some;
            &&& next matches Ok(n) && n.header == st.header && n.title == st.title && (if whole {
                let v = record.unwrap();
                &&& n.malformed == st.malformed
                &&& n.entries == st.entries.push(
                    EntryView {
                        id: text_member(v, "id"@).unwrap(),
                        parent_id: text_member(v, "parentId"@),
                        kind: text_member(v, "type"@).unwrap(),
                        raw: v,
                    },
                )
            } else {
                n.malformed == st.malformed + 1 && n.entries == st.entries
            })
        }),
{
}

/// A file is read only where its first record, but for a title, is the header of a session of this
/// version, with an id. Everything else is refused: as another version, or as damaged.
pub proof fn law_which_headers_are_read(st: LoadingView, v: JsonView)
    requires
        st.header is None,
        !st.first || !session::is_title(v),
    ensures
        ({
            let next = session::with_record(st, Some(v));
            let is_session = text_member(v, "type"@) == Some("session"@) && (text_member(
                v,
                "id"@,
            ) matches Some(id) && id.len() > 0);
            let current = json::member(v, "version"@) == Some(
                JsonView::Number(NumberView::PosInt(3)),
            );
            &&& next is Ok <==> is_session && current
            &&& next matches Ok(n) ==> n.header == Some(v) && n.entries == st.entries
                && n.malformed == st.malformed
            &&& !is_session ==> next == Err::<LoadingView, Seq<char>>(CORRUPT_HEADER_MESSAGE@)
            &&& session::with_record(st, None) is Err
        }),
{
    assert(CURRENT_SESSION_VERSION == 3);
}

/// What was read is what the journal holds: its last entry is the leaf, and it is written anew
/// exactly where lines were damaged or the last one was cut off.
pub proof fn law_what_was_read_is_held(path: Seq<char>, st: LoadingView, torn: bool)
    ensures
        session::journal_of(path, st, torn) is Ok <==> st.header is Some,
        session::journal_of(path, st, torn) matches Ok(j) ==> {
            &&& j.path == path
            &&& Some(j.header) == st.header
            &&& j.entries == st.entries
            &&& st.title matches Some(t) ==> j.title == t
            &&& st.entries.len() > 0 ==> j.leaf == Some(st.entries.last().id)
            &&& st.entries.len() == 0 ==> j.leaf is None
            &&& j.materialized
            &&& j.rewrite_required <==> st.malformed > 0 || torn
            &&& j.pending_backup <==> st.malformed > 0 || torn
        },
{
}

/// A line that is appended makes the file what the journal is then: title, header and all entries.
/// A file that has to be written anew is written whole.
pub proof fn law_the_file_follows_the_journal(
    j: SessionJournalView,
    kind: Seq<char>,
    id: Seq<char>,
    timestamp: Seq<char>,
    name: Seq<char>,
    value: JsonView,
)
    ensures
        ({
            let k = session::with_entry(j, kind, id, timestamp, name, value);
            &&& session::write_of(k) matches WriteView::Append(s) ==> session::body_of(j) + s
                == session::body_of(k)
            &&& session::write_of(k) matches WriteView::Rewrite(s) ==> s == session::body_of(k)
            &&& j.materialized && !j.rewrite_required ==> session::write_of(k) is Append
            &&& j.materialized && j.rewrite_required ==> session::write_of(k) is Rewrite
            &&& k.entries.len() == j.entries.len() + 1
            &&& k.entries.drop_last() == j.entries
            &&& k.leaf == Some(id)
            &&& k.entries.last().id == id && k.entries.last().parent_id == j.leaf
                && k.entries.last().kind == kind
            &&& k.header == j.header && k.title == j.title && k.path == j.path
        }),
{
    let k = session::with_entry(j, kind, id, timestamp, name, value);
    assert(k.entries.drop_last() =~= j.entries);
    let line = session::line_text(k.entries.last().raw);
    assert(session::body_of(k) =~= session::body_of(j) + line);
}

/// An entry says on its line what it is: its type, its id, its parent, its time and its value.
pub proof fn law_what_a_line_says(
    kind: Seq<char>,
    id: Seq<char>,
    parent: Option<Seq<char>>,
    timestamp: Seq<char>,
    name: Seq<char>,
    value: JsonView,
)
    requires
        name != "type"@ && name != "id"@ && name != "parentId"@ && name != "timestamp"@,
    ensures
        ({
            let v = session::entry_value(kind, id, parent, timestamp, name, value);
            &&& text_member(v, "type"@) == Some(kind)
            &&& text_member(v, "id"@) == Some(id)
            &&& text_member(v, "parentId"@) == parent
            &&& text_member(v, "timestamp"@) == Some(timestamp)
            &&& json::member(v, name) == Some(value)
        }),
{
    reveal_strlit("type");
    reveal_strlit("id");
    reveal_strlit("parentId");
    reveal_strlit("timestamp");
    assert("type"@.len() == 4 && "id"@.len() == 2 && "parentId"@.len() == 8);
    assert("timestamp"@.len() == 9);
    reveal_with_fuel(json::find_key, 6);
}

/// A new session holds its id, its directory and its time in its header, has no entries, is not
/// written yet, and lies in the directory of the sessions.
pub proof fn law_how_a_session_starts(
    dir: Seq<char>,
    cwd: Seq<char>,
    id: Seq<char>,
    timestamp: Seq<char>,
)
    ensures
        ({
            let j = session::created(dir, cwd, id, timestamp);
            &&& text_member(j.header, "type"@) == Some("session"@)
            &&& text_member(j.header, "id"@) == Some(id)
            &&& text_member(j.header, "timestamp"@) == Some(timestamp)
            &&& text_member(j.header, "cwd"@) == Some(cwd)
            &&& json::member(j.header, "version"@) == Some(JsonView::Number(NumberView::PosInt(3)))
            &&& j.entries.len() == 0
            &&& j.leaf is None
            &&& !j.materialized && !j.rewrite_required && !j.pending_backup
            &&& j.title.title.len() == 0
            &&& j.path.len() > dir.len() && j.path.take(dir.len() as int) == dir
            &&& j.path.skip(j.path.len() - 6) == ".jsonl"@
            &&& session::write_of(j) is Nothing
        }),
{
    reveal_strlit("type");
    reveal_strlit("version");
    reveal_strlit("id");
    reveal_strlit("timestamp");
    reveal_strlit("cwd");
    reveal_strlit(".jsonl");
    reveal_strlit("/");
    reveal_strlit("_");
    assert("type"@.len() == 4 && "version"@.len() == 7 && "id"@.len() == 2);
    assert("timestamp"@.len() == 9 && "cwd"@.len() == 3 && ".jsonl"@.len() == 6);
    reveal_with_fuel(json::find_key, 6);
    let j = session::created(dir, cwd, id, timestamp);
    let name = session::file_name(timestamp, id);
    assert(name.skip(name.len() - 6) =~= ".jsonl"@);
    assert(j.path.take(dir.len() as int) =~= dir);
    assert(j.path.skip(j.path.len() - 6) =~= name.skip(name.len() - 6));
    assert(CURRENT_SESSION_VERSION == 3);
}

} // verus!
