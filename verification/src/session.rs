//! The journal of a session.
//!
//! A session file is a title line of fixed width, the header line, then one JSON entry per line.
//! Entries form a tree by their parents; the leaf is the last appended entry. A new session is not
//! written until it holds an assistant message. The journal decides what is to be written
//! ([`Write`]); its host writes it and reports back.
use crate::agent_event;
use crate::agent_event::ToolOutput;
use crate::codec;
use crate::codec::{read_message, write_message};
use crate::json;
use crate::json::{
    as_array, as_text, as_uint, object_3, to_text, Json, JsonObject, JsonView, Number, NumberView,
};
use crate::sse;
use crate::sse::decode_lossy;
use crate::text;
use crate::text::{
    clone_opt_string, concat, contains_text, is_blank, same_text, split_text, to_chars, Space,
};
use crate::types::{Message, MessageView, ToolResultMessage, ToolResultMessageView};
use vstd::prelude::*;

verus! {

/// The version of the files that are written and read.
pub const CURRENT_SESSION_VERSION: u64 = 3;

/// The width of the title line in bytes.
pub const SESSION_TITLE_SLOT_BYTES: u64 = 256;

/// What is told of a file without a usable header.
pub const CORRUPT_HEADER_MESSAGE: &'static str = "session header is missing or malformed";

/// What is told of a call whose result was never recorded.
pub const UNKNOWN_EFFECT_TEXT: &'static str = "Tool call was interrupted before its result was recorded; its effects are unknown. Inspect the affected state before retrying it.";

/// The title of a session.
#[derive(Debug, PartialEq)]
pub struct TitleSlot {
    pub title: String,
    /// `auto` or `user`, where it is known.
    pub source: Option<String>,
    pub updated_at: String,
}

/// What a [`TitleSlot`] stands for.
#[verifier::ext_equal]
pub struct TitleSlotView {
    pub title: Seq<char>,
    pub source: Option<Seq<char>>,
    pub updated_at: Seq<char>,
}

impl View for TitleSlot {
    type V = TitleSlotView;

    open spec fn view(&self) -> TitleSlotView {
        TitleSlotView {
            title: self.title@,
            source: text::opt_view(self.source),
            updated_at: self.updated_at@,
        }
    }
}

impl Clone for TitleSlot {
    fn clone(&self) -> (r: TitleSlot)
        ensures
            r@ == self@,
    {
        TitleSlot {
            title: self.title.clone(),
            source: clone_opt_string(&self.source),
            updated_at: self.updated_at.clone(),
        }
    }
}

/// One line of a journal. Kinds that are not known are kept as they are.
#[derive(Debug, PartialEq)]
pub struct Entry {
    pub id: String,
    pub parent_id: Option<String>,
    pub kind: String,
    pub raw: Json,
}

/// What a [`Entry`] stands for.
#[verifier::ext_equal]
pub struct EntryView {
    pub id: Seq<char>,
    pub parent_id: Option<Seq<char>>,
    pub kind: Seq<char>,
    pub raw: JsonView,
}

impl View for Entry {
    type V = EntryView;

    open spec fn view(&self) -> EntryView {
        EntryView {
            id: self.id@,
            parent_id: text::opt_view(self.parent_id),
            kind: self.kind@,
            raw: self.raw@,
        }
    }
}

impl Clone for Entry {
    fn clone(&self) -> (r: Entry)
        ensures
            r@ == self@,
    {
        Entry {
            id: self.id.clone(),
            parent_id: clone_opt_string(&self.parent_id),
            kind: self.kind.clone(),
            raw: self.raw.clone(),
        }
    }
}

// ------------------------------------------------------------------ the title line

/// The bytes that a character takes in UTF-8.
pub open spec fn char_bytes(c: char) -> nat {
    if (c as u32) < 0x80 {
        1
    } else if (c as u32) < 0x800 {
        2
    } else if (c as u32) < 0x10000 {
        3
    } else {
        4
    }
}

/// The bytes that a text takes in UTF-8.
pub open spec fn byte_len(s: Seq<char>) -> nat
    decreases s.len(),
{
    if s.len() == 0 {
        0
    } else {
        byte_len(s.drop_last()) + char_bytes(s.last())
    }
}

fn width(c: char) -> (r: u128)
    ensures
        r == char_bytes(c),
{
    if (c as u32) < 0x80 {
        1
    } else if (c as u32) < 0x800 {
        2
    } else if (c as u32) < 0x10000 {
        3
    } else {
        4
    }
}

pub(crate) fn bytes_of(s: &str) -> (r: u128)
    ensures
        r == byte_len(s@),
{
    let v = to_chars(s);
    let n: usize = v.len();
    let mut sum: u128 = 0;
    let mut i: usize = 0;
    while i < n
        invariant
            i <= n,
            n == v@.len(),
            sum <= 4 * i,
            sum == byte_len(v@.take(i as int)),
        decreases n - i,
    {
        assert(v@.take(i as int + 1).drop_last() =~= v@.take(i as int));
        sum = sum + width(v[i]);
        i += 1;
    }
    assert(v@.take(i as int) =~= v@);
    sum
}

proof fn lemma_byte_len_joined(a: Seq<char>, b: Seq<char>)
    ensures
        byte_len(a + b) == byte_len(a) + byte_len(b),
    decreases b.len(),
{
    if b.len() == 0 {
        assert(a + b =~= a);
    } else {
        lemma_byte_len_joined(a, b.drop_last());
        assert((a + b).drop_last() =~= a + b.drop_last());
    }
}

/// So many blanks.
pub open spec fn blanks(n: nat) -> Seq<char> {
    Seq::new(n, |i: int| ' ')
}

proof fn lemma_blanks(n: nat)
    ensures
        byte_len(blanks(n)) == n,
    decreases n,
{
    if n > 0 {
        lemma_blanks((n - 1) as nat);
        assert(blanks(n).drop_last() =~= blanks((n - 1) as nat));
        assert(blanks(n).last() == ' ');
        assert(char_bytes(' ') == 1);
    }
}

/// The value of the title line.
pub open spec fn title_value(slot: TitleSlotView, title: Seq<char>, pad: Seq<char>) -> JsonView {
    JsonView::Object(
        codec::one("type"@, JsonView::String("title"@)) + codec::one("v"@, codec::juint(1))
            + codec::one("title"@, JsonView::String(title)) + codec::maybe(
            "source"@,
            codec::opt_text(slot.source),
        ) + codec::one("updatedAt"@, JsonView::String(slot.updated_at)) + codec::one(
            "pad"@,
            JsonView::String(pad),
        ),
    )
}

/// The title line.
pub open spec fn title_line(slot: TitleSlotView, title: Seq<char>, pad: Seq<char>) -> Seq<char> {
    json::compact(title_value(slot, title, pad)) + "\n"@
}

/// The longest start of a title that fits.
pub open spec fn fitted(slot: TitleSlotView, title: Seq<char>) -> Seq<char>
    decreases title.len(),
{
    if title.len() == 0 || byte_len(title_line(slot, title, Seq::empty()))
        <= SESSION_TITLE_SLOT_BYTES {
        title
    } else {
        fitted(slot, title.drop_last())
    }
}

/// The blanks that fill the title line up.
pub open spec fn title_pad(slot: TitleSlotView) -> Seq<char> {
    let used = byte_len(title_line(slot, fitted(slot, slot.title), Seq::empty()));
    if used <= SESSION_TITLE_SLOT_BYTES {
        blanks((SESSION_TITLE_SLOT_BYTES - used) as nat)
    } else {
        Seq::empty()
    }
}

/// The title line as it is written.
pub open spec fn title_text(slot: TitleSlotView) -> Seq<char> {
    title_line(slot, fitted(slot, slot.title), title_pad(slot))
}

fn title_json(slot: &TitleSlot, title: &str, pad: &str) -> (r: Json)
    ensures
        r@ == title_value(slot@, title@, pad@),
{
    let kind = Json::String("title".to_owned());
    let v = Json::Number(Number::PosInt(1));
    let named = Json::String(title.to_owned());
    let updated = Json::String(slot.updated_at.clone());
    let filler = Json::String(pad.to_owned());
    let mut entries: Vec<(String, Json)> = Vec::new();
    entries.push(("type".to_owned(), kind));
    entries.push(("v".to_owned(), v));
    entries.push(("title".to_owned(), named));
    if let Some(source) = &slot.source {
        let known = Json::String(source.clone());
        entries.push(("source".to_owned(), known));
        entries.push(("updatedAt".to_owned(), updated));
        entries.push(("pad".to_owned(), filler));
        let o = JsonObject { entries };
        assert(o@ =~= title_value(slot@, title@, pad@)->Object_0);
        Json::Object(o)
    } else {
        entries.push(("updatedAt".to_owned(), updated));
        entries.push(("pad".to_owned(), filler));
        let o = JsonObject { entries };
        assert(o@ =~= title_value(slot@, title@, pad@)->Object_0);
        Json::Object(o)
    }
}

proof fn lemma_title_value(slot: TitleSlotView, title: Seq<char>, pad: Seq<char>)
    requires
        forall|i: int| 0 <= i < pad.len() ==> #[trigger] pad[i] == ' ',
    ensures
        json::distinct_keys(title_value(slot, title, pad)->Object_0),
        json::last_blanks(title_value(slot, title, pad)) == Some(pad),
        json::unpadded(title_value(slot, title, pad)) == title_value(slot, title, Seq::empty()),
        json::plain(title_value(slot, title, pad), json::READ_DEPTH as nat),
{
    lemma_title_names();
    let o = title_value(slot, title, pad)->Object_0;
    let base = title_value(slot, title, Seq::empty())->Object_0;
    assert(o.drop_last().push((o.last().0, JsonView::String(Seq::empty()))) =~= base);
    assert(o.last() == ("pad"@, JsonView::String(pad)));
    let k = if slot.source is Some {
        1int
    } else {
        0int
    };
    assert(o.len() == 5 + k);
    assert(o[0].0 == "type"@);
    assert(o[1].0 == "v"@);
    assert(o[2].0 == "title"@);
    if slot.source is Some {
        assert(o[3].0 == "source"@);
    }
    assert(o[3 + k].0 == "updatedAt"@);
    assert(o[4 + k].0 == "pad"@);
    assert forall|i: int, j: int| 0 <= i < j < o.len() implies (#[trigger] o[i]).0 != (
    #[trigger] o[j]).0 by {
        assert(i == 0 || i == 1 || i == 2 || i == 3 || i == 4);
        assert(j == 1 || j == 2 || j == 3 || j == 4 || j == 5);
    }
    assert forall|i: int| 0 <= i < o.len() implies json::plain((#[trigger] o[i]).1, 99) by {
        assert(i == 0 || i == 1 || i == 2 || i == 3 || i == 4 || i == 5);
    }
}

proof fn lemma_title_names()
    ensures
        "type"@ != "v"@,
        "type"@ != "title"@,
        "type"@ != "source"@,
        "type"@ != "updatedAt"@,
        "type"@ != "pad"@,
        "v"@ != "title"@,
        "v"@ != "source"@,
        "v"@ != "updatedAt"@,
        "v"@ != "pad"@,
        "title"@ != "source"@,
        "title"@ != "updatedAt"@,
        "title"@ != "pad"@,
        "source"@ != "updatedAt"@,
        "source"@ != "pad"@,
        "updatedAt"@ != "pad"@,
{
    reveal_strlit("type");
    assert("type"@.len() == 4);
    reveal_strlit("v");
    assert("v"@.len() == 1);
    reveal_strlit("title");
    assert("title"@.len() == 5);
    reveal_strlit("source");
    assert("source"@.len() == 6);
    reveal_strlit("updatedAt");
    assert("updatedAt"@.len() == 9);
    reveal_strlit("pad");
    assert("pad"@.len() == 3);
}

/// The text of a value is one line, that of an object starts with a brace, and a plain value is
/// read back from it.
pub open spec fn reads_back(v: JsonView) -> bool {
    let s = json::compact(v);
    &&& !s.contains('\n')
    &&& v is Object ==> s.len() > 0 && s[0] == '{'
    &&& json::plain(v, json::READ_DEPTH as nat) ==> json::parsed(s) is Ok && json::parsed(s)->Ok_0
        == v
}

fn line_of(v: &Json) -> (r: String)
    ensures
        r@ == json::compact(v@) + "\n"@,
        v@ is Object ==> json::compact(v@).len() >= 2,
        reads_back(v@),
{
    concat(to_text(v).as_str(), "\n")
}

fn make_blanks(n: u128) -> (r: String)
    requires
        n <= 256,
    ensures
        r@ == blanks(n as nat),
{
    let mut out = String::new();
    let mut i: u128 = 0;
    assert(out@ =~= blanks(0));
    while i < n
        invariant
            i <= n,
            out@ == blanks(i as nat),
        decreases n - i,
    {
        out.push(' ');
        i += 1;
        assert(out@ =~= blanks(i as nat));
    }
    out
}

/// The title line as it is written: cut to fit, and filled up to its width.
pub fn serialize_title_slot(slot: &TitleSlot) -> (r: String)
    ensures
        r@ == title_text(slot@),
        byte_len(title_line(slot@, fitted(slot@, slot@.title), Seq::empty()))
            <= SESSION_TITLE_SLOT_BYTES ==> byte_len(r@) == SESSION_TITLE_SLOT_BYTES,
        reads_back(title_value(slot@, fitted(slot@, slot@.title), title_pad(slot@))),
{
    let mut chars = to_chars(slot.title.as_str());
    let mut title = text::from_chars(&chars);
    let mut base = title_json(slot, title.as_str(), "");
    let mut line = line_of(&base);
    let mut used: u128 = bytes_of(line.as_str());
    proof {
        reveal_strlit("");
        assert(""@ =~= Seq::empty());
    }
    while used > 256 && chars.len() > 0
        invariant
            ""@ == Seq::<char>::empty(),
            title@ == chars@,
            line@ == title_line(slot@, title@, Seq::empty()),
            json::compact(title_value(slot@, title@, Seq::empty())).len() >= 2,
            used == byte_len(line@),
            fitted(slot@, slot@.title) == fitted(slot@, title@),
        decreases chars@.len(),
    {
        let ghost before = chars@;
        let last = chars.pop();
        assert(chars@ =~= before.drop_last());
        title = text::from_chars(&chars);
        base = title_json(slot, title.as_str(), "");
        line = line_of(&base);
        used = bytes_of(line.as_str());
    }
    assert(fitted(slot@, slot@.title) == title@);
    let n: u128 = if used <= 256 {
        256 - used
    } else {
        0
    };
    let pad = make_blanks(n);
    let whole = title_json(slot, title.as_str(), pad.as_str());
    proof {
        if used > 256 {
            assert(pad@ =~= Seq::empty());
        }
    }
    let told = to_text(&whole);
    proof {
        lemma_title_value(slot@, title@, pad@);
        let b = json::compact(title_value(slot@, title@, Seq::empty()));
        assert(told@ == json::padded(b, pad@));
        assert(title_line(slot@, title@, Seq::empty()) == b + "\n"@);
        if used <= 256 {
            let head = b.take(b.len() - 2);
            let tail = b.skip(b.len() - 2);
            assert(b =~= head + tail);
            lemma_byte_len_joined(head, tail);
            lemma_byte_len_joined(head, pad@);
            lemma_byte_len_joined(head + pad@, tail);
            lemma_byte_len_joined(b, "\n"@);
            lemma_byte_len_joined(told@, "\n"@);
            lemma_blanks(n as nat);
        }
    }
    concat(told.as_str(), "\n")
}

/// Why a journal cannot be used.
#[derive(Debug, PartialEq)]
pub enum SessionError {
    /// The file cannot be read or written.
    Io(String),
    /// The file is no journal.
    Corrupt { path: String, message: String },
}

/// What a [`SessionError`] stands for.
#[verifier::ext_equal]
pub enum SessionErrorView {
    Io(Seq<char>),
    Corrupt { path: Seq<char>, message: Seq<char> },
}

impl View for SessionError {
    type V = SessionErrorView;

    open spec fn view(&self) -> SessionErrorView {
        match self {
            SessionError::Io(a) => SessionErrorView::Io(a@),
            SessionError::Corrupt { path, message } => SessionErrorView::Corrupt { path: path@, message: message@ },
        }
    }
}

impl Clone for SessionError {
    fn clone(&self) -> (r: SessionError)
        ensures
            r@ == self@,
    {
        match self {
            SessionError::Io(a) => SessionError::Io(a.clone()),
            SessionError::Corrupt { path, message } => SessionError::Corrupt { path: path.clone(), message: message.clone() },
        }
    }
}

/// What is said of an error.
pub open spec fn error_text(e: SessionErrorView) -> Seq<char> {
    match e {
        SessionErrorView::Io(m) => m,
        SessionErrorView::Corrupt { path, message } => path + ": "@ + message,
    }
}

impl SessionError {
    /// What is said of the error.
    pub fn text(&self) -> (r: String)
        ensures
            r@ == error_text(self@),
    {
        match self {
            SessionError::Io(m) => m.clone(),
            SessionError::Corrupt { path, message } => {
                let mut s = path.clone();
                s.append(": ");
                s.append(message);
                s
            },
        }
    }
}

/// What was found when a journal was read.
#[derive(Debug, PartialEq)]
pub struct LoadReport {
    pub malformed_records: u64,
    /// Where the bytes of a torn file were kept.
    pub backup: Option<String>,
}

/// What a [`LoadReport`] stands for.
#[verifier::ext_equal]
pub struct LoadReportView {
    pub malformed_records: u64,
    pub backup: Option<Seq<char>>,
}

impl View for LoadReport {
    type V = LoadReportView;

    open spec fn view(&self) -> LoadReportView {
        LoadReportView {
            malformed_records: self.malformed_records,
            backup: text::opt_view(self.backup),
        }
    }
}

impl Clone for LoadReport {
    fn clone(&self) -> (r: LoadReport)
        ensures
            r@ == self@,
    {
        LoadReport {
            malformed_records: self.malformed_records,
            backup: clone_opt_string(&self.backup),
        }
    }
}

/// A journal.
#[derive(Debug, PartialEq)]
pub struct SessionJournal {
    pub path: String,
    pub header: Json,
    pub title: TitleSlot,
    pub entries: Vec<Entry>,
    pub leaf: Option<String>,
    /// The file exists.
    pub materialized: bool,
    /// The file has to be written anew before anything is appended.
    pub rewrite_required: bool,
    /// The bytes of the file have to be kept before it is written anew.
    pub pending_backup: bool,
    pub report: LoadReport,
}

/// What a [`SessionJournal`] stands for.
pub struct SessionJournalView {
    pub path: Seq<char>,
    pub header: JsonView,
    pub title: TitleSlotView,
    pub entries: Seq<EntryView>,
    pub leaf: Option<Seq<char>>,
    pub materialized: bool,
    pub rewrite_required: bool,
    pub pending_backup: bool,
    pub report: LoadReportView,
}

impl View for SessionJournal {
    type V = SessionJournalView;

    open spec fn view(&self) -> SessionJournalView {
        SessionJournalView {
            path: self.path@,
            header: self.header@,
            title: self.title@,
            entries: text::views(self.entries@),
            leaf: text::opt_view(self.leaf),
            materialized: self.materialized,
            rewrite_required: self.rewrite_required,
            pending_backup: self.pending_backup,
            report: self.report@,
        }
    }
}

// ------------------------------------------------------------------ entries

/// The message that an entry holds.
pub open spec fn message_of(e: EntryView) -> Option<MessageView> {
    if e.kind == "message"@ {
        match json::member(e.raw, "message"@) {
            Some(m) => codec::message_from(m),
            None => None,
        }
    } else {
        None
    }
}

/// A member of the message that an entry holds.
pub open spec fn message_member(e: EntryView, name: Seq<char>) -> Option<JsonView> {
    match json::member(e.raw, "message"@) {
        Some(m) => json::member(m, name),
        None => None,
    }
}

/// The role of the message that an entry holds.
pub open spec fn role_of(e: EntryView) -> Option<Seq<char>> {
    if e.kind == "message"@ {
        json::text_of(message_member(e, "role"@))
    } else {
        None
    }
}

impl Entry {
    /// The message that the entry holds; nothing where it is no message, or none that can be read.
    pub fn message(&self) -> (r: Option<Message>)
        ensures
            text::opt_view(r) == message_of(self@),
    {
        if !same_text(self.kind.as_str(), "message") {
            return None;
        }
        match self.raw.get("message") {
            Some(m) => read_message(m),
            None => None,
        }
    }

    fn member(&self, name: &str) -> (r: Option<&Json>)
        ensures
            text::opt_view(r) == message_member(self@, name@),
    {
        match self.raw.get("message") {
            Some(m) => m.get(name),
            None => None,
        }
    }

    fn role(&self) -> (r: Option<&str>)
        ensures
            text::opt_view(r) == role_of(self@),
    {
        if !same_text(self.kind.as_str(), "message") {
            return None;
        }
        as_text(self.member("role"))
    }

    fn has_role(&self, role: &str) -> (r: bool)
        ensures
            r == (role_of(self@) == Some(role@)),
    {
        match self.role() {
            Some(s) => same_text(s, role),
            None => false,
        }
    }
}

// ------------------------------------------------------------------ reading

/// A journal that is being read.
pub struct Loading {
    pub header: Option<Json>,
    pub title: Option<TitleSlot>,
    pub entries: Vec<Entry>,
    pub malformed: u64,
    pub first: bool,
}

/// What a [`Loading`] stands for.
pub struct LoadingView {
    pub header: Option<JsonView>,
    pub title: Option<TitleSlotView>,
    pub entries: Seq<EntryView>,
    pub malformed: nat,
    /// No record was read yet.
    pub first: bool,
}

impl View for Loading {
    type V = LoadingView;

    open spec fn view(&self) -> LoadingView {
        LoadingView {
            header: text::opt_view(self.header),
            title: text::opt_view(self.title),
            entries: text::views(self.entries@),
            malformed: self.malformed as nat,
            first: self.first,
        }
    }
}

/// The value is a title line.
pub open spec fn is_title(v: JsonView) -> bool {
    json::text_of(json::member(v, "type"@)) == Some("title"@) && json::uint_of(
        json::member(v, "v"@),
    ) == Some(1u64)
}

/// The text of a member, or nothing.
pub open spec fn text_or_empty(v: JsonView, name: Seq<char>) -> Seq<char> {
    match json::text_of(json::member(v, name)) {
        Some(s) => s,
        None => Seq::empty(),
    }
}

/// The title that a value holds.
pub open spec fn title_of(v: JsonView) -> TitleSlotView {
    TitleSlotView {
        title: text_or_empty(v, "title"@),
        source: json::text_of(json::member(v, "source"@)),
        updated_at: text_or_empty(v, "updatedAt"@),
    }
}

/// The value is a header.
pub open spec fn is_header(v: JsonView) -> bool {
    &&& json::text_of(json::member(v, "type"@)) == Some("session"@)
    &&& text_or_empty(v, "id"@).len() > 0
}

/// What is told of a file of another version.
pub open spec fn version_error(version: Option<u64>) -> Seq<char> {
    "unsupported session version "@ + (match version {
        Some(n) => text::decimal(n as nat),
        None => "1 (no version field)"@,
    }) + "; migrations are not ported yet"@
}

/// The entry that a value is; nothing where it is none.
pub open spec fn entry_of(v: JsonView) -> Option<EntryView> {
    match (json::text_of(json::member(v, "id"@)), json::text_of(json::member(v, "type"@))) {
        (Some(id), Some(kind)) => Some(
            EntryView {
                id,
                parent_id: json::text_of(json::member(v, "parentId"@)),
                kind,
                raw: v,
            },
        ),
        _ => None,
    }
}

/// A line was read: the object that it holds, if it holds one.
pub open spec fn with_record(st: LoadingView, record: Option<JsonView>) -> Result<
    LoadingView,
    Seq<char>,
> {
    match record {
        None => if st.header is None {
            Err(CORRUPT_HEADER_MESSAGE@)
        } else {
            Ok(LoadingView { malformed: st.malformed + 1, ..st })
        },
        Some(v) => if st.first && is_title(v) {
            Ok(LoadingView { title: Some(title_of(v)), first: false, ..st })
        } else if st.header is None {
            let version = json::uint_of(json::member(v, "version"@));
            if !is_header(v) {
                Err(CORRUPT_HEADER_MESSAGE@)
            } else if version != Some(CURRENT_SESSION_VERSION) {
                Err(version_error(version))
            } else {
                Ok(LoadingView { header: Some(v), first: false, ..st })
            }
        } else {
            match entry_of(v) {
                Some(e) => Ok(LoadingView { entries: st.entries.push(e), first: false, ..st }),
                None => Ok(LoadingView { malformed: st.malformed + 1, first: false, ..st }),
            }
        },
    }
}

/// The object that a line holds.
pub open spec fn record_in(parsed: Result<JsonView, Seq<char>>) -> Option<JsonView> {
    match parsed {
        Ok(v) => if v is Object {
            Some(v)
        } else {
            None
        },
        Err(_) => None,
    }
}

/// The lines from an index on are read.
pub open spec fn loaded_from(lines: Seq<Seq<char>>, i: int, st: LoadingView) -> Result<
    LoadingView,
    Seq<char>,
>
    decreases lines.len() - i,
{
    if i < 0 || i >= lines.len() {
        Ok(st)
    } else if text::all_space(Space::Unicode, lines[i]) {
        loaded_from(lines, i + 1, st)
    } else {
        match with_record(st, record_in(json::parsed(lines[i]))) {
            Ok(next) => loaded_from(lines, i + 1, next),
            Err(e) => Err(e),
        }
    }
}

/// Nothing is read yet.
pub open spec fn load_start() -> LoadingView {
    LoadingView {
        header: None,
        title: None,
        entries: Seq::empty(),
        malformed: 0,
        first: true,
    }
}

/// The journal that was read.
pub open spec fn journal_of(path: Seq<char>, st: LoadingView, torn: bool) -> Result<
    SessionJournalView,
    Seq<char>,
> {
    match st.header {
        None => Err(CORRUPT_HEADER_MESSAGE@),
        Some(header) => Ok(
            SessionJournalView {
                path,
                header,
                title: match st.title {
                    Some(t) => t,
                    None => TitleSlotView {
                        title: Seq::empty(),
                        source: None,
                        updated_at: text_or_empty(header, "timestamp"@),
                    },
                },
                entries: st.entries,
                leaf: if st.entries.len() > 0 {
                    Some(st.entries.last().id)
                } else {
                    None
                },
                materialized: true,
                rewrite_required: st.malformed > 0 || torn,
                pending_backup: st.malformed > 0 || torn,
                report: LoadReportView { malformed_records: st.malformed as u64, backup: None },
            },
        ),
    }
}

/// The journal that a text holds; `torn` says that its last line is not ended.
pub open spec fn opened(path: Seq<char>, content: Seq<char>, torn: bool) -> Result<
    SessionJournalView,
    Seq<char>,
> {
    match loaded_from(text::split(content, '\n'), 0, load_start()) {
        Ok(st) => journal_of(path, st, torn),
        Err(e) => Err(e),
    }
}

/// The last byte is no line end.
pub open spec fn is_torn(bytes: Seq<u8>) -> bool {
    bytes.len() > 0 && bytes.last() != 10
}

fn text_member(v: &Json, name: &str) -> (r: String)
    ensures
        r@ == text_or_empty(v@, name@),
{
    match as_text(v.get(name)) {
        Some(s) => s.to_owned(),
        None => {
            let none = String::new();
            assert(none@ =~= Seq::empty());
            none
        },
    }
}

fn opt_text_member(v: &Json, name: &str) -> (r: Option<String>)
    ensures
        text::opt_view(r) == json::text_of(json::member(v@, name@)),
{
    match as_text(v.get(name)) {
        Some(s) => Some(s.to_owned()),
        None => None,
    }
}

fn has_text(v: &Json, name: &str, s: &str) -> (r: bool)
    ensures
        r == (json::text_of(json::member(v@, name@)) == Some(s@)),
{
    match as_text(v.get(name)) {
        Some(t) => same_text(t, s),
        None => false,
    }
}

fn is_title_slot(v: &Json) -> (r: bool)
    ensures
        r == is_title(v@),
{
    has_text(v, "type", "title") && (match as_uint(v.get("v")) {
        Some(n) => n == 1,
        None => false,
    })
}

fn is_valid_header(v: &Json) -> (r: bool)
    ensures
        r == is_header(v@),
{
    has_text(v, "type", "session") && to_chars(text_member(v, "id").as_str()).len() > 0
}

fn read_entry(v: Json) -> (r: Option<Entry>)
    ensures
        text::opt_view(r) == entry_of(v@),
{
    let id = opt_text_member(&v, "id");
    let kind = opt_text_member(&v, "type");
    match (id, kind) {
        (Some(id), Some(kind)) => {
            let parent_id = opt_text_member(&v, "parentId");
            Some(Entry { id, parent_id, kind, raw: v })
        },
        _ => None,
    }
}

fn tell_version(version: Option<u64>) -> (r: String)
    ensures
        r@ == version_error(version),
{
    let shown = match version {
        Some(n) => text::decimal_text(n),
        None => "1 (no version field)".to_owned(),
    };
    let said = concat("unsupported session version ", shown.as_str());
    concat(said.as_str(), "; migrations are not ported yet")
}

impl Loading {
    /// Takes a line in: the object that it holds, if it holds one.
    pub fn record(&mut self, record: Option<Json>) -> (r: Result<(), String>)
        requires
            old(self).malformed < u64::MAX,
        ensures
            match with_record(old(self)@, text::opt_view(record)) {
                Ok(st) => r is Ok && final(self)@ == st,
                Err(e) => r matches Err(told) && told@ == e,
            },
            final(self).malformed <= old(self).malformed + 1,
    {
        match record {
            None => {
                if self.header.is_none() {
                    return Err(CORRUPT_HEADER_MESSAGE.to_owned());
                }
                self.malformed = self.malformed + 1;
                Ok(())
            },
            Some(v) => {
                if self.first && is_title_slot(&v) {
                    self.title = Some(
                        TitleSlot {
                            title: text_member(&v, "title"),
                            source: opt_text_member(&v, "source"),
                            updated_at: text_member(&v, "updatedAt"),
                        },
                    );
                    self.first = false;
                    return Ok(());
                }
                if self.header.is_none() {
                    if !is_valid_header(&v) {
                        return Err(CORRUPT_HEADER_MESSAGE.to_owned());
                    }
                    let version = as_uint(v.get("version"));
                    let known = match version {
                        Some(n) => n == CURRENT_SESSION_VERSION,
                        None => false,
                    };
                    if !known {
                        return Err(tell_version(version));
                    }
                    self.header = Some(v);
                    self.first = false;
                    return Ok(());
                }
                match read_entry(v) {
                    Some(e) => {
                        proof {
                            text::lemma_views_push(self.entries@, e);
                        }
                        self.entries.push(e);
                    },
                    None => {
                        self.malformed = self.malformed + 1;
                    },
                }
                self.first = false;
                Ok(())
            },
        }
    }

    /// The journal that was read.
    pub fn finish(self, path: &str, torn: bool) -> (r: Result<SessionJournal, String>)
        ensures
            match journal_of(path@, self@, torn) {
                Ok(j) => r matches Ok(out) && out@ == j,
                Err(e) => r matches Err(told) && told@ == e,
            },
    {
        let header = match self.header {
            Some(h) => h,
            None => {
                return Err(CORRUPT_HEADER_MESSAGE.to_owned());
            },
        };
        let title = match self.title {
            Some(t) => t,
            None => {
                let none = String::new();
                assert(none@ =~= Seq::empty());
                TitleSlot {
                    title: none,
                    source: None,
                    updated_at: text_member(&header, "timestamp"),
                }
            },
        };
        let n: usize = self.entries.len();
        assert(n > 0 ==> text::views(self.entries@).last() == self.entries@[n - 1]@);
        let leaf = if n > 0 {
            Some(self.entries[n - 1].id.clone())
        } else {
            None
        };
        let damaged = self.malformed > 0 || torn;
        Ok(
            SessionJournal {
                path: path.to_owned(),
                header,
                title,
                entries: self.entries,
                leaf,
                materialized: true,
                rewrite_required: damaged,
                pending_backup: damaged,
                report: LoadReport { malformed_records: self.malformed, backup: None },
            },
        )
    }
}

fn read_record(line: &str) -> (r: Option<Json>)
    ensures
        text::opt_view(r) == record_in(json::parsed(line@)),
{
    match json::parse(line) {
        Ok(v) => if v.is_object() {
            Some(v)
        } else {
            None
        },
        Err(_) => None,
    }
}

impl SessionJournal {
    /// Reads a journal from its text. Lines that are no record are passed over; a file without a
    /// usable header is refused.
    pub fn from_text(path: &str, content: &str, torn: bool) -> (r: Result<SessionJournal, String>)
        ensures
            match opened(path@, content@, torn) {
                Ok(j) => r matches Ok(out) && out@ == j,
                Err(e) => r matches Err(told) && told@ == e,
            },
    {
        let lines = split_text(content, '\n');
        let n: usize = lines.len();
        let ghost all = text::views(lines@);
        let mut st = Loading {
            header: None,
            title: None,
            entries: Vec::new(),
            malformed: 0,
            first: true,
        };
        assert(st@.entries =~= load_start().entries);
        let mut i: usize = 0;
        while i < n
            invariant
                i <= n,
                n == lines@.len(),
                all == text::views(lines@),
                all == text::split(content@, '\n'),
                st.malformed <= i,
                loaded_from(all, 0, load_start()) == loaded_from(all, i as int, st@),
            decreases n - i,
        {
            assert(all[i as int] == lines@[i as int]@);
            if !is_blank(Space::Unicode, lines[i].as_str()) {
                match st.record(read_record(lines[i].as_str())) {
                    Ok(_) => {},
                    Err(e) => {
                        return Err(e);
                    },
                }
            }
            i += 1;
        }
        st.finish(path, torn)
    }

    /// Reads a journal from the bytes of its file.
    pub fn open(path: &str, bytes: &Vec<u8>) -> (r: Result<SessionJournal, SessionError>)
        ensures
            match opened(path@, sse::utf8_text(bytes@), is_torn(bytes@)) {
                Ok(j) => r matches Ok(out) && out@ == j,
                Err(e) => r matches Err(told) && told@ == (SessionErrorView::Corrupt {
                    path: path@,
                    message: e,
                }),
            },
    {
        let content = decode_lossy(bytes);
        let n: usize = bytes.len();
        let torn = n > 0 && bytes[n - 1] != 10;
        match SessionJournal::from_text(path, content.as_str(), torn) {
            Ok(j) => Ok(j),
            Err(message) => Err(SessionError::Corrupt { path: path.to_owned(), message }),
        }
    }
}

// ------------------------------------------------------------------ branches

/// The last entry of an id, among the first `n`.
pub open spec fn entry_at(entries: Seq<EntryView>, id: Seq<char>, n: int) -> Option<int>
    decreases n,
{
    if n <= 0 || n > entries.len() {
        None
    } else if entries[n - 1].id == id {
        Some(n - 1)
    } else {
        entry_at(entries, id, n - 1)
    }
}

/// How many entries have an id that was not seen.
pub open spec fn unseen(entries: Seq<EntryView>, seen: Seq<Seq<char>>) -> nat
    decreases entries.len(),
{
    if entries.len() == 0 {
        0
    } else {
        unseen(entries.drop_last(), seen) + (if seen.contains(entries.last().id) {
            0nat
        } else {
            1nat
        })
    }
}

proof fn lemma_entry_at(entries: Seq<EntryView>, id: Seq<char>, n: int)
    requires
        n <= entries.len(),
    ensures
        match entry_at(entries, id, n) {
            Some(i) => 0 <= i < n && entries[i].id == id,
            None => forall|i: int| 0 <= i < n ==> (#[trigger] entries[i]).id != id,
        },
    decreases n,
{
    if 0 < n && entries[n - 1].id != id {
        lemma_entry_at(entries, id, n - 1);
    }
}

proof fn lemma_unseen(entries: Seq<EntryView>, seen: Seq<Seq<char>>, id: Seq<char>)
    ensures
        unseen(entries, seen.push(id)) <= unseen(entries, seen),
        !seen.contains(id) && (exists|i: int| 0 <= i < entries.len() && (#[trigger] entries[i]).id
            == id) ==> unseen(entries, seen.push(id)) < unseen(entries, seen),
    decreases entries.len(),
{
    if entries.len() > 0 {
        let t = entries.drop_last();
        lemma_unseen(t, seen, id);
        let last = entries.last().id;
        assert(seen.push(id).contains(last) == (seen.contains(last) || last == id)) by {
            if seen.contains(last) {
                let k = choose|k: int| 0 <= k < seen.len() && seen[k] == last;
                assert(seen.push(id)[k] == last);
            }
            if last == id {
                assert(seen.push(id)[seen.len() as int] == last);
            }
        }
        if !seen.contains(id) && last != id && (exists|i: int|
            0 <= i < entries.len() && (#[trigger] entries[i]).id == id) {
            let i = choose|i: int| 0 <= i < entries.len() && (#[trigger] entries[i]).id == id;
            assert(t[i].id == id);
        }
    }
}

/// The entries from one on up to its root, itself first: the walk ends at a missing parent and at
/// an id that it has seen.
pub open spec fn up_from(entries: Seq<EntryView>, at: Option<Seq<char>>, seen: Seq<Seq<char>>) -> Seq<
    EntryView,
>
    decreases unseen(entries, seen),
    via up_from_ends
{
    match at {
        None => Seq::empty(),
        Some(id) => if seen.contains(id) {
            Seq::empty()
        } else {
            match entry_at(entries, id, entries.len() as int) {
                None => Seq::empty(),
                Some(i) => seq![entries[i]] + up_from(
                    entries,
                    entries[i].parent_id,
                    seen.push(id),
                ),
            }
        },
    }
}

#[via_fn]
proof fn up_from_ends(entries: Seq<EntryView>, at: Option<Seq<char>>, seen: Seq<Seq<char>>) {
    match at {
        None => {},
        Some(id) => {
            lemma_entry_at(entries, id, entries.len() as int);
            lemma_unseen(entries, seen, id);
        },
    }
}

/// The entries from the root to the leaf.
pub open spec fn branch_of(j: SessionJournalView) -> Seq<EntryView> {
    up_from(j.entries, j.leaf, Seq::empty()).reverse()
}

/// The messages that entries hold.
pub open spec fn messages_in(entries: Seq<EntryView>) -> Seq<MessageView>
    decreases entries.len(),
{
    if entries.len() == 0 {
        Seq::empty()
    } else {
        match message_of(entries.last()) {
            Some(m) => messages_in(entries.drop_last()).push(m),
            None => messages_in(entries.drop_last()),
        }
    }
}

/// How many messages cannot be read.
pub open spec fn unreadable_in(entries: Seq<EntryView>) -> nat
    decreases entries.len(),
{
    if entries.len() == 0 {
        0
    } else {
        unreadable_in(entries.drop_last()) + (if entries.last().kind == "message"@ && message_of(
            entries.last(),
        ) is None {
            1nat
        } else {
            0nat
        })
    }
}

/// The last model that was chosen, among the first `n` entries.
pub open spec fn model_in(entries: Seq<EntryView>, n: int) -> Option<Seq<char>>
    decreases n,
{
    if n <= 0 || n > entries.len() {
        None
    } else if entries[n - 1].kind == "model_change"@ {
        json::text_of(json::member(entries[n - 1].raw, "model"@))
    } else {
        model_in(entries, n - 1)
    }
}

fn find_entry(entries: &Vec<Entry>, id: &str) -> (r: Option<usize>)
    ensures
        match r {
            Some(i) => entry_at(text::views(entries@), id@, entries@.len() as int) == Some(i as int)
                && i < entries@.len(),
            None => entry_at(text::views(entries@), id@, entries@.len() as int) is None,
        },
{
    let ghost all = text::views(entries@);
    let mut n: usize = entries.len();
    while n > 0
        invariant
            n <= entries@.len(),
            all == text::views(entries@),
            entry_at(all, id@, entries@.len() as int) == entry_at(all, id@, n as int),
        decreases n,
    {
        assert(all[n - 1] == entries@[n - 1]@);
        if same_text(entries[n - 1].id.as_str(), id) {
            return Some(n - 1);
        }
        n -= 1;
    }
    None
}

impl SessionJournal {
    fn up(&self) -> (r: Vec<usize>)
        ensures
            r@.len() == up_from(self@.entries, self@.leaf, Seq::empty()).len(),
            forall|i: int|
                0 <= i < r@.len() ==> r@[i] < self.entries@.len() && self@.entries[#[trigger] r@[i] as int]
                    == up_from(self@.entries, self@.leaf, Seq::empty())[i],
    {
        let ghost all = self@.entries;
        let ghost want = up_from(all, self@.leaf, Seq::empty());
        let mut out: Vec<usize> = Vec::new();
        let mut seen: Vec<String> = Vec::new();
        let mut at = clone_opt_string(&self.leaf);
        let ghost mut done: Seq<EntryView> = Seq::empty();
        assert(text::views(seen@) =~= Seq::empty());
        assert(done + want =~= want);
        loop
            invariant
                all == self@.entries,
                all == text::views(self.entries@),
                want == up_from(all, self@.leaf, Seq::empty()),
                done + up_from(all, text::opt_view(at), text::views(seen@)) == want,
                out@.len() == done.len(),
                forall|i: int|
                    0 <= i < out@.len() ==> out@[i] < self.entries@.len() && all[#[trigger] out@[i] as int]
                        == done[i],
            decreases unseen(all, text::views(seen@)),
        {
            let id = match at {
                Some(id) => id,
                None => {
                    assert(done + Seq::<EntryView>::empty() =~= done);
                    return out;
                },
            };
            if contains_text(&seen, id.as_str()) {
                assert(done + Seq::<EntryView>::empty() =~= done);
                return out;
            }
            match find_entry(&self.entries, id.as_str()) {
                None => {
                    assert(done + Seq::<EntryView>::empty() =~= done);
                    return out;
                },
                Some(i) => {
                    proof {
                        lemma_entry_at(all, id@, all.len() as int);
                        lemma_unseen(all, text::views(seen@), id@);
                        text::lemma_views_push(seen@, id);
                        assert(all[i as int] == self.entries@[i as int]@);
                        let rest = up_from(
                            all,
                            all[i as int].parent_id,
                            text::views(seen@).push(id@),
                        );
                        assert(done + (seq![all[i as int]] + rest) =~= done.push(all[i as int])
                            + rest);
                        done = done.push(all[i as int]);
                    }
                    out.push(i);
                    seen.push(id);
                    at = clone_opt_string(&self.entries[i].parent_id);
                },
            }
        }
    }

    /// The entries from the root to the leaf.
    pub fn branch(&self) -> (r: Vec<&Entry>)
        ensures
            text::views(r@) == branch_of(self@),
    {
        let up = self.up();
        let ghost want = up_from(self@.entries, self@.leaf, Seq::empty());
        let n: usize = up.len();
        let mut out: Vec<&Entry> = Vec::new();
        let mut i: usize = 0;
        while i < n
            invariant
                i <= n,
                n == up@.len(),
                n == want.len(),
                forall|k: int|
                    0 <= k < n ==> up@[k] < self.entries@.len() && self@.entries[#[trigger] up@[k] as int]
                        == want[k],
                out@.len() == i,
                forall|k: int| 0 <= k < i ==> (#[trigger] out@[k])@ == want[n - 1 - k],
            decreases n - i,
        {
            assert(self@.entries[up@[n - 1 - i] as int] == want[n - 1 - i]);
            out.push(&self.entries[up[n - 1 - i]]);
            i += 1;
        }
        assert(text::views(out@) =~= want.reverse());
        out
    }

    /// The messages on the branch that can be read.
    pub fn build_context(&self) -> (r: Vec<Message>)
        ensures
            text::views(r@) == messages_in(branch_of(self@)),
    {
        let list = self.branch();
        let ghost all = branch_of(self@);
        let mut out: Vec<Message> = Vec::new();
        let mut i: usize = 0;
        assert(text::views(out@) =~= messages_in(all.take(0)));
        while i < list.len()
            invariant
                i <= list@.len(),
                all == text::views(list@),
                text::views(out@) == messages_in(all.take(i as int)),
            decreases list@.len() - i,
        {
            assert(all.take(i as int + 1).drop_last() =~= all.take(i as int));
            assert(all.take(i as int + 1).last() == list@[i as int]@);
            match list[i].message() {
                Some(m) => {
                    proof {
                        text::lemma_views_push(out@, m);
                    }
                    out.push(m);
                },
                None => {},
            }
            i += 1;
        }
        assert(all.take(i as int) =~= all);
        out
    }

    /// How many messages on the branch cannot be read.
    pub fn undecodable_messages(&self) -> (r: usize)
        ensures
            r == unreadable_in(branch_of(self@)),
    {
        let list = self.branch();
        let ghost all = branch_of(self@);
        let mut count: usize = 0;
        let mut i: usize = 0;
        while i < list.len()
            invariant
                i <= list@.len(),
                count <= i,
                all == text::views(list@),
                count == unreadable_in(all.take(i as int)),
            decreases list@.len() - i,
        {
            assert(all.take(i as int + 1).drop_last() =~= all.take(i as int));
            assert(all.take(i as int + 1).last() == list@[i as int]@);
            if same_text(list[i].kind.as_str(), "message") && list[i].message().is_none() {
                count += 1;
            }
            i += 1;
        }
        assert(all.take(i as int) =~= all);
        count
    }

    /// The last model that was chosen on the branch.
    pub fn current_model(&self) -> (r: Option<String>)
        ensures
            text::opt_view(r) == model_in(branch_of(self@), branch_of(self@).len() as int),
    {
        let list = self.branch();
        let ghost all = branch_of(self@);
        let mut n: usize = list.len();
        while n > 0
            invariant
                n <= list@.len(),
                all == text::views(list@),
                all == branch_of(self@),
                model_in(all, list@.len() as int) == model_in(all, n as int),
            decreases n,
        {
            assert(all[n - 1] == list@[n - 1]@);
            if same_text(list[n - 1].kind.as_str(), "model_change") {
                return opt_text_member(&list[n - 1].raw, "model");
            }
            n -= 1;
        }
        None
    }
}

// ------------------------------------------------------------------ writing

/// What is to be written.
#[derive(Debug, PartialEq)]
pub enum Write {
    /// Nothing: the file comes with the first assistant message.
    Nothing,
    /// The whole file anew, with this content.
    Rewrite(String),
    /// This line at the end of the file.
    Append(String),
}

/// What a [`Write`] stands for.
pub enum WriteView {
    Nothing,
    Rewrite(Seq<char>),
    Append(Seq<char>),
}

impl View for Write {
    type V = WriteView;

    open spec fn view(&self) -> WriteView {
        match self {
            Write::Nothing => WriteView::Nothing,
            Write::Rewrite(s) => WriteView::Rewrite(s@),
            Write::Append(s) => WriteView::Append(s@),
        }
    }
}

/// A value as a line.
pub open spec fn line_text(v: JsonView) -> Seq<char> {
    json::compact(v) + "\n"@
}

/// The lines of entries.
pub open spec fn entry_lines(entries: Seq<EntryView>) -> Seq<char>
    decreases entries.len(),
{
    if entries.len() == 0 {
        Seq::empty()
    } else {
        entry_lines(entries.drop_last()) + line_text(entries.last().raw)
    }
}

/// The content of the file.
pub open spec fn body_of(j: SessionJournalView) -> Seq<char> {
    title_text(j.title) + line_text(j.header) + entry_lines(j.entries)
}

/// Some entry is an assistant message.
pub open spec fn has_assistant(entries: Seq<EntryView>) -> bool {
    exists|i: int| 0 <= i < entries.len() && role_of(#[trigger] entries[i]) == Some("assistant"@)
}

/// What is to be written once the last entry was added.
pub open spec fn write_of(j: SessionJournalView) -> WriteView {
    if !j.materialized && !has_assistant(j.entries) {
        WriteView::Nothing
    } else if !j.materialized || j.rewrite_required {
        WriteView::Rewrite(body_of(j))
    } else {
        WriteView::Append(line_text(j.entries.last().raw))
    }
}

/// The value of an entry with one member of its own.
pub open spec fn entry_value(
    kind: Seq<char>,
    id: Seq<char>,
    parent: Option<Seq<char>>,
    timestamp: Seq<char>,
    name: Seq<char>,
    value: JsonView,
) -> JsonView {
    JsonView::Object(
        seq![
            ("type"@, JsonView::String(kind)),
            ("id"@, JsonView::String(id)),
            (
                "parentId"@,
                match parent {
                    Some(p) => JsonView::String(p),
                    None => JsonView::Null,
                },
            ),
            ("timestamp"@, JsonView::String(timestamp)),
            (name, value),
        ],
    )
}

/// The journal with one more entry, a child of the leaf.
pub open spec fn with_entry(
    j: SessionJournalView,
    kind: Seq<char>,
    id: Seq<char>,
    timestamp: Seq<char>,
    name: Seq<char>,
    value: JsonView,
) -> SessionJournalView {
    SessionJournalView {
        entries: j.entries.push(
            EntryView {
                id,
                parent_id: j.leaf,
                kind,
                raw: entry_value(kind, id, j.leaf, timestamp, name, value),
            },
        ),
        leaf: Some(id),
        ..j
    }
}

/// The journal with one more message.
pub open spec fn with_message(
    j: SessionJournalView,
    m: MessageView,
    id: Seq<char>,
    timestamp: Seq<char>,
) -> SessionJournalView {
    with_entry(j, "message"@, id, timestamp, "message"@, codec::message_json(m))
}

/// The journal after its last entry could not be written.
pub open spec fn rolled_back(j: SessionJournalView) -> SessionJournalView {
    if j.entries.len() == 0 {
        j
    } else {
        SessionJournalView {
            entries: j.entries.drop_last(),
            leaf: j.entries.last().parent_id,
            rewrite_required: true,
            ..j
        }
    }
}

/// The journal after something was written.
pub open spec fn after_write(j: SessionJournalView, w: WriteView) -> SessionJournalView {
    match w {
        WriteView::Rewrite(_) => SessionJournalView {
            materialized: true,
            rewrite_required: false,
            ..j
        },
        _ => j,
    }
}

/// The name of a new session's file.
pub open spec fn file_name(timestamp: Seq<char>, id: Seq<char>) -> Seq<char> {
    text::replaced(text::replaced(timestamp, ":"@, "-"@), "."@, "-"@) + "_"@ + id + ".jsonl"@
}

/// A file in a directory.
pub open spec fn path_in(dir: Seq<char>, name: Seq<char>) -> Seq<char> {
    if dir.len() == 0 || dir.last() == '/' {
        dir + name
    } else {
        dir + "/"@ + name
    }
}

/// The header of a new session.
pub open spec fn header_value(id: Seq<char>, timestamp: Seq<char>, cwd: Seq<char>) -> JsonView {
    JsonView::Object(
        seq![
            ("type"@, JsonView::String("session"@)),
            ("version"@, JsonView::Number(NumberView::PosInt(CURRENT_SESSION_VERSION))),
            ("id"@, JsonView::String(id)),
            ("timestamp"@, JsonView::String(timestamp)),
            ("cwd"@, JsonView::String(cwd)),
        ],
    )
}

/// A new session.
pub open spec fn created(
    session_dir: Seq<char>,
    cwd: Seq<char>,
    id: Seq<char>,
    timestamp: Seq<char>,
) -> SessionJournalView {
    SessionJournalView {
        path: path_in(session_dir, file_name(timestamp, id)),
        header: header_value(id, timestamp, cwd),
        title: TitleSlotView { title: Seq::empty(), source: None, updated_at: timestamp },
        entries: Seq::empty(),
        leaf: None,
        materialized: false,
        rewrite_required: false,
        pending_backup: false,
        report: LoadReportView { malformed_records: 0, backup: None },
    }
}

/// A hexadecimal digit, small.
pub open spec fn is_hex(c: char) -> bool {
    ('0' <= c && c <= '9') || ('a' <= c && c <= 'f')
}

/// `uuid::Uuid::new_v4` in its simple form: 32 small hexadecimal digits. Which they are is left to
/// chance. It takes nothing that could rule out its one panic, where the system has no random
/// bytes to give.
#[verifier::external_body]
fn random_hex() -> (r: String)
    ensures
        r@.len() == 32,
        forall|i: int| 0 <= i < r@.len() ==> is_hex(#[trigger] r@[i]),
{
    uuid::Uuid::new_v4().simple().to_string()
}

/// `uuid::Uuid::now_v7` in its simple form: 32 small hexadecimal digits. Which they are depends on
/// the time and on chance. It panics where the clock stands before the Unix epoch, or the system
/// has no random bytes to give.
#[verifier::external_body]
fn ordered_hex() -> (r: String)
    ensures
        r@.len() == 32,
        forall|i: int| 0 <= i < r@.len() ==> is_hex(#[trigger] r@[i]),
{
    uuid::Uuid::now_v7().simple().to_string()
}

/// The digits of an id in groups of eight, four, four, four and twelve.
pub open spec fn is_hyphenated(id: Seq<char>) -> bool {
    &&& id.len() == 36
    &&& forall|i: int|
        0 <= i < id.len() ==> if i == 8 || i == 13 || i == 18 || i == 23 {
            #[trigger] id[i] == '-'
        } else {
            is_hex(id[i])
        }
}

/// `uuid::Uuid::now_v7` in its hyphenated form. Which digits it holds depends on the time and on
/// chance. It panics where the clock stands before the Unix epoch, or the system has no random
/// bytes to give.
#[verifier::external_body]
pub(crate) fn ordered_id() -> (r: String)
    ensures
        is_hyphenated(r@),
{
    uuid::Uuid::now_v7().to_string()
}

/// `chrono::Utc::now`, shown with milliseconds. What it shows depends on the time; nothing is
/// stated of it. It panics where the clock stands before the Unix epoch.
#[verifier::external_body]
pub(crate) fn clock_iso() -> String {
    chrono::Utc::now().format("%Y-%m-%dT%H:%M:%S%.3fZ").to_string()
}

/// The ids of entries.
pub open spec fn ids_of(entries: Seq<EntryView>) -> Seq<Seq<char>> {
    entries.map_values(|e: EntryView| e.id)
}

/// A name that no entry has: the last eight digits of a random id, or a whole id where a hundred
/// tries failed.
pub open spec fn is_new_id(id: Seq<char>, entries: Seq<EntryView>) -> bool {
    &&& forall|i: int| 0 <= i < id.len() ==> is_hex(#[trigger] id[i])
    &&& (id.len() == 8 && !ids_of(entries).contains(id)) || id.len() == 32
}

impl SessionJournal {
    /// A new session in a directory, for a working directory.
    pub fn create_at(session_dir: &str, cwd: &str, id: String, timestamp: String) -> (r:
        SessionJournal)
        ensures
            r@ == created(session_dir@, cwd@, id@, timestamp@),
    {
        proof {
            reveal_strlit(":");
            reveal_strlit(".");
        }
        let a = text::replace_text(timestamp.as_str(), ":", "-");
        let b = text::replace_text(a.as_str(), ".", "-");
        let mut name = b;
        name.append("_");
        name.append(id.as_str());
        name.append(".jsonl");
        assert(name@ =~= file_name(timestamp@, id@));
        let dir = to_chars(session_dir);
        let n: usize = dir.len();
        let path = if n == 0 || dir[n - 1] == '/' {
            concat(session_dir, name.as_str())
        } else {
            concat(concat(session_dir, "/").as_str(), name.as_str())
        };
        let kind = Json::String("session".to_owned());
        let version = Json::Number(Number::PosInt(CURRENT_SESSION_VERSION));
        let named = Json::String(id);
        let time = Json::String(timestamp.clone());
        let place = Json::String(cwd.to_owned());
        let mut entries: Vec<(String, Json)> = Vec::new();
        entries.push(("type".to_owned(), kind));
        entries.push(("version".to_owned(), version));
        entries.push(("id".to_owned(), named));
        entries.push(("timestamp".to_owned(), time));
        entries.push(("cwd".to_owned(), place));
        let header = JsonObject { entries };
        assert(header@ =~= header_value(id@, timestamp@, cwd@)->Object_0);
        let none = String::new();
        assert(none@ =~= Seq::empty());
        let r = SessionJournal {
            path,
            header: Json::Object(header),
            title: TitleSlot { title: none, source: None, updated_at: timestamp },
            entries: Vec::new(),
            leaf: None,
            materialized: false,
            rewrite_required: false,
            pending_backup: false,
            report: LoadReport { malformed_records: 0, backup: None },
        };
        assert(r@.entries =~= Seq::empty());
        r
    }

    /// A new session in a directory, for a working directory.
    pub fn create(session_dir: &str, cwd: &str) -> (r: SessionJournal)
        ensures
            exists|id: Seq<char>, timestamp: Seq<char>|
                r@ == #[trigger] created(session_dir@, cwd@, id, timestamp) && is_hyphenated(id),
    {
        let id = ordered_id();
        let timestamp = clock_iso();
        let ghost a = id@;
        let ghost b = timestamp@;
        let r = SessionJournal::create_at(session_dir, cwd, id, timestamp);
        assert(r@ == created(session_dir@, cwd@, a, b));
        r
    }

    /// An id that no entry has.
    pub fn new_id(&self) -> (r: String)
        ensures
            is_new_id(r@, self@.entries),
    {
        let mut tries: u64 = 0;
        while tries < 100
            invariant
                tries <= 100,
            decreases 100 - tries,
        {
            let whole = random_hex();
            let v = to_chars(whole.as_str());
            let id = text::slice_string(&v, 24, 32);
            assert forall|i: int| 0 <= i < id@.len() implies is_hex(#[trigger] id@[i]) by {
                assert(id@[i] == whole@[i + 24]);
            }
            if find_entry(&self.entries, id.as_str()).is_none() {
                proof {
                    lemma_entry_at(self@.entries, id@, self@.entries.len() as int);
                    let ids = ids_of(self@.entries);
                    if ids.contains(id@) {
                        let k = choose|k: int| 0 <= k < ids.len() && ids[k] == id@;
                        assert(self@.entries[k].id == id@);
                    }
                }
                return id;
            }
            tries += 1;
        }
        ordered_hex()
    }

    /// The id and the time of a new entry.
    pub fn new_stamp(&self) -> (r: (String, String))
        ensures
            is_new_id(r.0@, self@.entries),
    {
        (self.new_id(), clock_iso())
    }

    /// The path of the file.
    pub fn path(&self) -> (r: &str)
        ensures
            r@ == self@.path,
    {
        self.path.as_str()
    }

    /// The id of the session.
    pub fn session_id(&self) -> (r: String)
        ensures
            r@ == text_or_empty(self@.header, "id"@),
    {
        text_member(&self.header, "id")
    }

    /// The header.
    pub fn header(&self) -> (r: &Json)
        ensures
            r@ == self@.header,
    {
        &self.header
    }

    /// The title.
    pub fn title(&self) -> (r: &TitleSlot)
        ensures
            r@ == self@.title,
    {
        &self.title
    }

    /// The entries.
    pub fn entries(&self) -> (r: &Vec<Entry>)
        ensures
            text::views(r@) == self@.entries,
    {
        &self.entries
    }

    /// The id of the leaf.
    pub fn leaf_id(&self) -> (r: Option<&str>)
        ensures
            text::opt_view(r) == self@.leaf,
    {
        match &self.leaf {
            Some(id) => Some(id.as_str()),
            None => None,
        }
    }

    /// Whether the file exists.
    pub fn is_on_disk(&self) -> (r: bool)
        ensures
            r == self@.materialized,
    {
        self.materialized
    }

    fn any_assistant(&self) -> (r: bool)
        ensures
            r == has_assistant(self@.entries),
    {
        let mut i: usize = 0;
        while i < self.entries.len()
            invariant
                i <= self.entries@.len(),
                forall|k: int|
                    0 <= k < i ==> role_of(#[trigger] self@.entries[k]) != Some("assistant"@),
            decreases self.entries@.len() - i,
        {
            assert(self@.entries[i as int] == self.entries@[i as int]@);
            if self.entries[i].has_role("assistant") {
                return true;
            }
            i += 1;
        }
        false
    }

    fn to_write(&self) -> (r: Write)
        requires
            self@.entries.len() > 0,
        ensures
            r@ == write_of(self@),
    {
        if !self.materialized && !self.any_assistant() {
            Write::Nothing
        } else if !self.materialized || self.rewrite_required {
            Write::Rewrite(self.file_body())
        } else {
            let n: usize = self.entries.len();
            assert(self@.entries.last() == self.entries@[n - 1]@);
            Write::Append(line_of(&self.entries[n - 1].raw))
        }
    }

    fn add(&mut self, kind: &str, id: String, timestamp: String, name: &str, value: Json) -> (r: Write)
        ensures
            final(self)@ == with_entry(old(self)@, kind@, id@, timestamp@, name@, value@),
            r@ == write_of(final(self)@),
    {
        let ghost before = self@;
        let parent = match &self.leaf {
            Some(p) => Json::String(p.clone()),
            None => Json::Null,
        };
        let a = Json::String(kind.to_owned());
        let b = Json::String(id.clone());
        let c = Json::String(timestamp);
        let mut fields: Vec<(String, Json)> = Vec::new();
        fields.push(("type".to_owned(), a));
        fields.push(("id".to_owned(), b));
        fields.push(("parentId".to_owned(), parent));
        fields.push(("timestamp".to_owned(), c));
        fields.push((name.to_owned(), value));
        let raw = JsonObject { entries: fields };
        let ghost want = entry_value(kind@, id@, before.leaf, timestamp@, name@, value@);
        assert(raw@ =~= want->Object_0);
        let e = Entry {
            id: id.clone(),
            parent_id: clone_opt_string(&self.leaf),
            kind: kind.to_owned(),
            raw: Json::Object(raw),
        };
        proof {
            text::lemma_views_push(self.entries@, e);
        }
        self.entries.push(e);
        self.leaf = Some(id);
        self.to_write()
    }

    /// Adds a message under an id: what is to be written.
    pub fn append_message(&mut self, message: &Message, id: String, timestamp: String) -> (r: Write)
        ensures
            final(self)@ == with_message(old(self)@, message@, id@, timestamp@),
            r@ == write_of(final(self)@),
    {
        self.add("message", id, timestamp, "message", write_message(message))
    }

    /// Notes that another model was chosen, as `provider/model`: what is to be written.
    pub fn append_model_change(&mut self, model: &str, id: String, timestamp: String) -> (r: Write)
        ensures
            final(self)@ == with_entry(
                old(self)@,
                "model_change"@,
                id@,
                timestamp@,
                "model"@,
                JsonView::String(model@),
            ),
            r@ == write_of(final(self)@),
    {
        self.add("model_change", id, timestamp, "model", Json::String(model.to_owned()))
    }

    /// The file is to be written though there is no assistant message.
    pub fn materialize(&self) -> (r: Write)
        ensures
            r@ == WriteView::Rewrite(body_of(self@)),
    {
        Write::Rewrite(self.file_body())
    }

    /// Something was written.
    pub fn wrote(&mut self, w: &Write)
        ensures
            final(self)@ == after_write(old(self)@, w@),
    {
        if let Write::Rewrite(_) = w {
            self.materialized = true;
            self.rewrite_required = false;
        }
    }

    /// The bytes of a torn file were kept.
    pub fn backed_up(&mut self, path: String)
        ensures
            final(self)@ == (SessionJournalView {
                pending_backup: false,
                report: LoadReportView { backup: Some(path@), ..old(self)@.report },
                ..old(self)@
            }),
    {
        self.pending_backup = false;
        self.report.backup = Some(path);
    }

    /// The last entry could not be written: it is taken back.
    pub fn roll_back(&mut self)
        ensures
            final(self)@ == rolled_back(old(self)@),
    {
        let ghost all = self.entries@;
        match self.entries.pop() {
            Some(e) => {
                assert(text::views(self.entries@) =~= text::views(all).drop_last());
                assert(text::views(all).last() == e@);
                self.leaf = e.parent_id;
                self.rewrite_required = true;
            },
            None => {},
        }
    }
}

// ------------------------------------------------------------------ what is written is read back

/// The entry is read back from its line as it is.
pub open spec fn entry_ok(e: EntryView) -> bool {
    &&& e.raw is Object
    &&& json::plain(e.raw, json::READ_DEPTH as nat)
    &&& entry_of(e.raw) == Some(e)
}

/// The journal is read back from its file: its header is a header of this version, and header and
/// entries hold no float and do not nest too deep.
pub open spec fn journal_ok(j: SessionJournalView) -> bool {
    &&& j.header is Object
    &&& json::plain(j.header, json::READ_DEPTH as nat)
    &&& is_header(j.header)
    &&& json::uint_of(json::member(j.header, "version"@)) == Some(CURRENT_SESSION_VERSION)
    &&& forall|i: int| 0 <= i < j.entries.len() ==> entry_ok(#[trigger] j.entries[i])
}

/// The journal as it is read back.
pub open spec fn read_again(j: SessionJournalView) -> SessionJournalView {
    SessionJournalView {
        path: j.path,
        header: j.header,
        title: TitleSlotView { title: fitted(j.title, j.title.title), ..j.title },
        entries: j.entries,
        leaf: if j.entries.len() > 0 {
            Some(j.entries.last().id)
        } else {
            None
        },
        materialized: true,
        rewrite_required: false,
        pending_backup: false,
        report: LoadReportView { malformed_records: 0, backup: None },
    }
}

/// The lines of the file, without their ends.
pub open spec fn body_lines(j: SessionJournalView) -> Seq<Seq<char>> {
    seq![
        json::compact(title_value(j.title, fitted(j.title, j.title.title), title_pad(j.title))),
        json::compact(j.header),
    ] + j.entries.map_values(|e: EntryView| json::compact(e.raw))
}

proof fn lemma_body_lines(j: SessionJournalView, n: int)
    requires
        0 <= n <= j.entries.len(),
    ensures
        text::unlines(body_lines(j).take(n + 2)) == title_text(j.title) + line_text(j.header)
            + entry_lines(j.entries.take(n)),
    decreases n,
{
    reveal_strlit("\n");
    assert("\n"@ =~= seq!['\n']);
    let all = body_lines(j);
    if n == 0 {
        let two = all.take(2);
        assert(two.drop_last().drop_last() =~= Seq::empty());
        assert(two.drop_last().last() == all[0]);
        assert(two.last() == all[1]);
        assert(text::unlines(two.drop_last().drop_last()) =~= Seq::empty());
        assert(text::unlines(two.drop_last()) =~= title_text(j.title));
        assert(text::unlines(two) =~= title_text(j.title) + line_text(j.header));
        assert(entry_lines(j.entries.take(0)) =~= Seq::empty());
        assert(text::unlines(two) =~= title_text(j.title) + line_text(j.header)
            + entry_lines(j.entries.take(0)));
    } else {
        lemma_body_lines(j, n - 1);
        assert(all.take(n + 2).drop_last() =~= all.take(n + 1));
        assert(all.take(n + 2).last() == json::compact(j.entries[n - 1].raw));
        assert(j.entries.take(n).drop_last() =~= j.entries.take(n - 1));
        assert(text::unlines(all.take(n + 2)) =~= title_text(j.title) + line_text(j.header)
            + entry_lines(j.entries.take(n)));
    }
}

proof fn lemma_brace_shows(s: Seq<char>)
    requires
        s.len() > 0,
        s[0] == '{',
    ensures
        !text::all_space(Space::Unicode, s),
{
    assert(!text::is_space(Space::Unicode, s[0]));
}

proof fn lemma_title_read(slot: TitleSlotView, title: Seq<char>, pad: Seq<char>)
    ensures
        is_title(title_value(slot, title, pad)),
        title_of(title_value(slot, title, pad)) == (TitleSlotView { title, ..slot }),
{
    codec::lemma_lookups();
    lemma_title_names();
}

/// What was read once the first `n` entries were read.
pub open spec fn loading_at(j: SessionJournalView, n: int) -> LoadingView {
    LoadingView {
        header: Some(j.header),
        title: Some(TitleSlotView { title: fitted(j.title, j.title.title), ..j.title }),
        entries: j.entries.take(n),
        malformed: 0,
        first: false,
    }
}

proof fn lemma_entries_load(j: SessionJournalView, lines: Seq<Seq<char>>, n: int)
    requires
        journal_ok(j),
        lines == body_lines(j).push(Seq::empty()),
        forall|i: int| 0 <= i < j.entries.len() ==> reads_back((#[trigger] j.entries[i]).raw),
        0 <= n <= j.entries.len(),
    ensures
        loaded_from(lines, n + 2, loading_at(j, n)) == Ok::<LoadingView, Seq<char>>(
            loading_at(j, j.entries.len() as int),
        ),
    decreases j.entries.len() - n,
{
    if n == j.entries.len() {
        assert(lines[n + 2] == Seq::<char>::empty());
        reveal_with_fuel(loaded_from, 3);
        assert(text::all_space(Space::Unicode, lines[n + 2]));
    } else {
        let e = j.entries[n];
        assert(entry_ok(e));
        assert(reads_back(e.raw));
        assert(lines[n + 2] == json::compact(e.raw));
        lemma_brace_shows(lines[n + 2]);
        assert(j.entries.take(n).push(e) =~= j.entries.take(n + 1));
        lemma_entries_load(j, lines, n + 1);
    }
}

/// A journal that was written is read back: header and entries as they were, the title cut to its
/// width, the last entry the leaf, and nothing to repair.
pub proof fn law_written_journals_read_back(j: SessionJournalView)
    requires
        journal_ok(j),
        reads_back(title_value(j.title, fitted(j.title, j.title.title), title_pad(j.title))),
        reads_back(j.header),
        forall|i: int| 0 <= i < j.entries.len() ==> reads_back((#[trigger] j.entries[i]).raw),
    ensures
        opened(j.path, body_of(j), false) == Ok::<SessionJournalView, Seq<char>>(read_again(j)),
{
    let title = fitted(j.title, j.title.title);
    let pad = title_pad(j.title);
    let tv = title_value(j.title, title, pad);
    let lines = body_lines(j);
    let n = j.entries.len() as int;
    lemma_body_lines(j, n);
    assert(lines.take(n + 2) =~= lines);
    assert(j.entries.take(n) =~= j.entries);
    assert forall|i: int| 0 <= i < lines.len() implies !(#[trigger] lines[i]).contains('\n') by {
        if i >= 2 {
            assert(reads_back(j.entries[i - 2].raw));
        }
    }
    text::law_lines_split_again(lines);
    let all = lines.push(Seq::empty());
    lemma_title_value(j.title, title, pad);
    lemma_title_read(j.title, title, pad);
    assert(all[0] == json::compact(tv));
    assert(all[1] == json::compact(j.header));
    lemma_brace_shows(all[0]);
    lemma_brace_shows(all[1]);
    let first = LoadingView {
        title: Some(TitleSlotView { title, ..j.title }),
        first: false,
        ..load_start()
    };
    assert(loaded_from(all, 0, load_start()) == loaded_from(all, 1, first));
    assert(j.entries.take(0) =~= Seq::empty());
    let second = LoadingView { header: Some(j.header), ..first };
    assert(with_record(first, Some(j.header)) == Ok::<LoadingView, Seq<char>>(second));
    assert(second == loading_at(j, 0));
    assert(loaded_from(all, 1, first) == loaded_from(all, 2, second));
    lemma_entries_load(j, all, 0);
}

impl SessionJournal {
    /// The content of the file; where nothing in the journal stands against it, the journal is read
    /// back from it.
    pub fn file_body(&self) -> (r: String)
        ensures
            r@ == body_of(self@),
            journal_ok(self@) ==> opened(self@.path, r@, false) == Ok::<
                SessionJournalView,
                Seq<char>,
            >(read_again(self@)),
    {
        let mut out = serialize_title_slot(&self.title);
        out.append(line_of(&self.header).as_str());
        let ghost head = out@;
        let ghost all = self@.entries;
        let mut i: usize = 0;
        assert(out@ =~= head + entry_lines(all.take(0)));
        while i < self.entries.len()
            invariant
                i <= self.entries@.len(),
                all == self@.entries,
                out@ == head + entry_lines(all.take(i as int)),
                forall|k: int| 0 <= k < i ==> reads_back((#[trigger] all[k]).raw),
            decreases self.entries@.len() - i,
        {
            assert(all.take(i as int + 1).drop_last() =~= all.take(i as int));
            assert(all.take(i as int + 1).last() == self.entries@[i as int]@);
            assert(all[i as int] == self.entries@[i as int]@);
            out.append(line_of(&self.entries[i].raw).as_str());
            assert(out@ =~= head + entry_lines(all.take(i as int + 1)));
            i += 1;
        }
        assert(all.take(i as int) =~= all);
        proof {
            if journal_ok(self@) {
                law_written_journals_read_back(self@);
            }
        }
        out
    }
}

proof fn lemma_entry_names()
    ensures
        "type"@ != "id"@,
        "type"@ != "parentId"@,
        "type"@ != "timestamp"@,
        "type"@ != "message"@,
        "type"@ != "model"@,
        "id"@ != "parentId"@,
        "id"@ != "timestamp"@,
        "id"@ != "message"@,
        "id"@ != "model"@,
        "parentId"@ != "timestamp"@,
        "parentId"@ != "message"@,
        "parentId"@ != "model"@,
        "timestamp"@ != "message"@,
        "timestamp"@ != "model"@,
        "message"@ != "model"@,
{
    reveal_strlit("type");
    assert("type"@.len() == 4);
    reveal_strlit("id");
    assert("id"@.len() == 2);
    reveal_strlit("parentId");
    assert("parentId"@.len() == 8);
    reveal_strlit("timestamp");
    assert("timestamp"@.len() == 9);
    reveal_strlit("message");
    assert("message"@.len() == 7);
    reveal_strlit("model");
    assert("model"@.len() == 5);
}

// ------------------------------------------------------------------ what holds of every journal

/// An entry that could not be written leaves no trace: the journal is as it was, and the file is to
/// be written anew.
pub proof fn law_failed_appends_leave_no_trace(
    j: SessionJournalView,
    kind: Seq<char>,
    id: Seq<char>,
    timestamp: Seq<char>,
    name: Seq<char>,
    value: JsonView,
)
    ensures
        rolled_back(with_entry(j, kind, id, timestamp, name, value)) == (SessionJournalView {
            rewrite_required: true,
            ..j
        }),
{
    let k = with_entry(j, kind, id, timestamp, name, value);
    assert(k.entries.drop_last() =~= j.entries);
}

/// No entry has the id.
pub open spec fn is_free(entries: Seq<EntryView>, id: Seq<char>) -> bool {
    forall|i: int| 0 <= i < entries.len() ==> (#[trigger] entries[i]).id != id
}

proof fn lemma_entry_at_pushed(entries: Seq<EntryView>, e: EntryView, id: Seq<char>, n: int)
    requires
        0 <= n <= entries.len(),
    ensures
        entry_at(entries.push(e), id, n) == entry_at(entries, id, n),
    decreases n,
{
    if n > 0 {
        lemma_entry_at_pushed(entries, e, id, n - 1);
    }
}

/// The ids seen, with one more in front.
proof fn lemma_up_from_pushed(
    entries: Seq<EntryView>,
    e: EntryView,
    at: Option<Seq<char>>,
    seen: Seq<Seq<char>>,
)
    requires
        is_free(entries, e.id),
    ensures
        up_from(entries.push(e), at, seq![e.id] + seen) == up_from(entries, at, seen),
    decreases unseen(entries, seen),
{
    match at {
        None => {},
        Some(id) => {
            let more = seq![e.id] + seen;
            let n = entries.len() as int;
            assert(more.contains(id) == (id == e.id || seen.contains(id))) by {
                if id == e.id {
                    assert(more[0] == id);
                }
                if seen.contains(id) {
                    let k = choose|k: int| 0 <= k < seen.len() && seen[k] == id;
                    assert(more[k + 1] == id);
                }
                if more.contains(id) && id != e.id {
                    let k = choose|k: int| 0 <= k < more.len() && more[k] == id;
                    assert(seen[k - 1] == id);
                }
            }
            lemma_entry_at(entries, id, n);
            if id == e.id {
                assert(entry_at(entries, id, n) is None) by {
                    match entry_at(entries, id, n) {
                        Some(i) => {
                            assert(entries[i].id != e.id);
                        },
                        None => {},
                    }
                }
            } else if !seen.contains(id) {
                lemma_entry_at_pushed(entries, e, id, n);
                assert(entry_at(entries.push(e), id, n + 1) == entry_at(entries.push(e), id, n));
                match entry_at(entries, id, n) {
                    None => {},
                    Some(i) => {
                        lemma_unseen(entries, seen, id);
                        assert(entries.push(e)[i] == entries[i]);
                        assert((seq![e.id] + seen).push(id) =~= seq![e.id] + seen.push(id));
                        lemma_up_from_pushed(entries, e, entries[i].parent_id, seen.push(id));
                    },
                }
            }
        },
    }
}

/// A new entry is the end of the branch, and the branch before it stays as it was.
pub proof fn law_a_new_entry_ends_the_branch(
    j: SessionJournalView,
    kind: Seq<char>,
    id: Seq<char>,
    timestamp: Seq<char>,
    name: Seq<char>,
    value: JsonView,
)
    requires
        is_free(j.entries, id),
    ensures
        ({
            let k = with_entry(j, kind, id, timestamp, name, value);
            branch_of(k) == branch_of(j).push(k.entries.last())
        }),
{
    let k = with_entry(j, kind, id, timestamp, name, value);
    let e = k.entries.last();
    let n = j.entries.len() as int;
    assert(k.entries == j.entries.push(e));
    let none = Seq::<Seq<char>>::empty();
    assert(!none.contains(id));
    assert(entry_at(k.entries, id, n + 1) == Some(n));
    assert(none.push(id) =~= seq![id] + none);
    lemma_up_from_pushed(j.entries, e, j.leaf, none);
    let rest = up_from(j.entries, j.leaf, none);
    assert(up_from(k.entries, k.leaf, none) == seq![e] + rest);
    assert((seq![e] + rest).reverse() =~= rest.reverse().push(e));
}

proof fn lemma_entry_message(kind: Seq<char>, id: Seq<char>, parent: Option<Seq<char>>, timestamp: Seq<char>, value: JsonView)
    ensures
        json::member(
            entry_value(kind, id, parent, timestamp, "message"@, value),
            "message"@,
        ) == Some(value),
{
    reveal_with_fuel(json::find_key, 6);
    lemma_entry_names();
}

/// A message that is added is the last message of the context, and the messages before it stay.
pub proof fn law_a_new_message_ends_the_context(
    j: SessionJournalView,
    m: MessageView,
    id: Seq<char>,
    timestamp: Seq<char>,
)
    requires
        is_free(j.entries, id),
        codec::storable(m),
    ensures
        messages_in(branch_of(with_message(j, m, id, timestamp))) == messages_in(branch_of(j)).push(
            m,
        ),
{
    let k = with_message(j, m, id, timestamp);
    law_a_new_entry_ends_the_branch(
        j,
        "message"@,
        id,
        timestamp,
        "message"@,
        codec::message_json(m),
    );
    let e = k.entries.last();
    lemma_entry_message("message"@, id, j.leaf, timestamp, codec::message_json(m));
    codec::law_written_messages_read_back(m);
    assert(message_of(e) == Some(m));
    assert(branch_of(k).drop_last() =~= branch_of(j));
}

/// Nothing is written before there is an assistant message; from then on every entry is.
pub proof fn law_files_come_with_the_first_answer(j: SessionJournalView)
    ensures
        write_of(j) is Nothing <==> !j.materialized && !has_assistant(j.entries),
{
}

// ------------------------------------------------------------------ interrupted calls

/// The call that a block of a message is, by its id and its name.
pub open spec fn call_in(b: JsonView) -> Option<(Seq<char>, Seq<char>)> {
    if json::text_of(json::member(b, "type"@)) == Some("toolCall"@) {
        match (json::text_of(json::member(b, "id"@)), json::text_of(json::member(b, "name"@))) {
            (Some(id), Some(name)) => Some((id, name)),
            _ => None,
        }
    } else {
        None
    }
}

/// The calls among blocks.
pub open spec fn calls_in(blocks: Seq<JsonView>) -> Seq<(Seq<char>, Seq<char>)>
    decreases blocks.len(),
{
    if blocks.len() == 0 {
        Seq::empty()
    } else {
        match call_in(blocks.last()) {
            Some(c) => calls_in(blocks.drop_last()).push(c),
            None => calls_in(blocks.drop_last()),
        }
    }
}

/// The calls that the message of an entry makes.
pub open spec fn calls_of(e: EntryView) -> Seq<(Seq<char>, Seq<char>)> {
    match json::array_of(message_member(e, "content"@)) {
        Some(blocks) => calls_in(blocks),
        None => Seq::empty(),
    }
}

/// The calls that the first `n` entries answer.
pub open spec fn answered_in(branch: Seq<EntryView>, n: int) -> Seq<Seq<char>>
    decreases n,
{
    if n <= 0 || n > branch.len() {
        Seq::empty()
    } else if role_of(branch[n - 1]) == Some("toolResult"@) {
        match json::text_of(message_member(branch[n - 1], "toolCallId"@)) {
            Some(id) => answered_in(branch, n - 1).push(id),
            None => answered_in(branch, n - 1),
        }
    } else {
        answered_in(branch, n - 1)
    }
}

/// The calls that no id answers.
pub open spec fn missing_of(calls: Seq<(Seq<char>, Seq<char>)>, answered: Seq<Seq<char>>) -> Seq<
    (Seq<char>, Seq<char>),
>
    decreases calls.len(),
{
    if calls.len() == 0 {
        Seq::empty()
    } else if answered.contains(calls.last().0) {
        missing_of(calls.drop_last(), answered)
    } else {
        missing_of(calls.drop_last(), answered).push(calls.last())
    }
}

/// The entry does not stand between calls and results: it is no message, or a result.
pub open spec fn is_result(e: EntryView) -> bool {
    e.kind != "message"@ || role_of(e) == Some("toolResult"@)
}

/// Only results follow an entry.
pub open spec fn results_follow(branch: Seq<EntryView>, i: int) -> bool {
    forall|k: int| i < k < branch.len() ==> is_result(#[trigger] branch[k])
}

/// Calls whose results were never recorded: those that can be answered now, and the ids of those
/// that cannot.
pub struct GapsView {
    pub paired: Seq<(Seq<char>, Seq<char>)>,
    pub unpaired: Seq<Seq<char>>,
}

/// The ids of calls.
pub open spec fn call_ids(calls: Seq<(Seq<char>, Seq<char>)>) -> Seq<Seq<char>> {
    calls.map_values(|c: (Seq<char>, Seq<char>)| c.0)
}

/// The gaps in the first `n` entries of a branch: the calls of the last assistant turn can be
/// answered where only results follow it; those of earlier turns cannot.
pub open spec fn gaps_in(branch: Seq<EntryView>, answered: Seq<Seq<char>>, n: int) -> GapsView
    decreases n,
{
    if n <= 0 || n > branch.len() {
        GapsView { paired: Seq::empty(), unpaired: Seq::empty() }
    } else {
        let g = gaps_in(branch, answered, n - 1);
        let missing = missing_of(calls_of(branch[n - 1]), answered);
        if role_of(branch[n - 1]) != Some("assistant"@) {
            g
        } else if results_follow(branch, n - 1) {
            GapsView { paired: g.paired + missing, ..g }
        } else {
            GapsView { unpaired: g.unpaired + call_ids(missing), ..g }
        }
    }
}

/// The gaps in a branch.
pub open spec fn gaps(branch: Seq<EntryView>) -> GapsView {
    let n = branch.len() as int;
    gaps_in(branch, answered_in(branch, n), n)
}

/// The answer to a call whose result was never recorded.
pub open spec fn unknown_effect(id: Seq<char>, name: Seq<char>, now: i64) -> ToolResultMessageView {
    ToolResultMessageView {
        tool_call_id: id,
        tool_name: name,
        content: agent_event::text_output(UNKNOWN_EFFECT_TEXT@, None, true).content,
        details: Some(
            JsonView::Object(
                seq![
                    ("__synthetic"@, JsonView::Bool(true)),
                    ("source"@, JsonView::String("interrupted_unknown_effect"@)),
                    ("executed"@, JsonView::String("unknown"@)),
                ],
            ),
        ),
        is_error: true,
        timestamp: now,
    }
}

/// The answer to a call whose result was never recorded.
pub fn unknown_effect_result(id: &str, name: &str, now: i64) -> (r: Message)
    ensures
        r@ == MessageView::ToolResult(unknown_effect(id@, name@, now)),
{
    let source = Json::String("interrupted_unknown_effect".to_owned());
    let executed = Json::String("unknown".to_owned());
    Message::ToolResult(
        ToolResultMessage {
            tool_call_id: id.to_owned(),
            tool_name: name.to_owned(),
            content: ToolOutput::error(UNKNOWN_EFFECT_TEXT).content,
            details: Some(
                object_3(
                    "__synthetic",
                    Json::Bool(true),
                    "source",
                    source,
                    "executed",
                    executed,
                ),
            ),
            is_error: true,
            timestamp: now,
        },
    )
}

/// A call by its id and its name.
#[derive(Debug, PartialEq)]
pub struct OpenCall {
    pub id: String,
    pub name: String,
}

impl View for OpenCall {
    type V = (Seq<char>, Seq<char>);

    open spec fn view(&self) -> (Seq<char>, Seq<char>) {
        (self.id@, self.name@)
    }
}

/// Calls whose results were never recorded.
#[derive(Debug, PartialEq)]
pub struct Recovery {
    /// Calls that are to be answered with an unknown effect, right after their turn.
    pub paired: Vec<OpenCall>,
    /// Earlier calls that can no longer be answered in their place.
    pub unpaired_earlier: Vec<String>,
}

fn read_call(b: &Json) -> (r: Option<OpenCall>)
    ensures
        text::opt_view(r) == call_in(b@),
{
    if !has_text(b, "type", "toolCall") {
        return None;
    }
    match (opt_text_member(b, "id"), opt_text_member(b, "name")) {
        (Some(id), Some(name)) => Some(OpenCall { id, name }),
        _ => None,
    }
}

fn read_calls(e: &Entry) -> (r: Vec<OpenCall>)
    ensures
        text::views(r@) == calls_of(e@),
{
    let mut out: Vec<OpenCall> = Vec::new();
    assert(text::views(out@) =~= Seq::empty());
    match as_array(e.member("content")) {
        Some(blocks) => {
            let ghost all = text::views(blocks@);
            let mut i: usize = 0;
            assert(text::views(out@) =~= calls_in(all.take(0)));
            while i < blocks.len()
                invariant
                    i <= blocks@.len(),
                    all == text::views(blocks@),
                    text::views(out@) == calls_in(all.take(i as int)),
                decreases blocks@.len() - i,
            {
                assert(all.take(i as int + 1).drop_last() =~= all.take(i as int));
                assert(all.take(i as int + 1).last() == blocks@[i as int]@);
                if let Some(c) = read_call(&blocks[i]) {
                    proof {
                        text::lemma_views_push(out@, c);
                    }
                    out.push(c);
                }
                i += 1;
            }
            assert(all.take(i as int) =~= all);
            out
        },
        None => out,
    }
}

fn find_answered(branch: &Vec<&Entry>) -> (r: Vec<String>)
    ensures
        text::views(r@) == answered_in(text::views(branch@), branch@.len() as int),
{
    let ghost all = text::views(branch@);
    let mut out: Vec<String> = Vec::new();
    let mut i: usize = 0;
    assert(text::views(out@) =~= answered_in(all, 0));
    while i < branch.len()
        invariant
            i <= branch@.len(),
            all == text::views(branch@),
            text::views(out@) == answered_in(all, i as int),
        decreases branch@.len() - i,
    {
        assert(all[i as int] == branch@[i as int]@);
        if branch[i].has_role("toolResult") {
            if let Some(id) = as_text(branch[i].member("toolCallId")) {
                let id = id.to_owned();
                proof {
                    text::lemma_views_push(out@, id);
                }
                out.push(id);
            }
        }
        i += 1;
    }
    out
}

fn drop_answered(calls: Vec<OpenCall>, answered: &Vec<String>) -> (r: Vec<OpenCall>)
    ensures
        text::views(r@) == missing_of(text::views(calls@), text::views(answered@)),
{
    let ghost all = text::views(calls@);
    let ghost known = text::views(answered@);
    let mut out: Vec<OpenCall> = Vec::new();
    let mut i: usize = 0;
    assert(text::views(out@) =~= missing_of(all.take(0), known));
    while i < calls.len()
        invariant
            i <= calls@.len(),
            all == text::views(calls@),
            known == text::views(answered@),
            text::views(out@) == missing_of(all.take(i as int), known),
        decreases calls@.len() - i,
    {
        assert(all.take(i as int + 1).drop_last() =~= all.take(i as int));
        assert(all.take(i as int + 1).last() == calls@[i as int]@);
        if !contains_text(answered, calls[i].id.as_str()) {
            let c = OpenCall { id: calls[i].id.clone(), name: calls[i].name.clone() };
            proof {
                text::lemma_views_push(out@, c);
            }
            out.push(c);
        }
        i += 1;
    }
    assert(all.take(i as int) =~= all);
    out
}

fn only_results_follow(branch: &Vec<&Entry>, i: usize) -> (r: bool)
    requires
        i < branch@.len(),
    ensures
        r == results_follow(text::views(branch@), i as int),
{
    let ghost all = text::views(branch@);
    let n: usize = branch.len();
    let mut k: usize = i + 1;
    while k < n
        invariant
            i < k <= n,
            n == branch@.len(),
            all == text::views(branch@),
            forall|m: int| i < m < k ==> is_result(#[trigger] all[m]),
        decreases n - k,
    {
        assert(all[k as int] == branch@[k as int]@);
        if same_text(branch[k].kind.as_str(), "message") && !branch[k].has_role("toolResult") {
            assert(!is_result(all[k as int]));
            return false;
        }
        k += 1;
    }
    true
}

fn append_calls(list: &mut Vec<OpenCall>, more: Vec<OpenCall>)
    ensures
        text::views(final(list)@) == text::views(old(list)@) + text::views(more@),
{
    let ghost a = text::views(list@);
    let ghost b = text::views(more@);
    let mut more = more;
    list.append(&mut more);
    assert(text::views(list@) =~= a + b);
}

fn append_ids(list: &mut Vec<String>, calls: &Vec<OpenCall>)
    ensures
        text::views(final(list)@) == text::views(old(list)@) + call_ids(text::views(calls@)),
{
    let ghost a = text::views(list@);
    let ghost ids = call_ids(text::views(calls@));
    let mut i: usize = 0;
    assert(text::views(list@) =~= a + ids.take(0));
    while i < calls.len()
        invariant
            i <= calls@.len(),
            ids == call_ids(text::views(calls@)),
            text::views(list@) == a + ids.take(i as int),
        decreases calls@.len() - i,
    {
        let id = calls[i].id.clone();
        proof {
            text::lemma_views_push(list@, id);
            assert(ids[i as int] == id@);
            assert((a + ids.take(i as int)).push(id@) =~= a + ids.take(i as int + 1));
        }
        list.push(id);
        i += 1;
    }
    assert(ids.take(i as int) =~= ids);
}

impl SessionJournal {
    /// The calls on the branch whose results were never recorded. Nothing is replayed: what can be
    /// answered in its place is to be answered with an unknown effect, the rest is reported.
    pub fn interrupted_tool_calls(&self) -> (r: Recovery)
        ensures
            text::views(r.paired@) == gaps(branch_of(self@)).paired,
            text::views(r.unpaired_earlier@) == gaps(branch_of(self@)).unpaired,
    {
        let branch = self.branch();
        let ghost all = text::views(branch@);
        let answered = find_answered(&branch);
        let ghost known = text::views(answered@);
        let n: usize = branch.len();
        let mut paired: Vec<OpenCall> = Vec::new();
        let mut unpaired: Vec<String> = Vec::new();
        let mut i: usize = 0;
        assert(text::views(paired@) =~= gaps_in(all, known, 0).paired);
        assert(text::views(unpaired@) =~= gaps_in(all, known, 0).unpaired);
        while i < n
            invariant
                i <= n,
                n == branch@.len(),
                all == text::views(branch@),
                known == text::views(answered@),
                text::views(paired@) == gaps_in(all, known, i as int).paired,
                text::views(unpaired@) == gaps_in(all, known, i as int).unpaired,
            decreases n - i,
        {
            assert(all[i as int] == branch@[i as int]@);
            if branch[i].has_role("assistant") {
                let missing = drop_answered(read_calls(branch[i]), &answered);
                if only_results_follow(&branch, i) {
                    append_calls(&mut paired, missing);
                } else {
                    append_ids(&mut unpaired, &missing);
                }
            }
            i += 1;
        }
        Recovery { paired, unpaired_earlier: unpaired }
    }
}

/// The entry answers a call.
pub open spec fn answers(e: EntryView, id: Seq<char>) -> bool {
    &&& role_of(e) == Some("toolResult"@)
    &&& json::text_of(message_member(e, "toolCallId"@)) == Some(id)
}

proof fn lemma_missing_member(calls: Seq<(Seq<char>, Seq<char>)>, answered: Seq<Seq<char>>, k: int)
    requires
        0 <= k < calls.len(),
        !answered.contains(calls[k].0),
    ensures
        missing_of(calls, answered).contains(calls[k]),
    decreases calls.len(),
{
    let t = calls.drop_last();
    if k == calls.len() - 1 {
        let m = missing_of(t, answered).push(calls.last());
        assert(m[m.len() - 1] == calls[k]);
    } else {
        lemma_missing_member(t, answered, k);
        let m = missing_of(t, answered);
        let i = choose|i: int| 0 <= i < m.len() && m[i] == t[k];
        if answered.contains(calls.last().0) {
            assert(missing_of(calls, answered)[i] == calls[k]);
        } else {
            assert(m.push(calls.last())[i] == calls[k]);
        }
    }
}

proof fn lemma_nothing_missing(calls: Seq<(Seq<char>, Seq<char>)>, answered: Seq<Seq<char>>)
    requires
        forall|k: int| 0 <= k < calls.len() ==> answered.contains((#[trigger] calls[k]).0),
    ensures
        missing_of(calls, answered).len() == 0,
    decreases calls.len(),
{
    if calls.len() > 0 {
        let t = calls.drop_last();
        assert forall|k: int| 0 <= k < t.len() implies answered.contains((#[trigger] t[k]).0) by {
            assert(calls[k] == t[k]);
        }
        lemma_nothing_missing(t, answered);
        assert(answered.contains(calls[calls.len() - 1].0));
    }
}

proof fn lemma_answered_before(a: Seq<EntryView>, b: Seq<EntryView>, n: int)
    requires
        0 <= n <= a.len(),
    ensures
        answered_in(a + b, n) == answered_in(a, n),
    decreases n,
{
    if n > 0 {
        lemma_answered_before(a, b, n - 1);
        assert((a + b)[n - 1] == a[n - 1]);
    }
}

proof fn lemma_answered_grows(branch: Seq<EntryView>, m: int, n: int, id: Seq<char>)
    requires
        0 <= m <= n <= branch.len(),
        answered_in(branch, m).contains(id),
    ensures
        answered_in(branch, n).contains(id),
    decreases n - m,
{
    if m < n {
        lemma_answered_grows(branch, m, n - 1, id);
        let s = answered_in(branch, n - 1);
        let k = choose|k: int| 0 <= k < s.len() && s[k] == id;
        assert(answered_in(branch, n)[k] == id);
    }
}

proof fn lemma_paired_member(
    branch: Seq<EntryView>,
    answered: Seq<Seq<char>>,
    i: int,
    n: int,
    c: (Seq<char>, Seq<char>),
)
    requires
        0 <= i < n <= branch.len(),
        role_of(branch[i]) == Some("assistant"@),
        results_follow(branch, i),
        missing_of(calls_of(branch[i]), answered).contains(c),
    ensures
        gaps_in(branch, answered, n).paired.contains(c),
    decreases n,
{
    let before = gaps_in(branch, answered, n - 1).paired;
    let missing = missing_of(calls_of(branch[n - 1]), answered);
    if i == n - 1 {
        let k = choose|k: int| 0 <= k < missing.len() && missing[k] == c;
        assert((before + missing)[before.len() + k] == c);
    } else {
        lemma_paired_member(branch, answered, i, n - 1, c);
        let k = choose|k: int| 0 <= k < before.len() && before[k] == c;
        assert((before + missing)[k] == c);
        assert(before[k] == c);
        assert(gaps_in(branch, answered, n).paired[k] == c);
    }
}

proof fn lemma_no_gaps_left(
    branch: Seq<EntryView>,
    results: Seq<EntryView>,
    answered: Seq<Seq<char>>,
    n: int,
)
    requires
        0 <= n <= branch.len() + results.len(),
        forall|k: int|
            0 <= k < results.len() ==> role_of(#[trigger] results[k]) == Some("toolResult"@),
        forall|i: int, k: int|
            #![trigger calls_of(branch[i])[k]]
            0 <= i < branch.len() && role_of(branch[i]) == Some("assistant"@) && results_follow(
                branch,
                i,
            ) && 0 <= k < calls_of(branch[i]).len() ==> answered.contains(
                calls_of(branch[i])[k].0,
            ),
    ensures
        gaps_in(branch + results, answered, n).paired.len() == 0,
    decreases n,
{
    if n > 0 {
        let all = branch + results;
        lemma_no_gaps_left(branch, results, answered, n - 1);
        let i = n - 1;
        if i < branch.len() {
            assert(all[i] == branch[i]);
            if role_of(branch[i]) == Some("assistant"@) && results_follow(all, i) {
                assert forall|k: int| i < k < branch.len() implies is_result(
                    #[trigger] branch[k],
                ) by {
                    assert(is_result(all[k]));
                }
                let calls = calls_of(branch[i]);
                assert forall|k: int| 0 <= k < calls.len() implies answered.contains(
                    (#[trigger] calls[k]).0,
                ) by {
                    assert(calls_of(branch[i])[k] == calls[k]);
                }
                lemma_nothing_missing(calls, answered);
            }
        } else {
            assert(all[i] == results[i - branch.len()]);
            lemma_roles_differ();
        }
    }
}

proof fn lemma_roles_differ()
    ensures
        "toolResult"@ != "assistant"@,
{
    reveal_strlit("toolResult");
    reveal_strlit("assistant");
    assert("toolResult"@.len() == 10);
    assert("assistant"@.len() == 9);
}

/// Once the calls that can be answered were answered, no call is left to answer.
pub proof fn law_recovery_is_done_once(branch: Seq<EntryView>, results: Seq<EntryView>)
    requires
        results.len() == gaps(branch).paired.len(),
        forall|k: int|
            0 <= k < results.len() ==> answers(#[trigger] results[k], gaps(branch).paired[k].0),
    ensures
        gaps(branch + results).paired.len() == 0,
{
    let n = branch.len() as int;
    let all = branch + results;
    let known = answered_in(branch, n);
    let after = answered_in(all, all.len() as int);
    let paired = gaps(branch).paired;
    lemma_answered_before(branch, results, n);
    assert forall|k: int| 0 <= k < results.len() implies after.contains(
        (#[trigger] paired[k]).0,
    ) by {
        assert(answers(results[k], paired[k].0));
        assert(all[n + k] == results[k]);
        let s = answered_in(all, n + k + 1);
        assert(s.len() > 0 && s[s.len() - 1] == paired[k].0);
        assert(s.contains(paired[k].0));
        lemma_answered_grows(all, n + k + 1, all.len() as int, paired[k].0);
    }
    assert forall|i: int, k: int|
        #![trigger calls_of(branch[i])[k]]
        0 <= i < branch.len() && role_of(branch[i]) == Some("assistant"@) && results_follow(
            branch,
            i,
        ) && 0 <= k < calls_of(branch[i]).len() implies after.contains(
        calls_of(branch[i])[k].0,
    ) by {
        let calls = calls_of(branch[i]);
        let c = calls[k];
        if known.contains(c.0) {
            lemma_answered_grows(all, n, all.len() as int, c.0);
        } else {
            lemma_missing_member(calls, known, k);
            lemma_paired_member(branch, known, i, n, c);
            let q = choose|q: int| 0 <= q < paired.len() && paired[q] == c;
            assert(after.contains(paired[q].0));
        }
    }
    assert forall|k: int| 0 <= k < results.len() implies role_of(#[trigger] results[k]) == Some(
        "toolResult"@,
    ) by {
        assert(answers(results[k], paired[k].0));
    }
    lemma_no_gaps_left(branch, results, after, all.len() as int);
}

proof fn lemma_answered_by(branch: Seq<EntryView>, results: Seq<EntryView>, n: int, id: Seq<char>)
    requires
        branch.len() <= n <= branch.len() + results.len(),
        answered_in(branch + results, n).contains(id),
    ensures
        answered_in(branch, branch.len() as int).contains(id) || exists|k: int|
            0 <= k < results.len() && answers(#[trigger] results[k], id),
    decreases n,
{
    let all = branch + results;
    if n == branch.len() {
        lemma_answered_before(branch, results, n);
    } else {
        let before = answered_in(all, n - 1);
        let now = answered_in(all, n);
        assert(all[n - 1] == results[n - 1 - branch.len()]);
        let at = choose|at: int| 0 <= at < now.len() && now[at] == id;
        if at < before.len() {
            assert(before[at] == id);
            lemma_answered_by(branch, results, n - 1, id);
        } else {
            assert(answers(results[n - 1 - branch.len()], id));
        }
    }
}

proof fn lemma_same_missing(
    calls: Seq<(Seq<char>, Seq<char>)>,
    known: Seq<Seq<char>>,
    after: Seq<Seq<char>>,
)
    requires
        forall|k: int|
            0 <= k < calls.len() ==> (known.contains((#[trigger] calls[k]).0) <==> after.contains(
                calls[k].0,
            )),
    ensures
        missing_of(calls, after) == missing_of(calls, known),
    decreases calls.len(),
{
    if calls.len() > 0 {
        let t = calls.drop_last();
        assert forall|k: int| 0 <= k < t.len() implies (known.contains((#[trigger] t[k]).0)
            <==> after.contains(t[k].0)) by {
            assert(calls[k] == t[k]);
        }
        lemma_same_missing(t, known, after);
        let last = calls[calls.len() - 1];
        assert(known.contains(last.0) <==> after.contains(last.0));
    }
}

proof fn lemma_same_unpaired(
    branch: Seq<EntryView>,
    results: Seq<EntryView>,
    known: Seq<Seq<char>>,
    after: Seq<Seq<char>>,
    n: int,
)
    requires
        0 <= n <= branch.len() + results.len(),
        forall|k: int|
            0 <= k < results.len() ==> role_of(#[trigger] results[k]) == Some("toolResult"@),
        forall|id: Seq<char>| #[trigger] known.contains(id) ==> after.contains(id),
        forall|q: int|
            0 <= q < gaps_in(branch, known, branch.len() as int).unpaired.len() ==> !after.contains(
                #[trigger] gaps_in(branch, known, branch.len() as int).unpaired[q],
            ),
    ensures
        gaps_in(branch + results, after, n).unpaired == gaps_in(
            branch,
            known,
            if n < branch.len() {
                n
            } else {
                branch.len() as int
            },
        ).unpaired,
    decreases n,
{
    let all = branch + results;
    let m = branch.len() as int;
    if n > 0 {
        lemma_same_unpaired(branch, results, known, after, n - 1);
        let i = n - 1;
        if i >= m {
            assert(all[i] == results[i - m]);
            lemma_roles_differ();
        } else {
            assert(all[i] == branch[i]);
            assert(results_follow(all, i) == results_follow(branch, i)) by {
                if results_follow(all, i) {
                    assert forall|k: int| i < k < branch.len() implies is_result(
                        #[trigger] branch[k],
                    ) by {
                        assert(is_result(all[k]));
                    }
                }
                if results_follow(branch, i) {
                    assert forall|k: int| i < k < all.len() implies is_result(
                        #[trigger] all[k],
                    ) by {
                        if k < m {
                            assert(is_result(branch[k]));
                        } else {
                            assert(all[k] == results[k - m]);
                        }
                    }
                }
            }
            if role_of(branch[i]) == Some("assistant"@) && !results_follow(branch, i) {
                let calls = calls_of(branch[i]);
                assert forall|k: int| 0 <= k < calls.len() implies (known.contains(
                    (#[trigger] calls[k]).0,
                ) <==> after.contains(calls[k].0)) by {
                    if !known.contains(calls[k].0) {
                        lemma_missing_member(calls, known, k);
                        let missing = missing_of(calls, known);
                        let at = choose|at: int| 0 <= at < missing.len() && missing[at] == calls[k];
                        let before = gaps_in(branch, known, i).unpaired;
                        let now = gaps_in(branch, known, n).unpaired;
                        assert(call_ids(missing)[at] == calls[k].0);
                        assert(now[before.len() + at] == calls[k].0);
                        lemma_unpaired_grows(branch, known, n, m);
                        assert(gaps_in(branch, known, m).unpaired[before.len() + at] == calls[k].0);
                    }
                }
                lemma_same_missing(calls, known, after);
            }
        }
    }
}

proof fn lemma_unpaired_grows(branch: Seq<EntryView>, known: Seq<Seq<char>>, m: int, n: int)
    requires
        0 <= m <= n <= branch.len(),
    ensures
        gaps_in(branch, known, m).unpaired.len() <= gaps_in(branch, known, n).unpaired.len(),
        forall|q: int|
            0 <= q < gaps_in(branch, known, m).unpaired.len() ==> #[trigger] gaps_in(
                branch,
                known,
                n,
            ).unpaired[q] == gaps_in(branch, known, m).unpaired[q],
    decreases n - m,
{
    if m < n {
        lemma_unpaired_grows(branch, known, m, n - 1);
    }
}

/// To answer the calls that can be answered leaves those that cannot as they were: a second
/// recovery reports the same ids, unless one of them is also the id of a call that was answered.
pub proof fn law_recovery_leaves_earlier_calls(branch: Seq<EntryView>, results: Seq<EntryView>)
    requires
        results.len() == gaps(branch).paired.len(),
        forall|k: int|
            0 <= k < results.len() ==> answers(#[trigger] results[k], gaps(branch).paired[k].0),
        forall|k: int, q: int|
            0 <= k < gaps(branch).paired.len() && 0 <= q < gaps(branch).unpaired.len()
                ==> (#[trigger] gaps(branch).paired[k]).0 != #[trigger] gaps(branch).unpaired[q],
    ensures
        gaps(branch + results).paired.len() == 0,
        gaps(branch + results).unpaired == gaps(branch).unpaired,
{
    law_recovery_is_done_once(branch, results);
    let n = branch.len() as int;
    let all = branch + results;
    let known = answered_in(branch, n);
    let after = answered_in(all, all.len() as int);
    lemma_answered_before(branch, results, n);
    assert forall|id: Seq<char>| #[trigger] known.contains(id) implies after.contains(id) by {
        lemma_answered_grows(all, n, all.len() as int, id);
    }
    let unpaired = gaps(branch).unpaired;
    assert forall|q: int| 0 <= q < unpaired.len() implies !after.contains(
        #[trigger] unpaired[q],
    ) by {
        lemma_unpaired_unknown(branch, known, n, q);
        if after.contains(unpaired[q]) {
            lemma_answered_by(branch, results, all.len() as int, unpaired[q]);
            let k = choose|k: int|
                0 <= k < results.len() && answers(#[trigger] results[k], unpaired[q]);
            assert(gaps(branch).paired[k].0 == unpaired[q]);
        }
    }
    lemma_same_unpaired(branch, results, known, after, all.len() as int);
}

proof fn lemma_missing_unknown(
    calls: Seq<(Seq<char>, Seq<char>)>,
    known: Seq<Seq<char>>,
    k: int,
)
    requires
        0 <= k < missing_of(calls, known).len(),
    ensures
        !known.contains(missing_of(calls, known)[k].0),
    decreases calls.len(),
{
    let before = missing_of(calls.drop_last(), known);
    if k < before.len() {
        lemma_missing_unknown(calls.drop_last(), known, k);
        assert(missing_of(calls, known)[k] == before[k]);
    }
}

proof fn lemma_unpaired_unknown(branch: Seq<EntryView>, known: Seq<Seq<char>>, n: int, q: int)
    requires
        0 <= n <= branch.len(),
        0 <= q < gaps_in(branch, known, n).unpaired.len(),
    ensures
        !known.contains(gaps_in(branch, known, n).unpaired[q]),
    decreases n,
{
    if n > 0 {
        let before = gaps_in(branch, known, n - 1).unpaired;
        let missing = missing_of(calls_of(branch[n - 1]), known);
        if q < before.len() {
            lemma_unpaired_unknown(branch, known, n - 1, q);
            assert(gaps_in(branch, known, n).unpaired[q] == before[q]);
        } else {
            lemma_missing_unknown(calls_of(branch[n - 1]), known, q - before.len());
            assert(call_ids(missing)[q - before.len()] == missing[q - before.len()].0);
        }
    }
}

/// The journal once the first `n` of the calls were answered with an unknown effect, each under
/// an id, with a stamp and at a time of its own.
pub open spec fn with_answers(
    j: SessionJournalView,
    calls: Seq<(Seq<char>, Seq<char>)>,
    ids: Seq<Seq<char>>,
    stamps: Seq<Seq<char>>,
    times: Seq<i64>,
    n: int,
) -> SessionJournalView
    decreases n,
{
    if n <= 0 {
        j
    } else {
        with_message(
            with_answers(j, calls, ids, stamps, times, n - 1),
            MessageView::ToolResult(
                unknown_effect(calls[n - 1].0, calls[n - 1].1, times[n - 1]),
            ),
            ids[n - 1],
            stamps[n - 1],
        )
    }
}

proof fn lemma_entry_answers(j: SessionJournalView, r: ToolResultMessageView, id: Seq<char>, timestamp: Seq<char>)
    ensures
        answers(
            with_message(j, MessageView::ToolResult(r), id, timestamp).entries.last(),
            r.tool_call_id,
        ),
{
    let m = MessageView::ToolResult(r);
    let v = codec::message_json(m);
    lemma_entry_message("message"@, id, j.leaf, timestamp, v);
    reveal_strlit("role");
    reveal_strlit("toolCallId");
    assert("role"@.len() == 4 && "toolCallId"@.len() == 10);
    let o = codec::result_members(r);
    assert(o[0] == ("role"@, codec::jtext("toolResult"@)));
    assert(o[1] == ("toolCallId"@, codec::jtext(r.tool_call_id)));
    reveal_with_fuel(json::find_key, 3);
    assert(json::member(v, "role"@) == Some(codec::jtext("toolResult"@)));
    assert(json::member(v, "toolCallId"@) == Some(codec::jtext(r.tool_call_id)));
}

proof fn lemma_answers_end_the_branch(
    j: SessionJournalView,
    calls: Seq<(Seq<char>, Seq<char>)>,
    ids: Seq<Seq<char>>,
    stamps: Seq<Seq<char>>,
    times: Seq<i64>,
    n: int,
) -> (results: Seq<EntryView>)
    requires
        0 <= n <= ids.len(),
        forall|k: int| 0 <= k < ids.len() ==> is_free(j.entries, #[trigger] ids[k]),
        forall|a: int, b: int| 0 <= a < b < ids.len() ==> #[trigger] ids[a] != #[trigger] ids[b],
    ensures
        results.len() == n,
        branch_of(with_answers(j, calls, ids, stamps, times, n)) == branch_of(j) + results,
        forall|k: int| 0 <= k < n ==> answers(#[trigger] results[k], calls[k].0),
        forall|i: int|
            0 <= i < with_answers(j, calls, ids, stamps, times, n).entries.len() ==> {
                let e = #[trigger] with_answers(j, calls, ids, stamps, times, n).entries[i];
                i < j.entries.len() && e == j.entries[i] || exists|k: int|
                    0 <= k < n && e.id == #[trigger] ids[k]
            },
    decreases n,
{
    if n <= 0 {
        let none = Seq::<EntryView>::empty();
        assert(branch_of(j) + none =~= branch_of(j));
        none
    } else {
        let before = with_answers(j, calls, ids, stamps, times, n - 1);
        let k = with_answers(j, calls, ids, stamps, times, n);
        let r = unknown_effect(calls[n - 1].0, calls[n - 1].1, times[n - 1]);
        let done = lemma_answers_end_the_branch(j, calls, ids, stamps, times, n - 1);
        assert forall|i: int| 0 <= i < before.entries.len() implies (#[trigger] before.entries[i]).id
            != ids[n - 1] by {
            if !(i < j.entries.len() && before.entries[i] == j.entries[i]) {
                let q = choose|q: int| 0 <= q < n - 1 && before.entries[i].id == #[trigger] ids[q];
                assert(ids[q] != ids[n - 1]);
            } else {
                assert(is_free(j.entries, ids[n - 1]));
            }
        }
        law_a_new_entry_ends_the_branch(
            before,
            "message"@,
            ids[n - 1],
            stamps[n - 1],
            "message"@,
            codec::message_json(MessageView::ToolResult(r)),
        );
        lemma_entry_answers(before, r, ids[n - 1], stamps[n - 1]);
        let results = done.push(k.entries.last());
        assert((branch_of(j) + done).push(k.entries.last()) =~= branch_of(j) + results);
        assert forall|i: int| 0 <= i < k.entries.len() implies ({
            let e = #[trigger] k.entries[i];
            i < j.entries.len() && e == j.entries[i] || exists|q: int|
                0 <= q < n && e.id == #[trigger] ids[q]
        }) by {
            if i < before.entries.len() {
                assert(k.entries[i] == before.entries[i]);
                if !(i < j.entries.len() && before.entries[i] == j.entries[i]) {
                    let q = choose|q: int|
                        0 <= q < n - 1 && before.entries[i].id == #[trigger] ids[q];
                    assert(k.entries[i].id == ids[q]);
                }
            } else {
                assert(k.entries[i].id == ids[n - 1]);
            }
        }
        results
    }
}

/// Recovery on a journal: once every call that can be answered was answered under a new id,
/// none is left to answer; and the calls that cannot be answered are the same ones as before,
/// unless one of them has the id of a call that was answered.
pub proof fn law_a_recovered_journal_is_whole(
    j: SessionJournalView,
    ids: Seq<Seq<char>>,
    stamps: Seq<Seq<char>>,
    times: Seq<i64>,
)
    requires
        ids.len() == gaps(branch_of(j)).paired.len(),
        forall|k: int| 0 <= k < ids.len() ==> is_free(j.entries, #[trigger] ids[k]),
        forall|a: int, b: int| 0 <= a < b < ids.len() ==> #[trigger] ids[a] != #[trigger] ids[b],
    ensures
        ({
            let before = gaps(branch_of(j));
            let after = gaps(
                branch_of(
                    with_answers(j, before.paired, ids, stamps, times, ids.len() as int),
                ),
            );
            &&& after.paired.len() == 0
            &&& (forall|k: int, q: int|
                0 <= k < before.paired.len() && 0 <= q < before.unpaired.len()
                    ==> (#[trigger] before.paired[k]).0 != #[trigger] before.unpaired[q])
                ==> after.unpaired == before.unpaired
        }),
{
    let before = gaps(branch_of(j));
    let results = lemma_answers_end_the_branch(
        j,
        before.paired,
        ids,
        stamps,
        times,
        ids.len() as int,
    );
    law_recovery_is_done_once(branch_of(j), results);
    if forall|k: int, q: int|
        0 <= k < before.paired.len() && 0 <= q < before.unpaired.len() ==> (
        #[trigger] before.paired[k]).0 != #[trigger] before.unpaired[q] {
        law_recovery_leaves_earlier_calls(branch_of(j), results);
    }
}

// ------------------------------------------------------------------ the latest session

/// A file in the directory of the sessions.
#[derive(Debug, PartialEq)]
pub struct SessionFile {
    pub name: String,
    /// When it was changed last, where that is known.
    pub modified: Option<i128>,
}

/// What a [`SessionFile`] stands for.
#[verifier::ext_equal]
pub struct SessionFileView {
    pub name: Seq<char>,
    pub modified: Option<i128>,
}

impl View for SessionFile {
    type V = SessionFileView;

    open spec fn view(&self) -> SessionFileView {
        SessionFileView {
            name: self.name@,
            modified: self.modified,
        }
    }
}

impl Clone for SessionFile {
    fn clone(&self) -> (r: SessionFile)
        ensures
            r@ == self@,
    {
        SessionFile {
            name: self.name.clone(),
            modified: self.modified,
        }
    }
}

/// Whether a name is that of a journal.
pub open spec fn is_journal_name(name: Seq<char>) -> bool {
    name.len() > 6 && text::stands_at(name, name.len() - 6, ".jsonl"@)
}

/// Whether a file can be the latest session.
pub open spec fn counts(f: SessionFileView) -> bool {
    is_journal_name(f.name) && f.modified is Some
}

/// The index of the journal that was changed last; of several the first.
pub open spec fn latest_of(files: Seq<SessionFileView>) -> Option<int>
    decreases files.len(),
{
    if files.len() == 0 {
        None
    } else {
        let best = latest_of(files.drop_last());
        if !counts(files.last()) {
            best
        } else {
            match best {
                Some(i) => if files.last().modified.unwrap() > files[i].modified.unwrap() {
                    Some(files.len() - 1)
                } else {
                    best
                },
                None => Some(files.len() - 1),
            }
        }
    }
}

fn has_journal_name(name: &str) -> (r: bool)
    ensures
        r == is_journal_name(name@),
{
    proof {
        reveal_strlit(".jsonl");
        assert(".jsonl"@.len() == 6);
    }
    let v = to_chars(name);
    let n: usize = v.len();
    n > 6 && text::is_at(&v, n - 6, ".jsonl")
}

/// The name of the journal that was changed last; of several the first.
pub fn latest_session(files: &Vec<SessionFile>) -> (r: Option<String>)
    ensures
        match latest_of(text::views(files@)) {
            Some(i) => text::opt_view(r) == Some(text::views(files@)[i].name),
            None => r is None,
        },
{
    let ghost all = text::views(files@);
    let mut best: Option<usize> = None;
    let mut i: usize = 0;
    assert(all.take(0) =~= Seq::<SessionFileView>::empty());
    while i < files.len()
        invariant
            i <= files@.len(),
            all == text::views(files@),
            match best {
                Some(b) => b < i && latest_of(all.take(i as int)) == Some(b as int) && counts(
                    all[b as int],
                ),
                None => latest_of(all.take(i as int)) is None,
            },
        decreases files@.len() - i,
    {
        proof {
            assert(all.take(i as int + 1).drop_last() =~= all.take(i as int));
            assert(all.take(i as int + 1).last() == files@[i as int]@);
            assert(all[i as int] == files@[i as int]@);
        }
        if has_journal_name(&files[i].name) {
            match files[i].modified {
                Some(t) => match best {
                    Some(b) => {
                        assert(all[b as int] == files@[b as int]@);
                        match files[b].modified {
                            Some(u) => {
                                if t > u {
                                    best = Some(i);
                                }
                            },
                            None => {},
                        }
                    },
                    None => {
                        best = Some(i);
                    },
                },
                None => {},
            }
        }
        i += 1;
    }
    assert(all.take(i as int) =~= all);
    match best {
        Some(b) => {
            assert(all[b as int] == files@[b as int]@);
            Some(files[b].name.clone())
        },
        None => None,
    }
}

/// The latest session is a journal, no journal was changed after it, and there is one where there
/// is any journal whose change is known.
pub proof fn law_the_latest_session_is_the_newest(files: Seq<SessionFileView>, i: int)
    requires
        0 <= i < files.len(),
        counts(files[i]),
    ensures
        latest_of(files) matches Some(b) && 0 <= b < files.len() && counts(files[b])
            && files[b].modified.unwrap() >= files[i].modified.unwrap(),
    decreases files.len(),
{
    let most = files.drop_last();
    if i < most.len() {
        law_the_latest_session_is_the_newest(most, i);
        assert(most[i] == files[i]);
        let b = latest_of(most).unwrap();
        assert(most[b] == files[b]);
    } else {
        lemma_latest_counts(most);
        if let Some(b) = latest_of(most) {
            assert(most[b] == files[b]);
        }
    }
}

proof fn lemma_latest_counts(files: Seq<SessionFileView>)
    ensures
        latest_of(files) matches Some(b) ==> 0 <= b < files.len() && counts(files[b]),
    decreases files.len(),
{
    if files.len() > 0 {
        lemma_latest_counts(files.drop_last());
    }
}

/// A damaged file is never added to: what it held is to be saved first, and the next entry that is
/// added has the whole file written anew.
pub proof fn law_damaged_files_are_written_anew(
    path: Seq<char>,
    content: Seq<char>,
    torn: bool,
    m: MessageView,
    id: Seq<char>,
    timestamp: Seq<char>,
)
    requires
        opened(path, content, torn) is Ok,
        torn || loaded_from(text::split(content, '\n'), 0, load_start())->Ok_0.malformed > 0,
    ensures
        ({
            let j = opened(path, content, torn)->Ok_0;
            let next = with_message(j, m, id, timestamp);
            &&& j.pending_backup
            &&& next.pending_backup
            &&& write_of(next) == WriteView::Rewrite(body_of(next))
        }),
{
}

} // verus!
