//! A scripted upstream: what it reads of a request, records and sends.
//!
//! A script is a list of responses that are served in order, one for each request. A response holds
//! a plain body or a stream of events.
use crate::json;
use crate::json::{object_1, object_2, object_3, Entries, Json, JsonObject, JsonView, Number, NumberView};
use crate::session;
use crate::sse;
use crate::sse::decode_lossy;
use crate::text;
use crate::text::{
    clone_all, clone_opt_string, decimal_text, find_char_at, find_text_at, lower_text, same_text, slice_string, to_chars,
    trim_text, Space,
};
use vstd::prelude::*;

verus! {

// ------------------------------------------------------------------ requests

/// The index behind the blank line that ends the head of a request, from `i` on.
pub open spec fn head_end(bytes: Seq<u8>, i: int) -> Option<int>
    decreases bytes.len() - i,
{
    if i < 0 || i + 4 > bytes.len() {
        None
    } else if bytes[i] == 13 && bytes[i + 1] == 10 && bytes[i + 2] == 13 && bytes[i + 3] == 10 {
        Some(i + 4)
    } else {
        head_end(bytes, i + 1)
    }
}

/// The index behind the blank line that ends the head of a request, where all of it is there.
pub fn find_head_end(bytes: &Vec<u8>) -> (r: Option<usize>)
    ensures
        match r {
            Some(i) => head_end(bytes@, 0) == Some(i as int) && i <= bytes@.len(),
            None => head_end(bytes@, 0) is None,
        },
{
    let n: usize = bytes.len();
    let mut i: usize = 0;
    while i < n && n - i >= 4
        invariant
            i <= n,
            n == bytes@.len(),
            head_end(bytes@, 0) == head_end(bytes@, i as int),
        decreases n - i,
    {
        if bytes[i] == 13 && bytes[i + 1] == 10 && bytes[i + 2] == 13 && bytes[i + 3] == 10 {
            return Some(i + 4);
        }
        i += 1;
    }
    None
}

/// A header of a request, its name in small letters.
#[derive(Debug, PartialEq)]
pub struct FakeHeader {
    pub name: String,
    pub value: String,
}

/// What a [`FakeHeader`] stands for.
#[verifier::ext_equal]
pub struct FakeHeaderView {
    pub name: Seq<char>,
    pub value: Seq<char>,
}

impl View for FakeHeader {
    type V = FakeHeaderView;

    open spec fn view(&self) -> FakeHeaderView {
        FakeHeaderView {
            name: self.name@,
            value: self.value@,
        }
    }
}

impl Clone for FakeHeader {
    fn clone(&self) -> (r: FakeHeader)
        ensures
            r@ == self@,
    {
        FakeHeader {
            name: self.name.clone(),
            value: self.value.clone(),
        }
    }
}

/// The head of a request.
#[derive(Debug, PartialEq)]
pub struct FakeRequest {
    pub line: String,
    pub headers: Vec<FakeHeader>,
    /// How many bytes the body has.
    pub length: u64,
}

/// What a [`FakeRequest`] stands for.
#[verifier::ext_equal]
pub struct FakeRequestView {
    pub line: Seq<char>,
    pub headers: Seq<FakeHeaderView>,
    pub length: u64,
}

impl View for FakeRequest {
    type V = FakeRequestView;

    open spec fn view(&self) -> FakeRequestView {
        FakeRequestView {
            line: self.line@,
            headers: text::views(self.headers@),
            length: self.length,
        }
    }
}

impl Clone for FakeRequest {
    fn clone(&self) -> (r: FakeRequest)
        ensures
            r@ == self@,
    {
        FakeRequest {
            line: self.line.clone(),
            headers: clone_all(&self.headers),
            length: self.length,
        }
    }
}

/// The lines of a head from index `from` on.
pub open spec fn lines_from(s: Seq<char>, from: int) -> Seq<Seq<char>>
    decreases s.len() - from,
    via lines_from_ends
{
    match text::find_text(s, "\r\n"@, from) {
        Some(i) => seq![s.subrange(from, i)] + lines_from(s, i + 2),
        None => seq![s.subrange(from, s.len() as int)],
    }
}

#[via_fn]
proof fn lines_from_ends(s: Seq<char>, from: int) {
    reveal_strlit("\r\n");
    assert("\r\n"@.len() == 2);
    if 0 <= from {
        text::lemma_find_text(s, "\r\n"@, from);
    }
}

/// The header of a line.
pub open spec fn header_in(line: Seq<char>) -> Option<FakeHeaderView> {
    match text::find_char(line, ':', 0) {
        Some(i) => Some(
            FakeHeaderView {
                name: text::lower(text::trim(Space::Unicode, line.subrange(0, i))),
                value: text::trim(Space::Unicode, line.subrange(i + 1, line.len() as int)),
            },
        ),
        None => None,
    }
}

/// The headers of lines.
pub open spec fn headers_in(lines: Seq<Seq<char>>) -> Seq<FakeHeaderView>
    decreases lines.len(),
{
    if lines.len() == 0 {
        Seq::empty()
    } else {
        let have = headers_in(lines.drop_last());
        match header_in(lines.last()) {
            Some(h) => have.push(h),
            None => have,
        }
    }
}

/// The value of the first header of a name, from `i` on.
pub open spec fn header_at(headers: Seq<FakeHeaderView>, name: Seq<char>, i: int) -> Option<Seq<char>>
    decreases headers.len() - i,
{
    if i < 0 || i >= headers.len() {
        None
    } else if headers[i].name == name {
        Some(headers[i].value)
    } else {
        header_at(headers, name, i + 1)
    }
}

/// How many bytes a body has by its headers; none where they do not tell.
pub open spec fn body_length(headers: Seq<FakeHeaderView>) -> u64 {
    match header_at(headers, "content-length"@, 0) {
        Some(v) => match text::unsigned_value(v) {
            Some(n) => if 0 <= n <= u64::MAX {
                n as u64
            } else {
                0
            },
            None => 0,
        },
        None => 0,
    }
}

/// The head of a request.
pub open spec fn request_of(head: Seq<char>) -> FakeRequestView {
    let lines = lines_from(head, 0);
    let headers = headers_in(lines.skip(1));
    FakeRequestView { line: lines[0], headers, length: body_length(headers) }
}

fn split_lines(head: &str) -> (r: Vec<String>)
    ensures
        text::views(r@) == lines_from(head@, 0),
        r@.len() > 0,
{
    proof {
        reveal_strlit("\r\n");
        assert("\r\n"@.len() == 2);
    }
    let v = to_chars(head);
    let n: usize = v.len();
    let mut out: Vec<String> = Vec::new();
    let mut from: usize = 0;
    assert(text::views(out@) + lines_from(v@, 0) =~= lines_from(head@, 0));
    loop
        invariant
            from <= n,
            n == v@.len(),
            v@ == head@,
            "\r\n"@.len() == 2,
            text::views(out@) + lines_from(v@, from as int) == lines_from(head@, 0),
        decreases n - from,
    {
        let ghost before = text::views(out@);
        match find_text_at(&v, "\r\n", from) {
            Some(i) => {
                proof {
                    text::lemma_find_text(v@, "\r\n"@, from as int);
                    assert(text::stands_at(v@, i as int, "\r\n"@));
                }
                let line = slice_string(&v, from, i);
                proof {
                    text::lemma_views_push(out@, line);
                    let rest = lines_from(v@, i as int + 2);
                    assert(before + (seq![line@] + rest) =~= before.push(line@) + rest);
                }
                out.push(line);
                from = i + 2;
            },
            None => {
                let line = slice_string(&v, from, n);
                proof {
                    text::lemma_views_push(out@, line);
                    assert(before + seq![line@] =~= before.push(line@));
                }
                out.push(line);
                return out;
            },
        }
    }
}

fn read_header(line: &str) -> (r: Option<FakeHeader>)
    ensures
        text::opt_view(r) == header_in(line@),
{
    let v = to_chars(line);
    let n: usize = v.len();
    match find_char_at(&v, ':', 0) {
        Some(i) => {
            let name = slice_string(&v, 0, i);
            let value = slice_string(&v, i + 1, n);
            Some(
                FakeHeader {
                    name: lower_text(&trim_text(Space::Unicode, &name)),
                    value: trim_text(Space::Unicode, &value),
                },
            )
        },
        None => None,
    }
}

fn find_length(headers: &Vec<FakeHeader>) -> (r: u64)
    ensures
        r == body_length(text::views(headers@)),
{
    let ghost all = text::views(headers@);
    let ghost name = "content-length"@;
    let mut i: usize = 0;
    while i < headers.len()
        invariant
            i <= headers@.len(),
            all == text::views(headers@),
            name == "content-length"@,
            header_at(all, name, 0) == header_at(all, name, i as int),
        decreases headers@.len() - i,
    {
        assert(all[i as int] == headers@[i as int]@);
        if same_text(&headers[i].name, "content-length") {
            return match text::parse_unsigned(&headers[i].value) {
                Some(n) => n,
                None => 0,
            };
        }
        i += 1;
    }
    0
}

/// Reads the head of a request.
pub fn read_request(head: &Vec<u8>) -> (r: FakeRequest)
    ensures
        r@ == request_of(sse::utf8_text(head@)),
{
    let lines = split_lines(&decode_lossy(head));
    let ghost all = text::views(lines@);
    let ghost rest = all.skip(1);
    let mut headers: Vec<FakeHeader> = Vec::new();
    let mut i: usize = 1;
    proof {
        assert(rest.take(0) =~= Seq::<Seq<char>>::empty());
        assert(text::views(headers@) =~= Seq::empty());
    }
    while i < lines.len()
        invariant
            1 <= i <= lines@.len(),
            all == text::views(lines@),
            rest == all.skip(1),
            text::views(headers@) == headers_in(rest.take(i - 1)),
        decreases lines@.len() - i,
    {
        proof {
            assert(rest.take(i as int).drop_last() =~= rest.take(i - 1));
            assert(rest.take(i as int).last() == lines@[i as int]@);
        }
        match read_header(&lines[i]) {
            Some(h) => {
                proof {
                    text::lemma_views_push(headers@, h);
                }
                headers.push(h);
            },
            None => {},
        }
        i += 1;
    }
    proof {
        assert(rest.take(i - 1) =~= rest);
        assert(all[0] == lines@[0]@);
    }
    let length: u64 = find_length(&headers);
    FakeRequest { line: lines[0].clone(), headers, length }
}

// ------------------------------------------------------------------ records

/// What is recorded of a header: of a secret only its length.
pub open spec fn recorded_value(h: FakeHeaderView) -> Seq<char> {
    if h.name == "authorization"@ {
        "<redacted "@ + text::decimal(session::byte_len(h.value)) + " chars>"@
    } else {
        h.value
    }
}

/// What is recorded of headers.
pub open spec fn redacted(headers: Seq<FakeHeaderView>) -> Entries
    decreases headers.len(),
{
    if headers.len() == 0 {
        Seq::empty()
    } else {
        json::with_member(
            redacted(headers.drop_last()),
            headers.last().name,
            JsonView::String(recorded_value(headers.last())),
        )
    }
}

/// What is recorded of headers: of a secret only its length.
pub fn redact(headers: &Vec<FakeHeader>) -> (r: JsonObject)
    ensures
        r@ == redacted(text::views(headers@)),
{
    let ghost all = text::views(headers@);
    let mut out = JsonObject::new();
    let mut i: usize = 0;
    assert(all.take(0) =~= Seq::<FakeHeaderView>::empty());
    while i < headers.len()
        invariant
            i <= headers@.len(),
            all == text::views(headers@),
            out@ == redacted(all.take(i as int)),
        decreases headers@.len() - i,
    {
        proof {
            assert(all.take(i as int + 1).drop_last() =~= all.take(i as int));
            assert(all.take(i as int + 1).last() == headers@[i as int]@);
        }
        let h = &headers[i];
        let value = if same_text(&h.name, "authorization") {
            let mut s = "<redacted ".to_string();
            s.append(&text::wide_decimal_text(session::bytes_of(&h.value)));
            s.append(" chars>");
            s
        } else {
            h.value.clone()
        };
        out.insert(h.name.clone(), Json::String(value));
        i += 1;
    }
    assert(all.take(i as int) =~= all);
    out
}

/// `std::str::from_utf8`: whether bytes are valid UTF-8.
#[verifier::external_body]
fn is_utf8(bytes: &Vec<u8>) -> (r: bool)
    ensures
        r == vstd::utf8::valid_utf8(bytes@),
{
    std::str::from_utf8(bytes).is_ok()
}

/// The body of a request as it is recorded: its JSON, or else its text. Bytes that are not valid
/// UTF-8 are no JSON.
pub open spec fn recorded_body(body: Seq<u8>) -> JsonView {
    let s = sse::utf8_text(body);
    if vstd::utf8::valid_utf8(body) && json::parsed(s) is Ok {
        json::parsed(s)->Ok_0
    } else {
        JsonView::String(s)
    }
}

/// What is recorded of a request.
pub open spec fn record_of(index: u64, request: FakeRequestView, body: JsonView) -> JsonView {
    JsonView::Object(
        seq![
            ("index"@, JsonView::Number(NumberView::PosInt(index))),
            ("request"@, JsonView::String(request.line)),
            ("headers"@, JsonView::Object(redacted(request.headers))),
            ("body"@, body),
        ],
    )
}

/// What is recorded of a request, given its body.
pub fn record(index: u64, request: &FakeRequest, body: Json) -> (r: Json)
    ensures
        r@ == record_of(index, request@, body@),
{
    let mut entries: Vec<(String, Json)> = Vec::new();
    let headers = Json::Object(redact(&request.headers));
    entries.push(("index".to_string(), Json::Number(Number::PosInt(index))));
    entries.push(("request".to_string(), Json::String(request.line.clone())));
    entries.push(("headers".to_string(), headers));
    entries.push(("body".to_string(), body));
    let o = JsonObject { entries };
    assert(o@ =~= record_of(index, request@, body@)->Object_0);
    Json::Object(o)
}

/// The body of a request as it is recorded.
pub fn body_value(body: &Vec<u8>) -> (r: Json)
    ensures
        r@ == recorded_body(body@),
{
    let s = decode_lossy(body);
    if !is_utf8(body) {
        return Json::String(s);
    }
    match json::parse(&s) {
        Ok(v) => v,
        Err(_) => Json::String(s),
    }
}

// ------------------------------------------------------------------ responses

/// An event of a scripted stream.
#[derive(Debug)]
pub enum ScriptedEvent {
    /// A chunk.
    Data(Json),
    /// Text as it is.
    Raw(String),
    /// A pause, in milliseconds.
    Sleep(u64),
    /// The end of the stream.
    Done,
}

/// What a [`ScriptedEvent`] stands for.
#[verifier::ext_equal]
pub enum ScriptedEventView {
    Data(JsonView),
    Raw(Seq<char>),
    Sleep(u64),
    Done,
}

impl View for ScriptedEvent {
    type V = ScriptedEventView;

    open spec fn view(&self) -> ScriptedEventView {
        match self {
            ScriptedEvent::Data(a) => ScriptedEventView::Data(a@),
            ScriptedEvent::Raw(a) => ScriptedEventView::Raw(a@),
            ScriptedEvent::Sleep(a) => ScriptedEventView::Sleep(*a),
            ScriptedEvent::Done => ScriptedEventView::Done,
        }
    }
}

impl Clone for ScriptedEvent {
    fn clone(&self) -> (r: ScriptedEvent)
        ensures
            r@ == self@,
    {
        match self {
            ScriptedEvent::Data(a) => ScriptedEvent::Data(a.clone()),
            ScriptedEvent::Raw(a) => ScriptedEvent::Raw(a.clone()),
            ScriptedEvent::Sleep(a) => ScriptedEvent::Sleep(*a),
            ScriptedEvent::Done => ScriptedEvent::Done,
        }
    }
}

/// How a scripted stream ends.
#[derive(Clone, Copy, Debug, PartialEq, Eq, Structural)]
pub enum ResponseEnd {
    /// The connection is closed.
    Close,
    /// The connection stays open until the client goes away.
    Hang,
    /// The connection is reset.
    Reset,
}

/// A scripted response.
#[derive(Debug)]
pub struct ScriptedResponse {
    pub status: u16,
    pub headers: JsonObject,
    /// The body of a response that is no stream.
    pub body: Option<String>,
    pub events: Option<Vec<ScriptedEvent>>,
    pub end: Option<String>,
    /// Milliseconds before the head is sent.
    pub delay_ms: Option<u64>,
}

/// What a [`ScriptedResponse`] stands for.
#[verifier::ext_equal]
pub struct ScriptedResponseView {
    pub status: u16,
    pub headers: Entries,
    pub body: Option<Seq<char>>,
    pub events: Option<Seq<ScriptedEventView>>,
    pub end: Option<Seq<char>>,
    pub delay_ms: Option<u64>,
}

impl View for ScriptedResponse {
    type V = ScriptedResponseView;

    open spec fn view(&self) -> ScriptedResponseView {
        ScriptedResponseView {
            status: self.status,
            headers: self.headers@,
            body: text::opt_view(self.body),
            events: match self.events { Some(v) => Some(text::views(v@)), None => None },
            end: text::opt_view(self.end),
            delay_ms: self.delay_ms,
        }
    }
}

impl Clone for ScriptedResponse {
    fn clone(&self) -> (r: ScriptedResponse)
        ensures
            r@ == self@,
    {
        ScriptedResponse {
            status: self.status,
            headers: self.headers.clone(),
            body: clone_opt_string(&self.body),
            events: match &self.events { Some(v) => Some(clone_all(v)), None => None },
            end: clone_opt_string(&self.end),
            delay_ms: self.delay_ms,
        }
    }
}

/// Responses, served in order.
#[derive(Debug)]
pub struct Script {
    pub responses: Vec<ScriptedResponse>,
}

/// What a [`Script`] stands for.
#[verifier::ext_equal]
pub struct ScriptView {
    pub responses: Seq<ScriptedResponseView>,
}

impl View for Script {
    type V = ScriptView;

    open spec fn view(&self) -> ScriptView {
        ScriptView {
            responses: text::views(self.responses@),
        }
    }
}

impl Clone for Script {
    fn clone(&self) -> (r: Script)
        ensures
            r@ == self@,
    {
        Script {
            responses: clone_all(&self.responses),
        }
    }
}

/// The lines of headers.
pub open spec fn header_lines(headers: Entries) -> Seq<char>
    decreases headers.len(),
{
    if headers.len() == 0 {
        Seq::empty()
    } else {
        header_lines(headers.drop_last()) + headers.last().0 + ": "@ + header_value(
            headers.last().1,
        ) + "\r\n"@
    }
}

/// A value in a header: its text, or else its JSON.
pub open spec fn header_value(v: JsonView) -> Seq<char> {
    match v {
        JsonView::String(s) => s,
        _ => json::compact(v),
    }
}

/// The status line and the headers of a script.
pub open spec fn head_start(r: ScriptedResponseView) -> Seq<char> {
    "HTTP/1.1 "@ + text::decimal(r.status as nat) + " Scripted\r\nconnection: close\r\n"@
        + header_lines(r.headers)
}

/// What ends a head before a plain body.
pub open spec fn plain_end(body: Seq<char>) -> Seq<char> {
    "content-type: application/json\r\ncontent-length: "@ + text::decimal(session::byte_len(body))
        + "\r\n\r\n"@
}

/// What is sent before a stream: the head; or the head and the body of a response that is none.
pub open spec fn response_start(r: ScriptedResponseView) -> Seq<char> {
    match r.events {
        Some(_) => head_start(r)
            + "content-type: text/event-stream\r\ncache-control: no-cache\r\n\r\n"@,
        None => {
            let body = match r.body {
                Some(b) => b,
                None => Seq::empty(),
            };
            head_start(r) + plain_end(body) + body
        },
    }
}

/// What is sent when a script has no more responses.
pub open spec fn exhausted() -> Seq<char> {
    let body = "{\"error\":{\"message\":\"fake upstream script exhausted\"}}"@;
    "HTTP/1.1 500 Internal Server Error\r\ncontent-type: application/json\r\ncontent-length: "@
        + text::decimal(session::byte_len(body)) + "\r\nconnection: close\r\n\r\n"@ + body
}

fn write_headers(headers: &JsonObject) -> (r: String)
    ensures
        r@ == header_lines(headers@),
{
    let ghost all = headers@;
    let mut out = String::new();
    let mut i: usize = 0;
    proof {
        assert(out@ =~= Seq::empty());
        assert(all.take(0) =~= Seq::empty());
    }
    while i < headers.entries.len()
        invariant
            i <= headers.entries@.len(),
            all == headers@,
            out@ == header_lines(all.take(i as int)),
        decreases headers.entries@.len() - i,
    {
        proof {
            assert(all.take(i as int + 1).drop_last() =~= all.take(i as int));
            assert(all.take(i as int + 1).last() == (
                headers.entries@[i as int].0@,
                headers.entries@[i as int].1@,
            ));
        }
        out.append(&headers.entries[i].0);
        out.append(": ");
        match &headers.entries[i].1 {
            Json::String(s) => {
                out.append(s);
            },
            v => {
                out.append(&json::to_text(v));
            },
        }
        out.append("\r\n");
        i += 1;
    }
    assert(all.take(i as int) =~= all);
    out
}

/// What is sent before a stream: the head; or the head and the body of a response that is none.
pub fn start_of(r: &ScriptedResponse) -> (s: String)
    ensures
        s@ == response_start(r@),
{
    let mut out = "HTTP/1.1 ".to_string();
    out.append(&decimal_text(r.status as u64));
    out.append(" Scripted\r\nconnection: close\r\n");
    out.append(&write_headers(&r.headers));
    let ghost head = head_start(r@);
    assert(out@ == head);
    match &r.events {
        Some(_) => {
            out.append("content-type: text/event-stream\r\ncache-control: no-cache\r\n\r\n");
            out
        },
        None => {
            let body = match &r.body {
                Some(b) => b.clone(),
                None => {
                    let none = String::new();
                    assert(none@ =~= Seq::empty());
                    none
                },
            };
            let mut end = "content-type: application/json\r\ncontent-length: ".to_string();
            end.append(&text::wide_decimal_text(session::bytes_of(&body)));
            end.append("\r\n\r\n");
            out.append(&end);
            out.append(&body);
            out
        },
    }
}

/// What is sent when a script has no more responses.
pub fn exhausted_response() -> (s: String)
    ensures
        s@ == exhausted(),
{
    let body = "{\"error\":{\"message\":\"fake upstream script exhausted\"}}";
    let mut out =
        "HTTP/1.1 500 Internal Server Error\r\ncontent-type: application/json\r\ncontent-length: "
        .to_string();
    out.append(&text::wide_decimal_text(session::bytes_of(body)));
    out.append("\r\nconnection: close\r\n\r\n");
    out.append(body);
    out
}

/// What the upstream does for an event.
#[derive(Debug, PartialEq)]
pub enum Frame {
    /// Send this text.
    Send(String),
    /// Wait so many milliseconds.
    Wait(u64),
}

/// What a [`Frame`] stands for.
pub enum FrameView {
    Send(Seq<char>),
    Wait(u64),
}

impl View for Frame {
    type V = FrameView;

    open spec fn view(&self) -> FrameView {
        match self {
            Frame::Send(s) => FrameView::Send(s@),
            Frame::Wait(n) => FrameView::Wait(*n),
        }
    }
}

/// What the upstream does for an event.
pub open spec fn frame_of(e: ScriptedEventView) -> FrameView {
    match e {
        ScriptedEventView::Data(v) => FrameView::Send("data: "@ + json::compact(v) + "\n\n"@),
        ScriptedEventView::Raw(s) => FrameView::Send(s),
        ScriptedEventView::Sleep(n) => FrameView::Wait(n),
        ScriptedEventView::Done => FrameView::Send("data: [DONE]\n\n"@),
    }
}

/// What the upstream does for an event.
pub fn frame(e: &ScriptedEvent) -> (r: Frame)
    ensures
        r@ == frame_of(e@),
{
    match e {
        ScriptedEvent::Data(v) => {
            let mut s = "data: ".to_string();
            s.append(&json::to_text(v));
            s.append("\n\n");
            Frame::Send(s)
        },
        ScriptedEvent::Raw(s) => Frame::Send(s.clone()),
        ScriptedEvent::Sleep(n) => Frame::Wait(*n),
        ScriptedEvent::Done => Frame::Send("data: [DONE]\n\n".to_string()),
    }
}

/// How a stream ends.
pub open spec fn end_of(end: Option<Seq<char>>) -> ResponseEnd {
    if end == Some("hang"@) {
        ResponseEnd::Hang
    } else if end == Some("drop"@) {
        ResponseEnd::Reset
    } else {
        ResponseEnd::Close
    }
}

/// How a stream ends.
pub fn response_end(end: &Option<String>) -> (r: ResponseEnd)
    ensures
        r == end_of(text::opt_view(*end)),
{
    match end {
        Some(s) => if same_text(s, "hang") {
            ResponseEnd::Hang
        } else if same_text(s, "drop") {
            ResponseEnd::Reset
        } else {
            ResponseEnd::Close
        },
        None => ResponseEnd::Close,
    }
}

// ------------------------------------------------------------------ chunks

/// A chunk with a choice.
pub open spec fn chunk_of(choice: Seq<(Seq<char>, JsonView)>) -> JsonView {
    JsonView::Object(
        seq![
            ("id"@, JsonView::String("fake-1"@)),
            ("choices"@, JsonView::Array(seq![JsonView::Object(choice)])),
        ],
    )
}

fn one(v: Json) -> (r: Json)
    ensures
        r@ == JsonView::Array(seq![v@]),
{
    let ghost w = v@;
    let mut items: Vec<Json> = Vec::new();
    items.push(v);
    proof {
        json::lemma_values_view(items);
        assert(text::views(items@) =~= seq![w]);
    }
    Json::Array(items)
}

fn zero() -> (r: Json)
    ensures
        r@ == JsonView::Number(NumberView::PosInt(0)),
{
    Json::Number(Number::PosInt(0))
}

/// A chunk of text.
pub open spec fn text_chunk(content: Seq<char>) -> JsonView {
    chunk_of(
        seq![
            ("index"@, JsonView::Number(NumberView::PosInt(0))),
            ("delta"@, JsonView::Object(seq![("content"@, JsonView::String(content))])),
        ],
    )
}

/// A chunk of text.
pub fn text_event(content: &str) -> (r: ScriptedEvent)
    ensures
        r@ == ScriptedEventView::Data(text_chunk(content@)),
{
    let delta = object_1("content", Json::String(content.to_string()));
    let choice = object_2("index", zero(), "delta", delta);
    ScriptedEvent::Data(
        object_2("id", Json::String("fake-1".to_string()), "choices", one(choice)),
    )
}

/// A chunk with a call.
pub open spec fn call_chunk(index: u64, id: Seq<char>, name: Seq<char>, args: Seq<char>) -> JsonView {
    let function = JsonView::Object(
        seq![("name"@, JsonView::String(name)), ("arguments"@, JsonView::String(args))],
    );
    let call = JsonView::Object(
        seq![
            ("index"@, JsonView::Number(NumberView::PosInt(index))),
            ("id"@, JsonView::String(id)),
            ("type"@, JsonView::String("function"@)),
            ("function"@, function),
        ],
    );
    chunk_of(
        seq![
            ("index"@, JsonView::Number(NumberView::PosInt(0))),
            ("delta"@, JsonView::Object(seq![("tool_calls"@, JsonView::Array(seq![call]))])),
        ],
    )
}

/// A chunk with a call.
pub fn tool_call(index: u64, id: &str, name: &str, args: &str) -> (r: ScriptedEvent)
    ensures
        r@ == ScriptedEventView::Data(call_chunk(index, id@, name@, args@)),
{
    let function = object_2(
        "name",
        Json::String(name.to_string()),
        "arguments",
        Json::String(args.to_string()),
    );
    let ghost f = function@;
    let mut entries: Vec<(String, Json)> = Vec::new();
    entries.push(("index".to_string(), Json::Number(Number::PosInt(index))));
    entries.push(("id".to_string(), Json::String(id.to_string())));
    entries.push(("type".to_string(), Json::String("function".to_string())));
    entries.push(("function".to_string(), function));
    let call = JsonObject { entries };
    assert(call@ =~= seq![
        ("index"@, JsonView::Number(NumberView::PosInt(index))),
        ("id"@, JsonView::String(id@)),
        ("type"@, JsonView::String("function"@)),
        ("function"@, f),
    ]);
    let delta = object_1("tool_calls", one(Json::Object(call)));
    let choice = object_2("index", zero(), "delta", delta);
    ScriptedEvent::Data(
        object_2("id", Json::String("fake-1".to_string()), "choices", one(choice)),
    )
}

/// A chunk that finishes the answer.
pub open spec fn finish_chunk(reason: Seq<char>) -> JsonView {
    chunk_of(
        seq![
            ("index"@, JsonView::Number(NumberView::PosInt(0))),
            ("delta"@, JsonView::Object(Seq::empty())),
            ("finish_reason"@, JsonView::String(reason)),
        ],
    )
}

/// A chunk that finishes the answer.
pub fn finish(reason: &str) -> (r: ScriptedEvent)
    ensures
        r@ == ScriptedEventView::Data(finish_chunk(reason@)),
{
    let choice = object_3(
        "index",
        zero(),
        "delta",
        Json::Object(JsonObject::new()),
        "finish_reason",
        Json::String(reason.to_string()),
    );
    ScriptedEvent::Data(
        object_2("id", Json::String("fake-1".to_string()), "choices", one(choice)),
    )
}

/// A chunk with the usage.
pub open spec fn usage_chunk(prompt: u64, completion: u64) -> JsonView {
    JsonView::Object(
        seq![
            ("id"@, JsonView::String("fake-1"@)),
            ("choices"@, JsonView::Array(Seq::empty())),
            (
                "usage"@,
                JsonView::Object(
                    seq![
                        ("prompt_tokens"@, JsonView::Number(NumberView::PosInt(prompt))),
                        ("completion_tokens"@, JsonView::Number(NumberView::PosInt(completion))),
                        (
                            "total_tokens"@,
                            JsonView::Number(NumberView::PosInt((prompt + completion) as u64)),
                        ),
                    ],
                ),
            ),
        ],
    )
}

/// A chunk with the usage.
pub fn usage(prompt: u64, completion: u64) -> (r: ScriptedEvent)
    requires
        prompt + completion <= u64::MAX,
    ensures
        r@ == ScriptedEventView::Data(usage_chunk(prompt, completion)),
{
    let none: Vec<Json> = Vec::new();
    proof {
        json::lemma_values_view(none);
        assert(text::views(none@) =~= Seq::empty());
    }
    let counts = object_3(
        "prompt_tokens",
        Json::Number(Number::PosInt(prompt)),
        "completion_tokens",
        Json::Number(Number::PosInt(completion)),
        "total_tokens",
        Json::Number(Number::PosInt(prompt + completion)),
    );
    ScriptedEvent::Data(
        object_3(
            "id",
            Json::String("fake-1".to_string()),
            "choices",
            Json::Array(none),
            "usage",
            counts,
        ),
    )
}

// ------------------------------------------------------------------ laws

proof fn lemma_same_record(one: Seq<FakeHeaderView>, two: Seq<FakeHeaderView>)
    requires
        one.len() == two.len(),
        forall|i: int|
            0 <= i < one.len() ==> (#[trigger] one[i]).name == two[i].name && recorded_value(one[i])
                == recorded_value(two[i]),
    ensures
        redacted(one) == redacted(two),
    decreases one.len(),
{
    if one.len() > 0 {
        let a = one.drop_last();
        let b = two.drop_last();
        assert forall|i: int| 0 <= i < a.len() implies (#[trigger] a[i]).name == b[i].name
            && recorded_value(a[i]) == recorded_value(b[i]) by {
            assert(one[i].name == two[i].name);
        }
        lemma_same_record(a, b);
        assert(one[one.len() - 1].name == two[two.len() - 1].name);
    }
}

/// Secrets are not recorded: where two requests differ only in secrets of the same length, their
/// records are the same.
pub proof fn law_secrets_are_not_recorded(one: Seq<FakeHeaderView>, two: Seq<FakeHeaderView>)
    requires
        one.len() == two.len(),
        forall|i: int|
            0 <= i < one.len() ==> (#[trigger] one[i]).name == two[i].name && if one[i].name
                == "authorization"@ {
                session::byte_len(one[i].value) == session::byte_len(two[i].value)
            } else {
                one[i].value == two[i].value
            },
    ensures
        redacted(one) == redacted(two),
{
    lemma_same_record(one, two);
}

} // verus!
