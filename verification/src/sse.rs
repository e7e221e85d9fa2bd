//! Incremental decoder of server-sent events.
use crate::text;
use crate::text::{clone_opt_string, same_text, to_chars};
use vstd::prelude::*;

verus! {

/// One dispatched event.
#[derive(Debug, PartialEq)]
pub struct SseEvent {
    pub event: Option<String>,
    pub data: String,
}

/// What a [`SseEvent`] stands for.
#[verifier::ext_equal]
pub struct SseEventView {
    pub event: Option<Seq<char>>,
    pub data: Seq<char>,
}

impl View for SseEvent {
    type V = SseEventView;

    open spec fn view(&self) -> SseEventView {
        SseEventView {
            event: text::opt_view(self.event),
            data: self.data@,
        }
    }
}

impl Clone for SseEvent {
    fn clone(&self) -> (r: SseEvent)
        ensures
            r@ == self@,
    {
        SseEvent {
            event: clone_opt_string(&self.event),
            data: self.data.clone(),
        }
    }
}

/// What `String::from_utf8_lossy` makes of bytes that are not valid UTF-8.
pub uninterp spec fn lossy(bytes: Seq<u8>) -> Seq<char>;

/// The text of bytes: the decoded text where they are valid UTF-8.
pub open spec fn utf8_text(bytes: Seq<u8>) -> Seq<char> {
    if vstd::utf8::valid_utf8(bytes) {
        vstd::utf8::decode_utf8(bytes)
    } else {
        lossy(bytes)
    }
}

/// `String::from_utf8_lossy`: of valid UTF-8 the decoded text, else what is named [`lossy`]. What
/// stands for an invalid part is not stated.
#[verifier::external_body]
pub(crate) fn decode_lossy(bytes: &Vec<u8>) -> (r: String)
    ensures
        vstd::utf8::valid_utf8(bytes@) ==> r@ == vstd::utf8::decode_utf8(bytes@),
        !vstd::utf8::valid_utf8(bytes@) ==> r@ == lossy(bytes@),
{
    String::from_utf8_lossy(bytes).into_owned()
}

/// Feeds raw bytes and yields complete events. Lines end with `\\n`, `\\r\\n` or `\\r`; a `data`
/// field may have several lines; comments are skipped; a chunk may end inside a line or inside
/// a character.
pub struct SseDecoder {
    buf: Vec<u8>,
    event: Option<String>,
    data: Vec<String>,
}

/// What a decoder holds.
#[verifier::ext_equal]
pub struct SseDecoderView {
    /// Bytes of a line that is not complete.
    pub buf: Seq<u8>,
    /// The event name so far.
    pub event: Option<Seq<char>>,
    /// The data lines so far.
    pub data: Seq<Seq<char>>,
}

impl View for SseDecoder {
    type V = SseDecoderView;

    closed spec fn view(&self) -> SseDecoderView {
        SseDecoderView {
            buf: self.buf@,
            event: text::opt_view(self.event),
            data: text::views(self.data@),
        }
    }
}

// ------------------------------------------------------------------ lines

/// Ends the event: it comes out where it has data.
pub open spec fn dispatched(d: SseDecoderView) -> (SseDecoderView, Option<SseEventView>) {
    let rest = SseDecoderView { event: None, data: Seq::empty(), ..d };
    if d.data.len() == 0 {
        (rest, None)
    } else {
        (rest, Some(SseEventView { event: d.event, data: text::join(d.data, "\n"@) }))
    }
}

/// The name of the field of a line: what stands before the first colon.
pub open spec fn field_name(line: Seq<char>) -> Seq<char> {
    match text::find_char(line, ':', 0) {
        Some(i) => line.take(i),
        None => line,
    }
}

/// The value of the field of a line: what stands behind the first colon and one space.
pub open spec fn field_value(line: Seq<char>) -> Seq<char> {
    match text::find_char(line, ':', 0) {
        Some(i) => if i + 1 < line.len() && line[i + 1] == ' ' {
            line.skip(i + 2)
        } else {
            line.skip(i + 1)
        },
        None => Seq::empty(),
    }
}

/// What one line does. A line that starts with a colon is a comment, for its field has no name.
pub open spec fn lined(d: SseDecoderView, line: Seq<char>) -> (SseDecoderView, Option<
    SseEventView,
>) {
    if line.len() == 0 {
        dispatched(d)
    } else if line[0] == ':' {
        (d, None)
    } else if field_name(line) == "data"@ {
        (SseDecoderView { data: d.data.push(field_value(line)), ..d }, None)
    } else if field_name(line) == "event"@ {
        (SseDecoderView { event: Some(field_value(line)), ..d }, None)
    } else {
        (d, None)
    }
}

// ------------------------------------------------------------------ bytes

/// The byte that ends a line.
pub open spec fn is_line_end(b: u8) -> bool {
    b == 10 || b == 13
}

/// The index of the first line end at or after `from`, or the length.
pub open spec fn line_end(buf: Seq<u8>, from: int) -> int
    decreases buf.len() - from,
{
    if from < 0 || from >= buf.len() {
        buf.len() as int
    } else if is_line_end(buf[from]) {
        from
    } else {
        line_end(buf, from + 1)
    }
}

/// Where the next line starts, if the first line is complete: a carriage return at the very end
/// may be the first half of a line end.
pub open spec fn next_line(buf: Seq<u8>) -> Option<int> {
    let p = line_end(buf, 0);
    if p >= buf.len() || (buf[p] == 13 && p + 1 == buf.len()) {
        None
    } else if buf[p] == 13 && buf[p + 1] == 10 {
        Some(p + 2)
    } else {
        Some(p + 1)
    }
}

/// Takes the complete lines from the buffer, one after the other.
pub open spec fn drained(d: SseDecoderView) -> (SseDecoderView, Seq<SseEventView>)
    decreases d.buf.len(),
{
    match next_line(d.buf) {
        None => (d, Seq::empty()),
        Some(n) => {
            let line = utf8_text(d.buf.take(line_end(d.buf, 0)));
            let (e, event) = lined(SseDecoderView { buf: d.buf.skip(n), ..d }, line);
            proof {
                lemma_line_end(d.buf, 0);
            }
            let (rest, events) = drained(e);
            (rest, first(event) + events)
        },
    }
}

/// The event as a sequence of at most one.
pub open spec fn first(event: Option<SseEventView>) -> Seq<SseEventView> {
    match event {
        Some(e) => seq![e],
        None => Seq::empty(),
    }
}

/// What a chunk of bytes does.
pub open spec fn fed(d: SseDecoderView, bytes: Seq<u8>) -> (SseDecoderView, Seq<SseEventView>) {
    drained(SseDecoderView { buf: d.buf + bytes, ..d })
}

/// The text without the carriage returns at its end.
pub open spec fn without_returns(s: Seq<char>) -> Seq<char>
    decreases s.len(),
{
    if s.len() > 0 && s.last() == '\r' {
        without_returns(s.drop_last())
    } else {
        s
    }
}

/// What the end of the stream does.
pub open spec fn finished(d: SseDecoderView) -> (SseDecoderView, Option<SseEventView>) {
    if d.buf.len() > 0 {
        let (e, event) = lined(
            SseDecoderView { buf: Seq::empty(), ..d },
            without_returns(utf8_text(d.buf)),
        );
        if event is Some {
            (e, event)
        } else {
            dispatched(e)
        }
    } else {
        dispatched(d)
    }
}

// ------------------------------------------------------------------ laws

/// The first line end: nothing before it ends a line.
pub proof fn lemma_line_end(buf: Seq<u8>, from: int)
    requires
        0 <= from <= buf.len(),
    ensures
        from <= line_end(buf, from) <= buf.len(),
        forall|i: int| from <= i < line_end(buf, from) ==> !is_line_end(#[trigger] buf[i]),
        line_end(buf, from) < buf.len() ==> is_line_end(buf[line_end(buf, from)]),
    decreases buf.len() - from,
{
    if from < buf.len() && !is_line_end(buf[from]) {
        lemma_line_end(buf, from + 1);
    }
}

proof fn lemma_line_end_append(a: Seq<u8>, b: Seq<u8>, from: int)
    requires
        0 <= from,
        line_end(a, from) < a.len(),
    ensures
        line_end(a + b, from) == line_end(a, from),
    decreases a.len() - from,
{
    if from < a.len() && !is_line_end(a[from]) {
        lemma_line_end_append(a, b, from + 1);
    }
}

/// How a stream is cut into chunks does not matter: two chunks give the events of their
/// concatenation, and leave the decoder in the same state.
pub proof fn law_chunks_may_be_cut_anywhere(d: SseDecoderView, a: Seq<u8>, b: Seq<u8>)
    ensures
        fed(d, a + b).0 == fed(fed(d, a).0, b).0,
        fed(d, a + b).1 == fed(d, a).1 + fed(fed(d, a).0, b).1,
{
    assert(d.buf + (a + b) =~= (d.buf + a) + b);
    lemma_drained_append(SseDecoderView { buf: d.buf + a, ..d }, b);
}

proof fn lemma_drained_append(d: SseDecoderView, b: Seq<u8>)
    ensures
        ({
            let whole = drained(SseDecoderView { buf: d.buf + b, ..d });
            let head = drained(d);
            let tail = drained(SseDecoderView { buf: head.0.buf + b, ..head.0 });
            whole.0 == tail.0 && whole.1 == head.1 + tail.1
        }),
    decreases d.buf.len(),
{
    let whole = SseDecoderView { buf: d.buf + b, ..d };
    match next_line(d.buf) {
        None => {
            assert(drained(d).1 + drained(whole).1 =~= drained(whole).1);
        },
        Some(n) => {
            let p = line_end(d.buf, 0);
            lemma_line_end(d.buf, 0);
            lemma_line_end_append(d.buf, b, 0);
            assert(next_line(whole.buf) == Some(n));
            assert(whole.buf.take(p) =~= d.buf.take(p));
            assert(whole.buf.skip(n) =~= d.buf.skip(n) + b);
            let line = utf8_text(d.buf.take(p));
            let (e, event) = lined(SseDecoderView { buf: d.buf.skip(n), ..d }, line);
            let (f, event_2) = lined(SseDecoderView { buf: whole.buf.skip(n), ..whole }, line);
            assert(event == event_2 && e.event == f.event && e.data == f.data);
            lemma_drained_append(e, b);
            assert(f =~= SseDecoderView { buf: e.buf + b, ..e });
            let head = drained(e);
            let tail = drained(SseDecoderView { buf: head.0.buf + b, ..head.0 });
            assert(first(event) + (head.1 + tail.1) =~= (first(event) + head.1) + tail.1);
        },
    }
}

// ------------------------------------------------------------------ the decoder

/// A copy of the bytes from `from` up to `to`.
fn bytes_between(v: &Vec<u8>, from: usize, to: usize) -> (r: Vec<u8>)
    requires
        from <= to <= v@.len(),
    ensures
        r@ == v@.subrange(from as int, to as int),
{
    let mut out: Vec<u8> = Vec::new();
    let mut i: usize = from;
    while i < to
        invariant
            from <= i <= to <= v@.len(),
            out@ == v@.subrange(from as int, i as int),
        decreases to - i,
    {
        out.push(v[i]);
        i += 1;
    }
    out
}

impl SseDecoder {
    /// A decoder that has seen nothing.
    pub fn new() -> (r: SseDecoder)
        ensures
            r@ == (SseDecoderView { buf: Seq::empty(), event: None, data: Seq::empty() }),
    {
        let r = SseDecoder { buf: Vec::new(), event: None, data: Vec::new() };
        assert(r@.data =~= Seq::empty());
        r
    }

    /// Takes a chunk of bytes and returns the events that it completes.
    pub fn feed(&mut self, bytes: &[u8]) -> (r: Vec<SseEvent>)
        ensures
            final(self)@ == fed(old(self)@, bytes@).0,
            text::views(r@) == fed(old(self)@, bytes@).1,
    {
        let ghost start = self@;
        let mut k: usize = 0;
        assert(start.buf + bytes@.take(0) =~= start.buf);
        while k < bytes.len()
            invariant
                k <= bytes@.len(),
                self@ == (SseDecoderView { buf: start.buf + bytes@.take(k as int), ..start }),
            decreases bytes@.len() - k,
        {
            assert(start.buf + bytes@.take(k as int + 1) =~= (start.buf + bytes@.take(
                k as int,
            )).push(bytes@[k as int]));
            self.buf.push(bytes[k]);
            k += 1;
        }
        assert(bytes@.take(bytes@.len() as int) =~= bytes@);
        let ghost all = self@;
        let mut out: Vec<SseEvent> = Vec::new();
        assert(text::views(out@) =~= Seq::empty());
        assert(drained(all).1 =~= text::views(out@) + drained(all).1);
        loop
            invariant
                drained(all).0 == drained(self@).0,
                drained(all).1 == text::views(out@) + drained(self@).1,
            ensures
                drained(all).0 == self@,
                drained(all).1 == text::views(out@),
            decreases self@.buf.len(),
        {
            let ghost before = self@;
            let pos: usize = self.find_line_end();
            proof {
                lemma_line_end(before.buf, 0);
            }
            if pos >= self.buf.len() || (self.buf[pos] == 13 && pos + 1 == self.buf.len()) {
                assert(text::views(out@) + drained(self@).1 =~= text::views(out@));
                break;
            }
            let line_bytes = bytes_between(&self.buf, 0, pos);
            assert(line_bytes@ =~= before.buf.take(pos as int));
            let line = decode_lossy(&line_bytes);
            let next: usize = if self.buf[pos] == 13 && self.buf[pos + 1] == 10 {
                pos + 2
            } else {
                pos + 1
            };
            self.buf = bytes_between(&self.buf, next, self.buf.len());
            assert(self.buf@ =~= before.buf.skip(next as int));
            let ghost sofar = text::views(out@);
            match self.line(line.as_str()) {
                Some(event) => {
                    proof {
                        text::lemma_views_push(out@, event);
                    }
                    let ghost tail = drained(self@).1;
                    out.push(event);
                    assert(sofar + (seq![event@] + tail) =~= sofar.push(event@) + tail);
                },
                None => {
                    let ghost tail = drained(self@).1;
                    assert(Seq::<SseEventView>::empty() + tail =~= tail);
                },
            }
        }
        out
    }

    fn find_line_end(&self) -> (r: usize)
        ensures
            r == line_end(self@.buf, 0),
            r <= self.buf@.len(),
    {
        let mut i: usize = 0;
        while i < self.buf.len()
            invariant
                i <= self.buf@.len(),
                line_end(self@.buf, 0) == line_end(self@.buf, i as int),
            decreases self.buf@.len() - i,
        {
            if self.buf[i] == 10 || self.buf[i] == 13 {
                return i;
            }
            i += 1;
        }
        i
    }

    /// Dispatches what is buffered at the end of the stream.
    pub fn finish(&mut self) -> (r: Option<SseEvent>)
        ensures
            final(self)@ == finished(old(self)@).0,
            text::opt_view(r) == finished(old(self)@).1,
    {
        if self.buf.len() > 0 {
            let decoded = decode_lossy(&self.buf);
            self.buf = Vec::new();
            let mut v = to_chars(decoded.as_str());
            while v.len() > 0 && v[v.len() - 1] == '\r'
                invariant
                    without_returns(v@) == without_returns(decoded@),
                decreases v@.len(),
            {
                v.pop();
            }
            let line = text::from_chars(&v);
            let event = self.line(line.as_str());
            if event.is_some() {
                return event;
            }
        }
        self.dispatch()
    }

    fn line(&mut self, line: &str) -> (r: Option<SseEvent>)
        ensures
            final(self)@ == lined(old(self)@, line@).0,
            text::opt_view(r) == lined(old(self)@, line@).1,
    {
        let v = to_chars(line);
        if v.len() == 0 {
            return self.dispatch();
        }
        if v[0] == ':' {
            return None;
        }
        let mut i: usize = 0;
        while i < v.len() && v[i] != ':'
            invariant
                i <= v@.len(),
                text::find_char(v@, ':', 0) == text::find_char(v@, ':', i as int),
            decreases v@.len() - i,
        {
            i += 1;
        }
        let field = text::slice_string(&v, 0, i);
        let value = if i >= v.len() {
            String::new()
        } else if i + 1 < v.len() && v[i + 1] == ' ' {
            text::slice_string(&v, i + 2, v.len())
        } else {
            text::slice_string(&v, i + 1, v.len())
        };
        assert(field@ =~= field_name(line@));
        assert(value@ =~= field_value(line@));
        if same_text(field.as_str(), "data") {
            proof {
                text::lemma_views_push(self.data@, value);
            }
            self.data.push(value);
        } else if same_text(field.as_str(), "event") {
            self.event = Some(value);
        }
        None
    }

    fn dispatch(&mut self) -> (r: Option<SseEvent>)
        ensures
            final(self)@ == dispatched(old(self)@).0,
            text::opt_view(r) == dispatched(old(self)@).1,
    {
        if self.data.len() == 0 {
            self.event = None;
            assert(self@.data =~= Seq::empty());
            return None;
        }
        let data = text::join_strings(&self.data, "\n");
        self.data = Vec::new();
        assert(self@.data =~= Seq::empty());
        let event = self.event.take();
        Some(SseEvent { event, data })
    }
}

} // verus!
