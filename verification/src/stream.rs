//! The byte stream of a seeder link: binary request frames among lines of console text.
//!
//! A request is `M S op header [data] xsum`; everything else is text of the device. The machine here
//! takes one link event at a time and says what it means; reading and writing the link is left to
//! the caller.
use vstd::prelude::*;
use vstd::slice::{slice_subrange, slice_to_vec};
use vstd::string::*;

use crate::bytes::{
    le16_at, le16_bytes, le32_at, le32_bytes, lemma_le32_field, lemma_le32_len, push_bytes, rd_u16,
    rd_u32, window,
};
use crate::seeder::{
    header_len, request_header_len, OP_COUNT, OP_DEFLATE_BLOCK, OP_DESCRIBE, OP_READ, OP_WRITE,
    REQ_MAGIC, RSP_MAGIC, STATUS_OK, WRITE_MAX,
};
use crate::text::{dec, latin1, latin1_text, push_dec};

verus! {

/// The longest line, in bytes of its UTF-8 form, that is kept before it is flushed.
pub const LINE_MAX: usize = 512;

/// What reading the link gave.
#[derive(Clone, Copy, Debug, PartialEq, Eq, Structural)]
pub enum LinkEvent {
    Byte(u8),
    Timeout,
    Closed,
}

/// What an event of the link means.
pub enum PumpEvent {
    /// A request frame has begun; more of it must be read before anything else is done.
    Reading,
    /// A byte was taken and nothing is complete.
    Activity,
    Timeout,
    Closed,
    /// A complete request, to be handled and answered.
    Request(u8, Vec<u8>),
    /// A damaged frame of a known operation, to be ignored.
    Malformed,
    /// A line of device text.
    DeviceLine(String),
}

/// A `PumpEvent` with its byte string and text as sequences.
#[verifier::ext_equal]
pub enum PumpView {
    Reading,
    Activity,
    Timeout,
    Closed,
    Request(u8, Seq<u8>),
    Malformed,
    DeviceLine(Seq<char>),
}

impl View for PumpEvent {
    type V = PumpView;

    open spec fn view(&self) -> PumpView {
        match self {
            PumpEvent::Reading => PumpView::Reading,
            PumpEvent::Activity => PumpView::Activity,
            PumpEvent::Timeout => PumpView::Timeout,
            PumpEvent::Closed => PumpView::Closed,
            PumpEvent::Request(op, args) => PumpView::Request(*op, args@),
            PumpEvent::Malformed => PumpView::Malformed,
            PumpEvent::DeviceLine(line) => PumpView::DeviceLine(line@),
        }
    }
}

/// What the bytes behind a request's magic amount to.
pub enum RequestRead {
    Incomplete,
    Valid(u8, Vec<u8>),
    MalformedKnown,
    Unknown(u8),
}

/// A `RequestRead` with its arguments as a sequence.
#[verifier::ext_equal]
pub enum RequestView {
    Incomplete,
    Valid(u8, Seq<u8>),
    MalformedKnown,
    Unknown(u8),
}

impl View for RequestRead {
    type V = RequestView;

    open spec fn view(&self) -> RequestView {
        match self {
            RequestRead::Incomplete => RequestView::Incomplete,
            RequestRead::Valid(op, args) => RequestView::Valid(*op, args@),
            RequestRead::MalformedKnown => RequestView::MalformedKnown,
            RequestRead::Unknown(op) => RequestView::Unknown(*op),
        }
    }
}

/// The exclusive or of `seed` and all of `bytes`.
pub open spec fn xor_from(seed: u8, bytes: Seq<u8>) -> u8
    decreases bytes.len(),
{
    if bytes.len() == 0 {
        seed
    } else {
        xor_from(seed, bytes.drop_last()) ^ bytes.last()
    }
}

fn xor(bytes: &[u8], seed: u8) -> (r: u8)
    ensures
        r == xor_from(seed, bytes@),
{
    let mut x: u8 = seed;
    let mut i: usize = 0;
    assert(bytes@.take(0) =~= Seq::empty());
    while i < bytes.len()
        invariant
            i <= bytes@.len(),
            x == xor_from(seed, bytes@.take(i as int)),
        decreases bytes@.len() - i,
    {
        assert(bytes@.take(i + 1).drop_last() =~= bytes@.take(i as int));
        x = x ^ bytes[i];
        i += 1;
    }
    assert(bytes@.take(i as int) =~= bytes@);
    x
}

/// The number of data bytes that a request with the given header declares behind it.
pub open spec fn data_len(op: u8, header: Seq<u8>) -> int {
    if op == OP_WRITE {
        le16_at(header, 8) as int
    } else {
        0
    }
}

/// What the bytes behind a request's magic amount to.
pub open spec fn request_read(bytes: Seq<u8>) -> RequestView {
    if bytes.len() == 0 {
        RequestView::Incomplete
    } else {
        let op = bytes[0];
        match header_len(op) {
            None => RequestView::Unknown(op),
            Some(hdr) => if bytes.len() < 1 + hdr {
                RequestView::Incomplete
            } else {
                let data = data_len(op, bytes.skip(1));
                let end = 1 + hdr + data;
                if data > WRITE_MAX {
                    RequestView::MalformedKnown
                } else if bytes.len() <= end {
                    RequestView::Incomplete
                } else if bytes[end] == xor_from(op, bytes.subrange(1, end)) {
                    RequestView::Valid(op, bytes.subrange(1, end))
                } else {
                    RequestView::MalformedKnown
                }
            },
        }
    }
}

/// Reads one request (`op`, fixed header, WRITE data and checksum) from the bytes behind its magic.
pub fn read_request(bytes: &[u8]) -> (r: RequestRead)
    ensures
        r@ == request_read(bytes@),
{
    if bytes.len() == 0 {
        return RequestRead::Incomplete;
    }
    let op: u8 = bytes[0];
    let hdr: usize = match request_header_len(op) {
        None => {
            return RequestRead::Unknown(op);
        },
        Some(hdr) => hdr,
    };
    if bytes.len() < 1 + hdr {
        return RequestRead::Incomplete;
    }
    let data: usize = if op == OP_WRITE {
        assert(bytes@.skip(1)[8] == bytes@[9] && bytes@.skip(1)[9] == bytes@[10]);
        rd_u16(bytes, 9) as usize
    } else {
        0
    };
    assert(data == data_len(op, bytes@.skip(1)));
    if data > WRITE_MAX {
        return RequestRead::MalformedKnown;
    }
    let end: usize = 1 + hdr + data;
    if bytes.len() <= end {
        return RequestRead::Incomplete;
    }
    let args = slice_subrange(bytes, 1, end);
    if bytes[end] == xor(args, op) {
        RequestRead::Valid(op, slice_to_vec(args))
    } else {
        RequestRead::MalformedKnown
    }
}

/// The bytes of a response: magic, operation, status, payload, and the exclusive or of all of them.
pub open spec fn response_bytes(op: u8, status: u8, payload: Seq<u8>) -> Seq<u8> {
    let body = RSP_MAGIC@ + seq![op, status] + payload;
    body.push(xor_from(0, body))
}

/// Frames a response.
pub fn response_frame(op: u8, status: u8, payload: &[u8]) -> (r: Vec<u8>)
    ensures
        r@ == response_bytes(op, status, payload@),
{
    let mut frame: Vec<u8> = Vec::new();
    push_bytes(&mut frame, &RSP_MAGIC);
    frame.push(op);
    frame.push(status);
    push_bytes(&mut frame, payload);
    assert(frame@ =~= RSP_MAGIC@ + seq![op, status] + payload@);
    let x: u8 = xor(frame.as_slice(), 0);
    frame.push(x);
    frame
}

/// The length of a text in UTF-8 when each byte stands for the character with its code point.
pub open spec fn text_width(line: Seq<u8>) -> int
    decreases line.len(),
{
    if line.len() == 0 {
        0
    } else {
        text_width(line.drop_last()) + if line.last() < 0x80 {
            1int
        } else {
            2
        }
    }
}

/// A line without the carriage returns and newlines at its end.
pub open spec fn trim_newlines(line: Seq<u8>) -> Seq<u8>
    decreases line.len(),
{
    if line.len() > 0 && (line.last() == 0x0A || line.last() == 0x0D) {
        trim_newlines(line.drop_last())
    } else {
        line
    }
}

/// The open line after one more byte of text, and the line that the byte completes: on a newline,
/// or where the line grows too long. Empty lines are dropped.
pub open spec fn text_pushed(line: Seq<u8>, b: u8) -> (Seq<u8>, Option<Seq<u8>>) {
    let longer = line.push(b);
    if b != 0x0A && text_width(longer) <= LINE_MAX {
        (longer, None)
    } else if trim_newlines(longer).len() == 0 {
        (Seq::empty(), None)
    } else {
        (Seq::empty(), Some(trim_newlines(longer)))
    }
}

/// The state of a stream.
#[verifier::ext_equal]
pub struct StreamView {
    /// An `M` was read that may begin a request.
    pub pending_m: bool,
    /// A byte that was read and is still to be taken.
    pub deferred: Option<u8>,
    /// The bytes of the open line.
    pub line: Seq<u8>,
    /// The bytes behind the magic of the request that is being read.
    pub request: Option<Seq<u8>>,
}

/// The state of a new stream.
pub open spec fn fresh_stream() -> StreamView {
    StreamView { pending_m: false, deferred: None, line: Seq::empty(), request: None }
}

/// A byte of text or the first byte of a request's magic is taken.
pub open spec fn unframed(s: StreamView, b: u8) -> (StreamView, PumpView) {
    if b == REQ_MAGIC[0] {
        (StreamView { pending_m: true, ..s }, PumpView::Activity)
    } else {
        let (line, emitted) = text_pushed(s.line, b);
        (
            StreamView { line, ..s },
            match emitted {
                Some(text) => PumpView::DeviceLine(latin1(text)),
                None => PumpView::Activity,
            },
        )
    }
}

/// An unknown operation shows that `MS` was text: it joins the line, and the operation byte is taken
/// as any other byte is, so that a request which starts there is still found.
pub open spec fn unknown_request(s: StreamView, op: u8) -> (StreamView, PumpView) {
    let (line_m, emitted_m) = text_pushed(s.line, REQ_MAGIC[0]);
    let (line_ms, emitted_s) = text_pushed(line_m, REQ_MAGIC[1]);
    let emitted = if emitted_m is Some {
        emitted_m
    } else {
        emitted_s
    };
    let s = StreamView { line: line_ms, request: None, ..s };
    match emitted {
        Some(text) => (
            StreamView { deferred: Some(op), ..s },
            PumpView::DeviceLine(latin1(text)),
        ),
        None => unframed(s, op),
    }
}

/// What one event makes of a stream, and what it means.
pub open spec fn next(s: StreamView, ev: LinkEvent) -> (StreamView, PumpView) {
    // A binary frame is a hard boundary: an unterminated fragment of console text before it never
    // becomes a prefix of the text after it.
    let cleared = StreamView { line: Seq::empty(), request: None, ..s };
    match (s.request, ev) {
        (Some(req), LinkEvent::Byte(b)) => match request_read(req.push(b)) {
            RequestView::Incomplete => (
                StreamView { request: Some(req.push(b)), ..s },
                PumpView::Reading,
            ),
            RequestView::Valid(op, args) => (cleared, PumpView::Request(op, args)),
            RequestView::MalformedKnown => (cleared, PumpView::Malformed),
            RequestView::Unknown(op) => unknown_request(s, op),
        },
        (Some(_), _) => (cleared, PumpView::Malformed),
        (None, LinkEvent::Timeout) => (s, PumpView::Timeout),
        (None, LinkEvent::Closed) => (s, PumpView::Closed),
        (None, LinkEvent::Byte(b)) => if !s.pending_m {
            unframed(s, b)
        } else if b == REQ_MAGIC[1] {
            (
                StreamView { pending_m: false, request: Some(Seq::empty()), ..s },
                PumpView::Reading,
            )
        } else {
            let (line, emitted) = text_pushed(s.line, REQ_MAGIC[0]);
            let s = StreamView { pending_m: false, line, ..s };
            match emitted {
                Some(text) => (
                    StreamView { deferred: Some(b), ..s },
                    PumpView::DeviceLine(latin1(text)),
                ),
                None => unframed(s, b),
            }
        },
    }
}

/// The state of a link's byte stream.
pub struct StreamState {
    pending_m: bool,
    deferred: Option<u8>,
    line: Vec<u8>,
    width: usize,
    request: Option<Vec<u8>>,
}

impl View for StreamState {
    type V = StreamView;

    closed spec fn view(&self) -> StreamView {
        StreamView {
            pending_m: self.pending_m,
            deferred: self.deferred,
            line: self.line@,
            request: match self.request {
                Some(req) => Some(req@),
                None => None,
            },
        }
    }
}

/// What holds of every state that a stream reaches: the open line is not too long, and while a
/// request is read nothing else is pending.
pub open spec fn stream_inv(s: StreamView) -> bool {
    &&& text_width(s.line) <= LINE_MAX
    &&& !s.line.contains(0x0A)
    &&& s.request is Some ==> !s.pending_m && s.deferred is None && request_read(s.request->0)
        == RequestView::Incomplete
    &&& s.deferred is Some ==> !s.pending_m
}

impl StreamState {
    /// The state is consistent.
    pub closed spec fn wf(&self) -> bool {
        &&& self.width == text_width(self.line@)
        &&& stream_inv(self@)
    }

    /// A stream at its start.
    pub fn new() -> (r: StreamState)
        ensures
            r.wf(),
            r@ == fresh_stream(),
    {
        let r = StreamState {
            pending_m: false,
            deferred: None,
            line: Vec::new(),
            width: 0,
            request: None,
        };
        assert(r.line@ =~= Seq::empty());
        r
    }

    /// Whether an `M` that may begin a request is pending.
    pub fn pending_m(&self) -> (r: bool)
        ensures
            r == self@.pending_m,
    {
        self.pending_m
    }

    /// Takes the byte that is still to be handled before the link is read again.
    pub fn take_deferred(&mut self) -> (r: Option<u8>)
        requires
            old(self).wf(),
        ensures
            final(self).wf(),
            r == old(self)@.deferred,
            final(self)@ == (StreamView { deferred: None, ..old(self)@ }),
    {
        let r = self.deferred;
        self.deferred = None;
        r
    }

    fn push_text(&mut self, b: u8) -> (r: Option<Vec<u8>>)
        requires
            old(self).wf(),
        ensures
            final(self).wf(),
            ({
                let (line, emitted) = text_pushed(old(self)@.line, b);
                &&& final(self)@ == (StreamView { line, ..old(self)@ })
                &&& match r {
                    Some(text) => emitted == Some(text@),
                    None => emitted is None,
                }
            }),
    {
        let ghost before = self.line@;
        self.line.push(b);
        self.width = self.width + if b < 0x80 {
            1
        } else {
            2
        };
        let ghost longer = self.line@;
        proof {
            assert(longer.drop_last() =~= before);
        }
        if b != 0x0A && self.width <= LINE_MAX {
            proof {
                assert(!longer.contains(0x0A)) by {
                    if longer.contains(0x0A) {
                        let i = choose|i: int| 0 <= i < longer.len() && longer[i] == 0x0A;
                        assert(before[i] == 0x0A);
                    }
                }
            }
            return None;
        }
        let mut end: usize = self.line.len();
        assert(longer.take(end as int) =~= longer);
        while end > 0 && (self.line[end - 1] == 0x0A || self.line[end - 1] == 0x0D)
            invariant
                end <= longer.len(),
                self.line@ == longer,
                trim_newlines(longer) == trim_newlines(longer.take(end as int)),
            decreases end,
        {
            proof {
                let t = longer.take(end as int);
                assert(t.last() == longer[end - 1]);
                assert(t.drop_last() =~= longer.take(end - 1));
            }
            end = end - 1;
        }
        proof {
            let t = longer.take(end as int);
            if end > 0 {
                assert(t.last() == longer[end - 1]);
            }
            assert(trim_newlines(longer) == t);
        }
        let text = slice_to_vec(slice_subrange(self.line.as_slice(), 0, end));
        self.line = Vec::new();
        self.width = 0;
        assert(self.line@ =~= Seq::empty());
        if end == 0 {
            None
        } else {
            Some(text)
        }
    }

    fn accept_unframed(&mut self, b: u8) -> (r: PumpEvent)
        requires
            old(self).wf(),
            old(self)@.request is None,
            old(self)@.deferred is None,
            !old(self)@.pending_m,
        ensures
            final(self).wf(),
            (final(self)@, r@) == unframed(old(self)@, b),
    {
        if b == REQ_MAGIC[0] {
            self.pending_m = true;
            PumpEvent::Activity
        } else {
            match self.push_text(b) {
                Some(text) => PumpEvent::DeviceLine(latin1_text(text.as_slice())),
                None => PumpEvent::Activity,
            }
        }
    }

    fn accept_unknown(&mut self, op: u8) -> (r: PumpEvent)
        requires
            old(self).wf(),
            old(self)@.request is None,
            old(self)@.deferred is None,
            !old(self)@.pending_m,
        ensures
            final(self).wf(),
            (final(self)@, r@) == unknown_request(old(self)@, op),
    {
        let emitted_m = self.push_text(REQ_MAGIC[0]);
        let emitted_s = self.push_text(REQ_MAGIC[1]);
        let emitted = match emitted_m {
            Some(text) => Some(text),
            None => emitted_s,
        };
        match emitted {
            Some(text) => {
                self.deferred = Some(op);
                PumpEvent::DeviceLine(latin1_text(text.as_slice()))
            },
            None => self.accept_unframed(op),
        }
    }

    fn clear(&mut self)
        requires
            old(self)@.request is None,
            !old(self)@.pending_m,
            old(self)@.deferred is None,
        ensures
            final(self).wf(),
            final(self)@ == fresh_stream(),
    {
        self.line = Vec::new();
        self.width = 0;
        assert(self.line@ =~= Seq::empty());
    }

    /// Takes one event of the link. Text and binary frames share the wire, so that requests are
    /// found among lines of the device's console.
    pub fn pump(&mut self, ev: LinkEvent) -> (r: PumpEvent)
        requires
            old(self).wf(),
            old(self)@.deferred is None,
        ensures
            final(self).wf(),
            (final(self)@, r@) == next(old(self)@, ev),
            r matches PumpEvent::Request(op, args) ==> is_request(op, args@),
    {
        match self.request.take() {
            Some(mut req) => {
                let b: u8 = match ev {
                    LinkEvent::Byte(b) => b,
                    _ => {
                        self.clear();
                        return PumpEvent::Malformed;
                    },
                };
                req.push(b);
                match read_request(req.as_slice()) {
                    RequestRead::Incomplete => {
                        self.request = Some(req);
                        PumpEvent::Reading
                    },
                    RequestRead::Valid(op, args) => {
                        proof {
                            law_valid_requests_only(req@);
                        }
                        self.clear();
                        PumpEvent::Request(op, args)
                    },
                    RequestRead::MalformedKnown => {
                        self.clear();
                        PumpEvent::Malformed
                    },
                    RequestRead::Unknown(op) => self.accept_unknown(op),
                }
            },
            None => match ev {
                LinkEvent::Timeout => PumpEvent::Timeout,
                LinkEvent::Closed => PumpEvent::Closed,
                LinkEvent::Byte(b) => {
                    if !self.pending_m {
                        return self.accept_unframed(b);
                    }
                    self.pending_m = false;
                    if b == REQ_MAGIC[1] {
                        self.request = Some(Vec::new());
                        assert(self.request->0@ =~= Seq::empty());
                        return PumpEvent::Reading;
                    }
                    match self.push_text(REQ_MAGIC[0]) {
                        Some(text) => {
                            self.deferred = Some(b);
                            PumpEvent::DeviceLine(latin1_text(text.as_slice()))
                        },
                        None => self.accept_unframed(b),
                    }
                },
            },
        }
    }
}

/// The line that logs an answered request. Storage requests are not logged.
pub open spec fn log_line(op: u8, args: Seq<u8>, status: u8, payload: Seq<u8>) -> Option<Seq<char>> {
    let ok = if status == STATUS_OK {
        "OK"@
    } else {
        "ERR"@
    };
    if op == OP_COUNT {
        Some(
            "COUNT -> "@ + dec(
                if payload.len() > 0 {
                    payload[0] as int
                } else {
                    0
                },
            ),
        )
    } else if op == OP_DESCRIBE {
        Some("DESCRIBE "@ + dec(args[0] as int) + " "@ + ok)
    } else if op == OP_READ {
        Some("READ "@ + dec(args[0] as int) + " @"@ + dec(le32_at(args, 1) as int) + " "@ + ok)
    } else if op == OP_DEFLATE_BLOCK {
        Some(
            "DEFLATE "@ + dec(args[0] as int) + " block="@ + dec(le16_at(args, 1) as int) + " @"@
                + dec(le16_at(args, 3) as int) + " "@ + ok,
        )
    } else {
        None
    }
}

/// Writes the log line of an answered request.
pub fn request_log(op: u8, args: &[u8], status: u8, payload: &[u8]) -> (r: Option<String>)
    requires
        header_len(op) is Some ==> args@.len() >= header_len(op)->0,
    ensures
        match r {
            Some(line) => log_line(op, args@, status, payload@) == Some(line@),
            None => log_line(op, args@, status, payload@) is None,
        },
{
    let ok = if status == STATUS_OK {
        "OK"
    } else {
        "ERR"
    };
    if op == OP_COUNT {
        let mut s = String::from_str("COUNT -> ");
        push_dec(
            &mut s,
            if payload.len() > 0 {
                payload[0] as u64
            } else {
                0
            },
        );
        Some(s)
    } else if op == OP_DESCRIBE {
        let mut s = String::from_str("DESCRIBE ");
        push_dec(&mut s, args[0] as u64);
        s.append(" ");
        s.append(ok);
        Some(s)
    } else if op == OP_READ {
        let mut s = String::from_str("READ ");
        push_dec(&mut s, args[0] as u64);
        s.append(" @");
        push_dec(&mut s, rd_u32(args, 1) as u64);
        s.append(" ");
        s.append(ok);
        Some(s)
    } else if op == OP_DEFLATE_BLOCK {
        let mut s = String::from_str("DEFLATE ");
        push_dec(&mut s, args[0] as u64);
        s.append(" block=");
        push_dec(&mut s, rd_u16(args, 1) as u64);
        s.append(" @");
        push_dec(&mut s, rd_u16(args, 3) as u64);
        s.append(" ");
        s.append(ok);
        Some(s)
    } else {
        None
    }
}

/// Whether a request has the arguments that its operation takes.
pub open spec fn is_request(op: u8, args: Seq<u8>) -> bool {
    header_len(op) matches Some(hdr) && hdr <= args.len() && data_len(op, args) <= WRITE_MAX
        && args.len() == hdr + data_len(op, args)
}

/// The bytes of a request behind its magic.
pub open spec fn request_bytes(op: u8, args: Seq<u8>) -> Seq<u8> {
    (seq![op] + args).push(xor_from(op, args))
}

/// The state of a stream and what each byte meant, after the given bytes.
pub open spec fn run(s: StreamView, bytes: Seq<u8>) -> (StreamView, Seq<PumpView>)
    decreases bytes.len(),
{
    if bytes.len() == 0 {
        (s, Seq::empty())
    } else {
        let (before, events) = run(s, bytes.drop_last());
        let (after, event) = next(before, LinkEvent::Byte(bytes.last()));
        (after, events.push(event))
    }
}

/// A request's bytes are recognised when they are complete, and not before.
pub proof fn law_request_reads_back(op: u8, args: Seq<u8>, k: int)
    requires
        is_request(op, args),
        0 <= k < request_bytes(op, args).len(),
    ensures
        request_read(request_bytes(op, args)) == RequestView::Valid(op, args),
        request_read(request_bytes(op, args).take(k)) == RequestView::Incomplete,
{
    let bytes = request_bytes(op, args);
    let hdr = header_len(op)->0;
    let end = 1 + hdr + data_len(op, args);
    assert(bytes.subrange(1, end) =~= args);
    assert(op == OP_WRITE ==> bytes.skip(1)[8] == args[8] && bytes.skip(1)[9] == args[9]);
    let part = bytes.take(k);
    if k >= 1 + hdr {
        assert(op == OP_WRITE ==> part.skip(1)[8] == args[8] && part.skip(1)[9] == args[9]);
    }
}

/// What is recognised as a request is one: its arguments are those that its operation takes, and the
/// bytes are the ones that the request is sent as.
pub proof fn law_valid_requests_only(bytes: Seq<u8>)
    ensures
        request_read(bytes) matches RequestView::Valid(op, args) ==> is_request(op, args)
            && request_bytes(op, args).is_prefix_of(bytes),
{
    if let RequestView::Valid(op, args) = request_read(bytes) {
        let end = 1 + header_len(op)->0 + data_len(op, bytes.skip(1));
        assert(op == OP_WRITE ==> bytes.skip(1)[8] == args[8] && bytes.skip(1)[9] == args[9]);
        assert(bytes.take(end + 1) =~= request_bytes(op, args));
    }
}

proof fn lemma_run_request(s: StreamView, op: u8, args: Seq<u8>, k: int)
    requires
        is_request(op, args),
        s.request == Some(Seq::<u8>::empty()),
        0 <= k < request_bytes(op, args).len(),
    ensures
        ({
            let bytes = request_bytes(op, args).take(k);
            let (after, events) = run(s, bytes);
            &&& after == (StreamView { request: Some(bytes), ..s })
            &&& events.len() == k
            &&& forall|i: int| 0 <= i < k ==> #[trigger] events[i] == PumpView::Reading
        }),
    decreases k,
{
    let all = request_bytes(op, args);
    let bytes = all.take(k);
    if k == 0 {
        assert(bytes =~= Seq::empty());
    } else {
        lemma_run_request(s, op, args, k - 1);
        assert(bytes.drop_last() =~= all.take(k - 1));
        assert(all.take(k - 1).push(bytes.last()) =~= bytes);
        law_request_reads_back(op, args, k);
    }
}

proof fn lemma_run_append(s: StreamView, a: Seq<u8>, b: Seq<u8>)
    ensures
        run(s, a + b).0 == run(run(s, a).0, b).0,
        run(s, a + b).1 == run(s, a).1 + run(run(s, a).0, b).1,
    decreases b.len(),
{
    if b.len() == 0 {
        assert(a + b =~= a);
        assert(run(s, a).1 + Seq::<PumpView>::empty() =~= run(s, a).1);
    } else {
        assert((a + b).drop_last() =~= a + b.drop_last());
        assert((a + b).last() == b.last());
        lemma_run_append(s, a, b.drop_last());
        let (before, events) = run(run(s, a).0, b.drop_last());
        let event = next(before, LinkEvent::Byte(b.last())).1;
        assert((run(s, a).1 + events).push(event) =~= run(s, a).1 + events.push(event));
    }
}

/// A request that is sent is received: from any state in which none is under way, the magic and the
/// request's bytes give that request at the last byte and nothing before it, and leave the stream as
/// new.
pub proof fn law_request_is_received(s: StreamView, op: u8, args: Seq<u8>)
    requires
        is_request(op, args),
        s.request is None,
        s.deferred is None,
        !s.pending_m,
    ensures
        ({
            let (after, events) = run(s, REQ_MAGIC@ + request_bytes(op, args));
            &&& after == fresh_stream()
            &&& events.len() == request_bytes(op, args).len() + 2
            &&& events.last() == PumpView::Request(op, args)
            &&& forall|i: int|
                0 <= i < events.len() - 1 ==> #[trigger] events[i] == PumpView::Activity || events[i]
                    == PumpView::Reading
        }),
{
    let frame = request_bytes(op, args);
    let magic = REQ_MAGIC@;
    let s1 = StreamView { pending_m: true, ..s };
    let s2 = StreamView { pending_m: false, request: Some(Seq::empty()), ..s };
    assert(magic.drop_last() =~= seq![0x4Du8]);
    assert(seq![0x4Du8].drop_last() =~= Seq::empty());
    assert(run(s, Seq::empty()) == (s, Seq::<PumpView>::empty()));
    assert(run(s, seq![0x4Du8]) == (s1, Seq::<PumpView>::empty().push(PumpView::Activity)));
    assert(run(s, magic).0 == s2);
    let head = run(s, magic).1;
    assert(head =~= seq![PumpView::Activity, PumpView::Reading]);
    lemma_run_append(s, magic, frame);
    let n = frame.len() - 1;
    lemma_run_request(s2, op, args, n);
    law_request_reads_back(op, args, n);
    assert(frame.drop_last() =~= frame.take(n));
    assert(frame.take(n).push(frame.last()) =~= frame);
    let (after, events) = run(s, magic + frame);
    let tail = run(s2, frame).1;
    assert(events =~= head + tail);
    assert(tail =~= run(s2, frame.take(n)).1.push(PumpView::Request(op, args)));
    assert forall|i: int| 0 <= i < events.len() - 1 implies #[trigger] events[i]
        == PumpView::Activity || events[i] == PumpView::Reading by {
        if i >= 2 {
            assert(events[i] == tail[i - 2]);
            assert(tail[i - 2] == run(s2, frame.take(n)).1[i - 2]);
        } else {
            assert(events[i] == head[i]);
        }
    }
    assert(after =~= fresh_stream());
}

/// A response checks out: the exclusive or of all its bytes is zero.
pub proof fn law_response_checksum(op: u8, status: u8, payload: Seq<u8>)
    ensures
        xor_from(0, response_bytes(op, status, payload)) == 0,
        response_bytes(op, status, payload).len() == payload.len() + 5,
{
    let body = RSP_MAGIC@ + seq![op, status] + payload;
    let x = xor_from(0, body);
    assert(response_bytes(op, status, payload).drop_last() =~= body);
    assert(x ^ x == 0) by (bit_vector);
}

/// The lines that bytes of plain text complete, and the line that they leave open.
pub open spec fn plain_text(line: Seq<u8>, bytes: Seq<u8>) -> (Seq<u8>, Seq<Seq<char>>)
    decreases bytes.len(),
{
    if bytes.len() == 0 {
        (line, Seq::empty())
    } else {
        let (before, lines) = plain_text(line, bytes.drop_last());
        let (after, emitted) = text_pushed(before, bytes.last());
        (
            after,
            match emitted {
                Some(text) => lines.push(latin1(text)),
                None => lines,
            },
        )
    }
}

/// The bytes that a stream has taken but not yet put into its line.
pub open spec fn held_back(s: StreamView) -> Seq<u8> {
    if s.request is Some {
        REQ_MAGIC@ + s.request->0
    } else if s.pending_m {
        seq![REQ_MAGIC[0]]
    } else if s.deferred is Some {
        seq![s.deferred->0]
    } else {
        Seq::empty()
    }
}

/// The line that an event delivers, as a sequence of at most one.
pub open spec fn delivered(event: PumpView) -> Seq<Seq<char>> {
    match event {
        PumpView::DeviceLine(text) => seq![text],
        _ => Seq::empty(),
    }
}

proof fn lemma_plain_one(line: Seq<u8>, b: u8)
    ensures
        plain_text(line, seq![b]).0 == text_pushed(line, b).0,
        plain_text(line, seq![b]).1 =~= match text_pushed(line, b).1 {
            Some(text) => seq![latin1(text)],
            None => Seq::empty(),
        },
{
    assert(seq![b].drop_last() =~= Seq::empty());
    assert(plain_text(line, Seq::empty()) == (line, Seq::<Seq<char>>::empty()));
}

proof fn lemma_plain_append(line: Seq<u8>, a: Seq<u8>, b: Seq<u8>)
    ensures
        plain_text(line, a + b).0 == plain_text(plain_text(line, a).0, b).0,
        plain_text(line, a + b).1 == plain_text(line, a).1 + plain_text(
            plain_text(line, a).0,
            b,
        ).1,
    decreases b.len(),
{
    if b.len() == 0 {
        assert(a + b =~= a);
        assert(plain_text(line, a).1 + Seq::<Seq<char>>::empty() =~= plain_text(line, a).1);
    } else {
        assert((a + b).drop_last() =~= a + b.drop_last());
        assert((a + b).last() == b.last());
        lemma_plain_append(line, a, b.drop_last());
        let (before, lines) = plain_text(plain_text(line, a).0, b.drop_last());
        match text_pushed(before, b.last()).1 {
            Some(text) => {
                assert((plain_text(line, a).1 + lines).push(latin1(text)) =~= plain_text(
                    line,
                    a,
                ).1 + lines.push(latin1(text)));
            },
            None => {},
        }
    }
}

/// Console text passes through: while no request of a known operation is read, each byte keeps the
/// lines delivered and the bytes held back together what plain text would give. Nothing is lost,
/// doubled or reordered, whatever looks like a request's magic on the way.
pub proof fn law_text_passes_through(s: StreamView, b: u8)
    requires
        stream_inv(s),
        s.deferred is None,
        s.request is Some ==> s.request->0.len() == 0 && header_len(b) is None,
    ensures
        ({
            let (after, event) = next(s, LinkEvent::Byte(b));
            let want = plain_text(s.line, held_back(s).push(b));
            let rest = plain_text(after.line, held_back(after));
            &&& rest.0 == want.0
            &&& delivered(event) + rest.1 == want.1
        }),
{
    let (after, event) = next(s, LinkEvent::Byte(b));
    let held = held_back(s);
    let want = plain_text(s.line, held.push(b));
    let m = REQ_MAGIC[0];
    let sep = REQ_MAGIC[1];
    assert(plain_text(after.line, Seq::empty()) == (after.line, Seq::<Seq<char>>::empty()));
    assert(plain_text(s.line, Seq::empty()) == (s.line, Seq::<Seq<char>>::empty()));
    if s.request is Some {
        assert(s.request->0 =~= Seq::empty());
        assert(s.request->0.push(b)[0] == b);
        let (line_m, emitted_m) = text_pushed(s.line, m);
        let (line_ms, emitted_s) = text_pushed(line_m, sep);
        assert(held.push(b) =~= seq![m] + (seq![sep] + seq![b]));
        lemma_plain_append(s.line, seq![m], seq![sep] + seq![b]);
        lemma_plain_append(line_m, seq![sep], seq![b]);
        lemma_plain_one(s.line, m);
        lemma_plain_one(line_m, sep);
        lemma_plain_one(line_ms, b);
        if emitted_m is Some {
            assert(line_m =~= Seq::empty());
            assert(line_m.push(sep).drop_last() =~= Seq::empty());
            assert(text_width(Seq::<u8>::empty()) == 0);
            assert(line_m.push(sep).last() == sep);
            assert(text_width(line_m.push(sep)) == 1);
            assert(emitted_s is None);
        }
        if b == m {
            lemma_plain_one(line_ms, m);
        }
    } else if s.pending_m {
        let (line_m, emitted_m) = text_pushed(s.line, m);
        if b == sep {
            assert(held_back(after) =~= held.push(b));
        } else {
            assert(held.push(b) =~= seq![m] + seq![b]);
            lemma_plain_append(s.line, seq![m], seq![b]);
            lemma_plain_one(s.line, m);
            lemma_plain_one(line_m, b);
        }
    } else {
        assert(held.push(b) =~= seq![b]);
        lemma_plain_one(s.line, b);
    }
    let rest = plain_text(after.line, held_back(after));
    assert(delivered(event) + rest.1 =~= want.1);
}

/// Every event keeps the stream's invariant.
pub proof fn law_stream_invariant(s: StreamView, ev: LinkEvent)
    requires
        stream_inv(s),
        s.deferred is None,
    ensures
        stream_inv(next(s, ev).0),
{
    if let LinkEvent::Byte(b) = ev {
        lemma_pushed_line(s.line, b);
        lemma_pushed_line(s.line, REQ_MAGIC[0]);
        let line_m = text_pushed(s.line, REQ_MAGIC[0]).0;
        lemma_pushed_line(line_m, b);
        lemma_pushed_line(line_m, REQ_MAGIC[1]);
        let line_ms = text_pushed(line_m, REQ_MAGIC[1]).0;
        if s.request is Some {
            let op = s.request->0.push(b)[0];
            lemma_pushed_line(line_ms, op);
        }
    }
    assert(text_width(Seq::<u8>::empty()) == 0);
}

proof fn lemma_pushed_line(line: Seq<u8>, b: u8)
    requires
        text_width(line) <= LINE_MAX,
        !line.contains(0x0A),
    ensures
        text_width(text_pushed(line, b).0) <= LINE_MAX,
        !text_pushed(line, b).0.contains(0x0A),
{
    let longer = line.push(b);
    if b != 0x0A && longer.contains(0x0A) {
        let i = choose|i: int| 0 <= i < longer.len() && longer[i] == 0x0A;
        assert(line[i] == 0x0A);
    }
}

/// The most bytes that a request takes behind its magic: operation, header, data and checksum.
pub const FRAME_MAX: usize = 268;

/// Whether a stream is inside the frame of a known operation.
pub open spec fn in_frame(s: StreamView) -> bool {
    stream_inv(s) && s.request is Some && s.request->0.len() > 0
}

/// What the events of a link come to first: the first that completes anything, and the state that it
/// leaves. Nothing where more of a request is to be read after all of them.
pub open spec fn first_outcome(s: StreamView, events: Seq<LinkEvent>) -> Option<
    (StreamView, PumpView),
>
    decreases events.len(),
{
    if events.len() == 0 {
        None
    } else {
        let (after, event) = next(s, events[0]);
        if event == PumpView::Reading {
            first_outcome(after, events.skip(1))
        } else {
            Some((after, event))
        }
    }
}

proof fn lemma_frame_step(s: StreamView, ev: LinkEvent)
    requires
        in_frame(s),
    ensures
        s.request->0.len() < FRAME_MAX,
        ({
            let (after, event) = next(s, ev);
            ||| event == PumpView::Reading && in_frame(after) && after.request->0.len()
                == s.request->0.len() + 1
            ||| (event is Request || event is Malformed) && after == fresh_stream()
        }),
{
    let req = s.request->0;
    let op = req[0];
    if let LinkEvent::Byte(b) = ev {
        let longer = req.push(b);
        assert(longer[0] == op);
    }
    let (after, event) = next(s, ev);
    if event is Request || event is Malformed {
        assert(after =~= fresh_stream());
    }
}

/// A frame of a known operation, once begun, ends as a request or as damage: nothing else comes of
/// any events that follow, and as many as the longest frame has bytes are enough. The stream is then
/// as new.
pub proof fn law_begun_frame_ends(s: StreamView, events: Seq<LinkEvent>)
    requires
        in_frame(s),
    ensures
        first_outcome(s, events) matches Some((after, event)) ==> (event is Request
            || event is Malformed) && after == fresh_stream(),
        events.len() >= FRAME_MAX - s.request->0.len() ==> first_outcome(s, events) is Some,
    decreases events.len(),
{
    if events.len() > 0 {
        lemma_frame_step(s, events[0]);
        let (after, event) = next(s, events[0]);
        if event == PumpView::Reading {
            lemma_frame_step(after, events[0]);
            law_begun_frame_ends(after, events.skip(1));
        }
    } else {
        lemma_frame_step(s, LinkEvent::Timeout);
    }
}

/// How long each request's header is: COUNT none, DESCRIBE 1 byte, READ and DEFLATE_BLOCK 7, STAT and
/// FIN 4, BEGIN 8, WRITE and storage reads 10. Only WRITE declares data behind it, in the last two
/// bytes of its header, and at most 256 bytes.
pub proof fn law_request_shapes(op: u8, args: Seq<u8>)
    ensures
        is_request(op, args) <==> {
            ||| op == 1 && args.len() == 0
            ||| op == 2 && args.len() == 1
            ||| (op == 3 || op == 9) && args.len() == 7
            ||| (op == 4 || op == 8) && args.len() == 4
            ||| op == 5 && args.len() == 8
            ||| op == 7 && args.len() == 10
            ||| op == 6 && args.len() >= 10 && args.len() == 10 + args[8] + 0x100 * args[9]
                && args.len() <= 266
        },
        header_len(op) is Some <==> 1 <= op <= 9,
{
}

/// A request that is damaged is never taken for one: where the last byte is not the exclusive or of
/// those before it, the frame counts as damage, and so does a WRITE that declares more than 256 bytes.
pub proof fn law_damaged_request(op: u8, args: Seq<u8>, sum: u8, rest: Seq<u8>)
    requires
        1 <= op <= 9,
    ensures
        is_request(op, args) && sum != xor_from(op, args) ==> request_read((seq![op] + args).push(sum))
            == RequestView::MalformedKnown,
        op == 6 && args.len() == 10 && args[8] + 0x100 * args[9] > 256 ==> request_read(
            seq![op] + args + rest,
        ) == RequestView::MalformedKnown,
{
    if is_request(op, args) {
        let bytes = (seq![op] + args).push(sum);
        let hdr = header_len(op)->0;
        let end = 1 + hdr + data_len(op, args);
        assert(bytes.subrange(1, end) =~= args);
        assert(op == OP_WRITE ==> bytes.skip(1)[8] == args[8] && bytes.skip(1)[9] == args[9]);
    }
    if op == 6 && args.len() == 10 {
        let bytes = seq![op] + args + rest;
        assert(bytes.skip(1)[8] == args[8] && bytes.skip(1)[9] == args[9]);
    }
}

/// The exclusive or of bytes is taken byte by byte, in any order that starts with the seed, and one
/// changed byte changes it.
pub proof fn law_xor_sees_every_byte(seed: u8, bytes: Seq<u8>, i: int, b: u8)
    requires
        0 <= i < bytes.len(),
    ensures
        xor_from(seed, bytes.update(i, b)) == xor_from(seed, bytes) ^ bytes[i] ^ b,
        b != bytes[i] ==> xor_from(seed, bytes.update(i, b)) != xor_from(seed, bytes),
        xor_from(seed, Seq::empty()) == seed,
    decreases bytes.len(),
{
    let changed = bytes.update(i, b);
    let old_byte = bytes[i];
    let x = xor_from(seed, bytes.drop_last());
    let last = bytes.last();
    if i == bytes.len() - 1 {
        assert(changed.drop_last() =~= bytes.drop_last());
        assert(x ^ b == (x ^ old_byte) ^ old_byte ^ b) by (bit_vector);
    } else {
        law_xor_sees_every_byte(seed, bytes.drop_last(), i, b);
        assert(changed.drop_last() =~= bytes.drop_last().update(i, b));
        assert((x ^ old_byte ^ b) ^ last == (x ^ last) ^ old_byte ^ b) by (bit_vector);
    }
    let y = xor_from(seed, bytes);
    assert(b != old_byte ==> y ^ old_byte ^ b != y) by (bit_vector);
}

/// A response is `SM`, the operation, the status, the payload and one checksum byte, in this order.
pub proof fn law_response_form(op: u8, status: u8, payload: Seq<u8>)
    ensures
        ({
            let r = response_bytes(op, status, payload);
            &&& r.len() == payload.len() + 5
            &&& r[0] == 0x53 && r[1] == 0x4D && r[2] == op && r[3] == status
            &&& r.subrange(4, r.len() - 1) == payload
            &&& xor_from(0, r.take(r.len() - 1)) == r.last()
        }),
{
    let r = response_bytes(op, status, payload);
    assert(r.subrange(4, r.len() - 1) =~= payload);
    assert(r.take(r.len() - 1) =~= RSP_MAGIC@ + seq![op, status] + payload);
}

/// A frame that breaks off is damage: a timeout or the end of the link inside one ends it, and the
/// stream is as new. Outside a frame they change nothing.
pub proof fn law_broken_frame(s: StreamView)
    ensures
        s.request is Some && !s.pending_m && s.deferred is None ==> next(s, LinkEvent::Timeout) == (
            fresh_stream(),
            PumpView::Malformed,
        ) && next(s, LinkEvent::Closed) == (fresh_stream(), PumpView::Malformed),
        s.request is None ==> next(s, LinkEvent::Timeout) == (s, PumpView::Timeout) && next(
            s,
            LinkEvent::Closed,
        ) == (s, PumpView::Closed),
{
    if s.request is Some && !s.pending_m && s.deferred is None {
        assert(next(s, LinkEvent::Timeout).0 =~= fresh_stream());
    }
}

/// A line of text is delivered when it ends: a newline gives the line before it, without carriage
/// returns at its end and without the newline, character for byte. A line without any text gives
/// nothing. Until then a line of at most 512 bytes in UTF-8 is kept, and a longer one is given as it
/// is.
pub proof fn law_line_is_delivered(line: Seq<u8>, text: Seq<u8>, crs: Seq<u8>, b: u8)
    requires
        line == text + crs,
        forall|i: int| 0 <= i < crs.len() ==> crs[i] == 0x0D,
        text.len() > 0 ==> text.last() != 0x0D && text.last() != 0x0A,
    ensures
        text_pushed(line, 0x0A) == if text.len() > 0 {
            (Seq::<u8>::empty(), Some(text))
        } else {
            (Seq::<u8>::empty(), None)
        },
        b != 0x0A && text_width(line.push(b)) <= 512 ==> text_pushed(line, b) == (line.push(b), None::<
            Seq<u8>,
        >),
        text_width(line.push(b)) > 512 ==> text_pushed(line, b).0.len() == 0,
        text_width(line.push(b)) > 512 && b != 0x0A && b != 0x0D ==> text_pushed(line, b) == (
            Seq::<u8>::empty(),
            Some(line.push(b)),
        ),
{
    let longer = line.push(0x0A);
    assert(longer.drop_last() =~= line);
    lemma_trimmed(text, crs);
    assert(trim_newlines(longer) == text);
}

proof fn lemma_trimmed(text: Seq<u8>, crs: Seq<u8>)
    requires
        forall|i: int| 0 <= i < crs.len() ==> crs[i] == 0x0D,
        text.len() > 0 ==> text.last() != 0x0D && text.last() != 0x0A,
    ensures
        trim_newlines(text + crs) == text,
    decreases crs.len(),
{
    let whole = text + crs;
    if crs.len() == 0 {
        assert(whole =~= text);
    } else {
        let fewer = crs.drop_last();
        assert forall|i: int| 0 <= i < fewer.len() implies fewer[i] == 0x0D by {
            assert(crs[i] == fewer[i]);
        }
        assert(crs[crs.len() - 1] == 0x0D);
        assert(whole.last() == crs.last());
        assert(whole.drop_last() =~= text + fewer);
        lemma_trimmed(text, fewer);
    }
}

/// The width of a line counts one for each ASCII byte and two for each other.
pub proof fn law_text_width(line: Seq<u8>, b: u8)
    ensures
        text_width(Seq::empty()) == 0,
        text_width(line.push(b)) == text_width(line) + if b <= 0x7F {
            1int
        } else {
            2
        },
{
    assert(line.push(b).drop_last() =~= line);
}

/// A request's magic is found wherever it begins: behind any text, behind another `M`, and behind an
/// `MS` that turned out to be text, `M` may begin a request and the `S` after it does, as long as the
/// open line has room for what is held back.
pub proof fn law_magic_is_found(s: StreamView)
    requires
        stream_inv(s),
        s.deferred is None,
        s.request is Some ==> s.request->0.len() == 0,
        text_width(s.line) <= 509,
    ensures
        ({
            let (after_m, _) = next(s, LinkEvent::Byte(0x4D));
            let (after_s, event) = next(after_m, LinkEvent::Byte(0x53));
            &&& after_m.pending_m && after_m.request is None && after_m.deferred is None
            &&& after_s.request == Some(Seq::<u8>::empty()) && !after_s.pending_m
                && after_s.deferred is None
            &&& event == PumpView::Reading
            &&& after_s.line == after_m.line
        }),
{
    law_text_width(s.line, 0x4D);
    law_text_width(s.line.push(0x4D), 0x53);
    let text = s.line.push(0x4D);
    assert(text_pushed(s.line, 0x4D) == (text, None::<Seq<u8>>));
    assert(text_pushed(text, 0x53) == (text.push(0x53), None::<Seq<u8>>));
    if s.request is Some {
        assert(s.request->0.push(0x4D)[0] == 0x4D);
    }
}

/// What is logged of an answered request: COUNT with the number it told, DESCRIBE, READ and DEFLATE
/// with the container, the place and whether it was answered, and storage requests not at all.
pub proof fn law_log_lines(i: u8, off: u32, len: u16, block: u16, at: u16, status: u8, payload: Seq<u8>)
    ensures
        ({
            let ok = if status == 0 {
                "OK"@
            } else {
                "ERR"@
            };
            &&& payload.len() > 0 ==> log_line(1, Seq::empty(), status, payload) == Some(
                "COUNT -> "@ + dec(payload[0] as int),
            )
            &&& log_line(2, seq![i], status, payload) == Some(
                "DESCRIBE "@ + dec(i as int) + " "@ + ok,
            )
            &&& log_line(
                3,
                seq![i] + le32_bytes(off) + le16_bytes(len),
                status,
                payload,
            ) == Some("READ "@ + dec(i as int) + " @"@ + dec(off as int) + " "@ + ok)
            &&& log_line(
                9,
                seq![i] + le16_bytes(block) + le16_bytes(at) + le16_bytes(len),
                status,
                payload,
            ) == Some(
                "DEFLATE "@ + dec(i as int) + " block="@ + dec(block as int) + " @"@ + dec(
                    at as int,
                ) + " "@ + ok,
            )
            &&& forall|op: u8, args: Seq<u8>|
                4 <= op <= 8 ==> (#[trigger] log_line(op, args, status, payload)) is None
        }),
{
    let read = seq![i] + le32_bytes(off) + le16_bytes(len);
    assert(window(read, 1, 4) =~= le32_bytes(off)) by {
        lemma_le32_len(off);
    }
    lemma_le32_len(off);
    lemma_le32_field(read, 1, off);
    let deflate = seq![i] + le16_bytes(block) + le16_bytes(at) + le16_bytes(len);
    assert(le16_at(deflate, 1) == block && le16_at(deflate, 3) == at);
}

} // verus!
