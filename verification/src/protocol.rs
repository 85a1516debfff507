//! The messages between a client and the daemon, and the frames they travel in.
//!
//! A frame is the length of its payload, four bytes with the most significant
//! first, followed by the payload.
use crate::json::{json, opt_text, Json};
use crate::text::{decimal, decimal_text, joined3};
use vstd::prelude::*;
use vstd::string::StringExecFns;

verus! {

/// What a client asks of the daemon.
#[derive(Debug)]
pub enum ClientMsg {
    /// Send a command to Chrome and return its response.
    Cdp { id: u64, method: String, params: serde_json::Value, session_id: Option<String> },
    /// Take a page, a warm one where there is one.
    Acquire { id: u64 },
    /// Close a page.
    Release { id: u64, target_id: String },
    /// Add warm pages to the pool.
    Warmup { id: u64, count: usize, url: String },
    /// Tell how the daemon is doing.
    Status { id: u64 },
}

/// A [`ClientMsg`] with texts and JSON values in place of what holds them.
pub enum ClientMsgView {
    Cdp { id: u64, method: Seq<char>, params: Json, session_id: Option<Seq<char>> },
    Acquire { id: u64 },
    Release { id: u64, target_id: Seq<char> },
    Warmup { id: u64, count: usize, url: Seq<char> },
    Status { id: u64 },
}

impl View for ClientMsg {
    type V = ClientMsgView;

    open spec fn view(&self) -> ClientMsgView {
        match *self {
            ClientMsg::Cdp { id, method, params, session_id } => ClientMsgView::Cdp {
                id,
                method: method@,
                params: json(params),
                session_id: opt_text(session_id),
            },
            ClientMsg::Acquire { id } => ClientMsgView::Acquire { id },
            ClientMsg::Release { id, target_id } => ClientMsgView::Release {
                id,
                target_id: target_id@,
            },
            ClientMsg::Warmup { id, count, url } => ClientMsgView::Warmup { id, count, url: url@ },
            ClientMsg::Status { id } => ClientMsgView::Status { id },
        }
    }
}

impl ClientMsgView {
    /// The number of the request.
    pub open spec fn id(self) -> u64 {
        match self {
            ClientMsgView::Cdp { id, .. } => id,
            ClientMsgView::Acquire { id } => id,
            ClientMsgView::Release { id, .. } => id,
            ClientMsgView::Warmup { id, .. } => id,
            ClientMsgView::Status { id } => id,
        }
    }
}

impl ClientMsg {
    /// The number of the request.
    pub fn id(&self) -> (r: u64)
        ensures
            r == self@.id(),
    {
        match self {
            ClientMsg::Cdp { id, .. } => *id,
            ClientMsg::Acquire { id } => *id,
            ClientMsg::Release { id, .. } => *id,
            ClientMsg::Warmup { id, .. } => *id,
            ClientMsg::Status { id } => *id,
        }
    }
}

/// The number of pages that a [`ClientMsg::Warmup`] without one asks for.
pub fn default_warmup_count() -> (r: usize)
    ensures
        r == 4,
{
    4
}

/// The address that the pages of a [`ClientMsg::Warmup`] without one show.
pub fn default_warmup_url() -> (r: String)
    ensures
        r@ == "about:blank"@,
{
    "about:blank".to_owned()
}

/// What the daemon tells a client.
#[derive(Debug)]
#[allow(inconsistent_fields)]
pub enum DaemonMsg {
    /// Chrome's response to a command.
    CdpResponse { id: u64, payload: serde_json::Value },
    /// An event from Chrome.
    CdpEvent { method: String, params: serde_json::Value, session_id: Option<String> },
    /// A page has been taken.
    Acquired { id: u64, target_id: String, session_id: String },
    /// A page has been closed.
    Released { id: u64 },
    /// This many warm pages have been added.
    WarmupDone { id: u64, count: usize },
    /// How the daemon is doing.
    StatusResponse {
        id: u64,
        pool_available: usize,
        active_sessions: usize,
        chrome_pid: u32,
        uptime_secs: u64,
    },
    /// A request could not be served.
    Error { id: u64, message: String },
}

/// A [`DaemonMsg`] with texts and JSON values in place of what holds them.
#[allow(inconsistent_fields)]
pub enum DaemonMsgView {
    CdpResponse { id: u64, payload: Json },
    CdpEvent { method: Seq<char>, params: Json, session_id: Option<Seq<char>> },
    Acquired { id: u64, target_id: Seq<char>, session_id: Seq<char> },
    Released { id: u64 },
    WarmupDone { id: u64, count: usize },
    StatusResponse {
        id: u64,
        pool_available: usize,
        active_sessions: usize,
        chrome_pid: u32,
        uptime_secs: u64,
    },
    Error { id: u64, message: Seq<char> },
}

impl View for DaemonMsg {
    type V = DaemonMsgView;

    open spec fn view(&self) -> DaemonMsgView {
        match *self {
            DaemonMsg::CdpResponse { id, payload } => DaemonMsgView::CdpResponse {
                id,
                payload: json(payload),
            },
            DaemonMsg::CdpEvent { method, params, session_id } => DaemonMsgView::CdpEvent {
                method: method@,
                params: json(params),
                session_id: opt_text(session_id),
            },
            DaemonMsg::Acquired { id, target_id, session_id } => DaemonMsgView::Acquired {
                id,
                target_id: target_id@,
                session_id: session_id@,
            },
            DaemonMsg::Released { id } => DaemonMsgView::Released { id },
            DaemonMsg::WarmupDone { id, count } => DaemonMsgView::WarmupDone { id, count },
            DaemonMsg::StatusResponse {
                id,
                pool_available,
                active_sessions,
                chrome_pid,
                uptime_secs,
            } => DaemonMsgView::StatusResponse {
                id,
                pool_available,
                active_sessions,
                chrome_pid,
                uptime_secs,
            },
            DaemonMsg::Error { id, message } => DaemonMsgView::Error { id, message: message@ },
        }
    }
}

impl Clone for DaemonMsg {
    fn clone(&self) -> (r: Self)
        ensures
            r@ == self@,
    {
        match self {
            DaemonMsg::CdpResponse { id, payload } => DaemonMsg::CdpResponse {
                id: *id,
                payload: payload.clone(),
            },
            DaemonMsg::CdpEvent { method, params, session_id } => DaemonMsg::CdpEvent {
                method: method.clone(),
                params: params.clone(),
                session_id: match session_id {
                    Some(s) => Some(s.clone()),
                    None => None,
                },
            },
            DaemonMsg::Acquired { id, target_id, session_id } => DaemonMsg::Acquired {
                id: *id,
                target_id: target_id.clone(),
                session_id: session_id.clone(),
            },
            DaemonMsg::Released { id } => DaemonMsg::Released { id: *id },
            DaemonMsg::WarmupDone { id, count } => DaemonMsg::WarmupDone { id: *id, count: *count },
            DaemonMsg::StatusResponse {
                id,
                pool_available,
                active_sessions,
                chrome_pid,
                uptime_secs,
            } => DaemonMsg::StatusResponse {
                id: *id,
                pool_available: *pool_available,
                active_sessions: *active_sessions,
                chrome_pid: *chrome_pid,
                uptime_secs: *uptime_secs,
            },
            DaemonMsg::Error { id, message } => DaemonMsg::Error {
                id: *id,
                message: message.clone(),
            },
        }
    }
}

impl DaemonMsgView {
    /// The request that the message answers; an event answers none.
    pub open spec fn answers(self) -> Option<u64> {
        match self {
            DaemonMsgView::CdpResponse { id, .. } => Some(id),
            DaemonMsgView::CdpEvent { .. } => None,
            DaemonMsgView::Acquired { id, .. } => Some(id),
            DaemonMsgView::Released { id } => Some(id),
            DaemonMsgView::WarmupDone { id, .. } => Some(id),
            DaemonMsgView::StatusResponse { id, .. } => Some(id),
            DaemonMsgView::Error { id, .. } => Some(id),
        }
    }
}

/// The longest payload that a reader accepts.
pub const MAX_FRAME_SIZE: usize = 64 * 1024 * 1024;

/// The length prefix for a payload of `n` bytes, modulo 2^32.
pub open spec fn length_prefix(n: nat) -> Seq<u8> {
    seq![
        (n / 0x100_0000 % 0x100) as u8,
        (n / 0x1_0000 % 0x100) as u8,
        (n / 0x100 % 0x100) as u8,
        (n % 0x100) as u8,
    ]
}

/// The length that a prefix announces.
pub open spec fn announced(prefix: Seq<u8>) -> nat {
    (prefix[0] as nat) * 0x100_0000 + (prefix[1] as nat) * 0x1_0000 + (prefix[2] as nat) * 0x100 + (
    prefix[3] as nat)
}

/// The frame that carries `payload`.
pub open spec fn frame(payload: Seq<u8>) -> Seq<u8> {
    length_prefix(payload.len()) + payload
}

/// The frame that carries `payload`. The length prefix holds the length of the
/// payload modulo 2^32.
pub fn write_frame(payload: &[u8]) -> (r: Vec<u8>)
    ensures
        r@ == frame(payload@),
{
    let len: u64 = payload.len() as u64;
    let mut r: Vec<u8> = Vec::new();
    r.push((len / 0x100_0000 % 0x100) as u8);
    r.push((len / 0x1_0000 % 0x100) as u8);
    r.push((len / 0x100 % 0x100) as u8);
    r.push((len % 0x100) as u8);
    r.extend_from_slice(payload);
    assert(r@ =~= frame(payload@));
    r
}

/// Why no frame could be read.
#[derive(Debug)]
pub enum FrameError {
    /// The prefix announces more than [`MAX_FRAME_SIZE`] bytes.
    TooLarge { len: usize },
    /// The stream ended inside a frame.
    Truncated,
    /// Reading the stream failed.
    Io(String),
}

impl FrameError {
    /// The text that the error is reported with.
    pub open spec fn text(self) -> Seq<char> {
        match self {
            FrameError::TooLarge { len } => "frame too large: "@ + decimal(len as nat)
                + " bytes (max "@ + decimal(MAX_FRAME_SIZE as nat) + ")"@,
            FrameError::Truncated => "early eof"@,
            FrameError::Io(e) => e@,
        }
    }

    /// The text that the error is reported with.
    pub fn message(&self) -> (r: String)
        ensures
            r@ == self.text(),
    {
        match self {
            FrameError::TooLarge { len } => {
                let mut r = joined3(
                    "frame too large: ",
                    decimal_text(*len as u64).as_str(),
                    " bytes (max ",
                );
                r.append(decimal_text(MAX_FRAME_SIZE as u64).as_str());
                r.append(")");
                r
            },
            FrameError::Truncated => "early eof".to_owned(),
            FrameError::Io(e) => e.clone(),
        }
    }
}

/// What came of an attempt to read a number of bytes.
pub enum Chunk {
    /// All of the bytes.
    Full(Vec<u8>),
    /// The stream ended before the last of them, after this many.
    Eof { read: usize },
    /// The stream could not be read.
    Failed(String),
}

/// Reads one frame after another from a stream, a chunk at a time.
pub enum FrameReader {
    /// The length prefix is read next.
    Prefix,
    /// The payload, of this many bytes, is read next.
    Payload(usize),
}

/// What a finished read gave: a payload, or nothing at the end of the stream.
pub type FrameResult = Result<Option<Vec<u8>>, FrameError>;

impl FrameReader {
    /// The bytes that are read next.
    pub open spec fn wants(self) -> nat {
        match self {
            FrameReader::Prefix => 4,
            FrameReader::Payload(len) => len as nat,
        }
    }

    /// A reader at the start of a frame.
    pub fn new() -> (r: Self)
        ensures
            r == FrameReader::Prefix,
    {
        FrameReader::Prefix
    }

    /// How many bytes are to be read next.
    pub fn wanted(&self) -> (n: usize)
        ensures
            n == self.wants(),
    {
        match self {
            FrameReader::Prefix => 4,
            FrameReader::Payload(len) => *len,
        }
    }

    /// Takes what came of reading the bytes that are wanted, and gives the result of
    /// the read once there is one; the reader is then at the start of a frame.
    pub fn advance(&mut self, got: Chunk) -> (r: Option<FrameResult>)
        requires
            got matches Chunk::Full(b) ==> b@.len() == old(self).wants(),
            got matches Chunk::Eof { read } ==> read < old(self).wants(),
        ensures
            r is Some ==> *final(self) == FrameReader::Prefix,
            match (*old(self), got) {
                (FrameReader::Prefix, Chunk::Full(b)) => if announced(b@) > MAX_FRAME_SIZE {
                    r matches Some(Err(FrameError::TooLarge { len })) && len == announced(b@)
                } else {
                    r is None && *final(self) == FrameReader::Payload(announced(b@) as usize)
                },
                (FrameReader::Prefix, Chunk::Eof { read }) => r == if read == 0 {
                    Some::<FrameResult>(Ok(None))
                } else {
                    Some::<FrameResult>(Err(FrameError::Truncated))
                },
                (FrameReader::Payload(_), Chunk::Full(b)) => r == Some::<FrameResult>(Ok(Some(b))),
                (FrameReader::Payload(_), Chunk::Eof { .. }) => r == Some::<FrameResult>(
                    Err(FrameError::Truncated),
                ),
                (_, Chunk::Failed(e)) => r == Some::<FrameResult>(Err(FrameError::Io(e))),
            },
    {
        match self {
            FrameReader::Prefix => match got {
                Chunk::Full(b) => {
                    let len: u32 = (b[0] as u32) * 0x100_0000 + (b[1] as u32) * 0x1_0000 + (
                    b[2] as u32) * 0x100 + (b[3] as u32);
                    if len as usize > MAX_FRAME_SIZE {
                        Some(Err(FrameError::TooLarge { len: len as usize }))
                    } else {
                        *self = FrameReader::Payload(len as usize);
                        None
                    }
                },
                Chunk::Eof { read } => if read == 0 {
                    Some(Ok(None))
                } else {
                    Some(Err(FrameError::Truncated))
                },
                Chunk::Failed(e) => Some(Err(FrameError::Io(e))),
            },
            FrameReader::Payload(_) => {
                *self = FrameReader::Prefix;
                match got {
                    Chunk::Full(b) => Some(Ok(Some(b))),
                    Chunk::Eof { .. } => Some(Err(FrameError::Truncated)),
                    Chunk::Failed(e) => Some(Err(FrameError::Io(e))),
                }
            },
        }
    }
}

/// Bytes in memory that are read from front to back.
pub struct ByteSource {
    bytes: Vec<u8>,
    pos: usize,
}

impl View for ByteSource {
    type V = Seq<u8>;

    /// The bytes that have not been read.
    closed spec fn view(&self) -> Seq<u8> {
        self.bytes@.skip(self.pos as int)
    }
}

impl ByteSource {
    #[verifier::type_invariant]
    spec fn within(self) -> bool {
        self.pos <= self.bytes@.len()
    }

    /// A source of the given bytes.
    pub fn new(bytes: Vec<u8>) -> (r: Self)
        ensures
            r@ == bytes@,
    {
        let r = ByteSource { bytes, pos: 0 };
        assert(r@ =~= bytes@);
        r
    }

    /// Reads `n` bytes. Where fewer are left, they are lost.
    pub fn take(&mut self, n: usize) -> (r: Chunk)
        ensures
            if n <= old(self)@.len() {
                &&& r matches Chunk::Full(b)
                &&& b@ == old(self)@.take(n as int)
                &&& final(self)@ == old(self)@.skip(n as int)
            } else {
                r matches Chunk::Eof { read } && read == old(self)@.len() && final(self)@ == Seq::<
                    u8,
                >::empty()
            },
    {
        proof {
            use_type_invariant(&*self);
        }
        if n <= self.bytes.len() - self.pos {
            let start: usize = self.pos;
            let end: usize = self.pos + n;
            let b = vstd::slice::slice_to_vec(
                vstd::slice::slice_subrange(self.bytes.as_slice(), start, end),
            );
            self.pos = end;
            assert(b@ =~= old(self)@.take(n as int));
            assert(self@ =~= old(self)@.skip(n as int));
            Chunk::Full(b)
        } else {
            let read: usize = self.bytes.len() - self.pos;
            self.pos = self.bytes.len();
            assert(self@ =~= Seq::<u8>::empty());
            Chunk::Eof { read }
        }
    }
}

/// What reading a frame gives.
pub enum FrameOutcome {
    /// The stream has ended.
    End,
    /// A payload.
    Payload(Seq<u8>),
    /// The prefix announces this length, which is more than [`MAX_FRAME_SIZE`].
    TooLarge(nat),
    /// The stream ends inside the frame.
    Truncated,
    /// The stream cannot be read.
    Failed(Seq<char>),
}

/// The outcome that a result stands for.
pub open spec fn outcome(r: FrameResult) -> FrameOutcome {
    match r {
        Ok(None) => FrameOutcome::End,
        Ok(Some(b)) => FrameOutcome::Payload(b@),
        Err(FrameError::TooLarge { len }) => FrameOutcome::TooLarge(len as nat),
        Err(FrameError::Truncated) => FrameOutcome::Truncated,
        Err(FrameError::Io(e)) => FrameOutcome::Failed(e@),
    }
}

/// What reading a frame from `stream` gives, and what of the stream is left. Only a
/// stream that ends before a frame is at its end; one that ends inside a frame, be it
/// in the length prefix or in the payload, is truncated.
pub open spec fn first_frame(stream: Seq<u8>) -> (FrameOutcome, Seq<u8>) {
    let n = announced(stream) as int;
    if stream.len() == 0 {
        (FrameOutcome::End, Seq::empty())
    } else if stream.len() < 4 {
        (FrameOutcome::Truncated, Seq::empty())
    } else if n > MAX_FRAME_SIZE {
        (FrameOutcome::TooLarge(n as nat), stream.skip(4))
    } else if stream.len() < 4 + n {
        (FrameOutcome::Truncated, Seq::empty())
    } else {
        (FrameOutcome::Payload(stream.subrange(4, 4 + n)), stream.skip(4 + n))
    }
}

/// Reads a frame.
pub fn read_frame(source: &mut ByteSource) -> (r: FrameResult)
    ensures
        (outcome(r), final(source)@) == first_frame(old(source)@),
{
    let ghost stream = source@;
    let mut reader = FrameReader::new();
    let prefix = source.take(4);
    match reader.advance(prefix) {
        Some(r) => r,
        None => {
            assert(announced(stream.take(4)) == announced(stream));
            let n: usize = reader.wanted();
            let payload = source.take(n);
            assert(4 + n <= stream.len() ==> stream.skip(4).take(n as int) =~= stream.subrange(
                4,
                4 + n,
            ));
            assert(4 + n <= stream.len() ==> stream.skip(4).skip(n as int) =~= stream.skip(4 + n));
            match reader.advance(payload) {
                Some(r) => r,
                None => Ok(None),
            }
        },
    }
}

/// A length prefix announces the length it was made for, modulo 2^32.
pub proof fn prefix_announces_length(n: nat)
    ensures
        announced(length_prefix(n)) == n % 0x1_0000_0000,
{
    let d0 = n % 0x100;
    let d1 = n / 0x100 % 0x100;
    let d2 = n / 0x1_0000 % 0x100;
    let d3 = n / 0x100_0000 % 0x100;
    let high = n / 0x1_0000_0000;
    let sum = d3 * 0x100_0000 + d2 * 0x1_0000 + d1 * 0x100 + d0;
    assert(n / 0x1_0000 == n / 0x100 / 0x100);
    assert(n / 0x100_0000 == n / 0x1_0000 / 0x100);
    assert(n / 0x1_0000_0000 == n / 0x100_0000 / 0x100);
    assert(n == high * 0x1_0000_0000 + sum);
    assert(sum < 0x1_0000_0000);
}

/// What is read back of a frame is the payload that was written, and what follows
/// the frame is left unread, for every payload that a reader accepts.
pub proof fn frame_round_trip(payload: Seq<u8>, rest: Seq<u8>)
    requires
        payload.len() <= MAX_FRAME_SIZE,
    ensures
        first_frame(frame(payload) + rest) == (FrameOutcome::Payload(payload), rest),
{
    let stream = frame(payload) + rest;
    let n = payload.len() as int;
    prefix_announces_length(payload.len());
    assert(announced(stream) == announced(length_prefix(payload.len())));
    assert(stream.subrange(4, 4 + n) =~= payload);
    assert(stream.skip(4 + n) =~= rest);
}

/// A frame with a longer payload is refused, up to the lengths that the prefix
/// can tell.
pub proof fn long_frame_is_refused(payload: Seq<u8>, rest: Seq<u8>)
    requires
        MAX_FRAME_SIZE < payload.len() < 0x1_0000_0000,
    ensures
        first_frame(frame(payload) + rest).0 == FrameOutcome::TooLarge(payload.len()),
{
    let stream = frame(payload) + rest;
    prefix_announces_length(payload.len());
    assert(announced(stream) == announced(length_prefix(payload.len())));
}

/// A stream that ends inside a frame gives an error, wherever in the frame it ends;
/// a stream that ends before it gives nothing.
pub proof fn cut_frame_is_an_error(payload: Seq<u8>, n: int)
    requires
        payload.len() <= MAX_FRAME_SIZE,
        0 <= n < frame(payload).len(),
    ensures
        first_frame(frame(payload).take(n)).0 == if n == 0 {
            FrameOutcome::End
        } else {
            FrameOutcome::Truncated
        },
        first_frame(frame(payload).take(n)).1.len() == 0,
{
    if n >= 4 {
        prefix_announces_length(payload.len());
        assert(announced(frame(payload).take(n)) == announced(length_prefix(payload.len())));
    }
}

/// A stream that ends inside a length prefix gives an error, whatever its bytes are.
pub proof fn cut_prefix_is_an_error(stream: Seq<u8>)
    requires
        0 < stream.len() < 4,
    ensures
        first_frame(stream) == (FrameOutcome::Truncated, Seq::<u8>::empty()),
{
}

/// The stream that carries the given payloads, one frame after another.
pub open spec fn frames(payloads: Seq<Seq<u8>>) -> Seq<u8>
    decreases payloads.len(),
{
    if payloads.len() == 0 {
        Seq::empty()
    } else {
        frame(payloads[0]) + frames(payloads.drop_first())
    }
}

/// The payloads that reading a stream frame by frame gives, up to the first read
/// that gives none, and what that read gives.
pub open spec fn read_all(stream: Seq<u8>) -> (Seq<Seq<u8>>, FrameOutcome)
    decreases stream.len(),
{
    match first_frame(stream).0 {
        FrameOutcome::Payload(p) => {
            let (tail, last) = read_all(first_frame(stream).1);
            (seq![p] + tail, last)
        },
        other => (Seq::empty(), other),
    }
}

/// A stream of frames gives back the payloads, in order, and then its end. Empty
/// payloads are no exception.
pub proof fn frames_round_trip(payloads: Seq<Seq<u8>>)
    requires
        forall|i: int| 0 <= i < payloads.len() ==> (#[trigger] payloads[i]).len() <= MAX_FRAME_SIZE,
    ensures
        read_all(frames(payloads)) == (payloads, FrameOutcome::End),
    decreases payloads.len(),
{
    if payloads.len() > 0 {
        let tail = payloads.drop_first();
        frames_round_trip(tail);
        frame_round_trip(payloads[0], frames(tail));
        assert(seq![payloads[0]] + tail =~= payloads);
    } else {
        assert(payloads =~= Seq::empty());
    }
}

/// A length prefix holds the length, modulo 2^32, with the most significant byte first:
/// so a frame is written, and so it is read, for every payload of up to 64 MiB.
pub proof fn prefix_is_big_endian(
    b0: u8,
    b1: u8,
    b2: u8,
    b3: u8,
    payload: Seq<u8>,
    rest: Seq<u8>,
)
    requires
        payload.len() % 0x1_0000_0000 == b0 * 0x100_0000 + b1 * 0x1_0000 + b2 * 0x100 + b3,
    ensures
        frame(payload) == seq![b0, b1, b2, b3] + payload,
        payload.len() <= 0x400_0000 ==> first_frame(seq![b0, b1, b2, b3] + payload + rest) == (
            FrameOutcome::Payload(payload),
            rest,
        ),
{
    let n = payload.len();
    let low = n % 0x1_0000_0000;
    let high = n / 0x1_0000_0000;
    assert(n == high * 0x1_0000_0000 + low);
    assert(n % 0x100 == b3);
    assert(n / 0x100 == high * 0x100_0000 + b0 * 0x1_0000 + b1 * 0x100 + b2);
    assert(n / 0x100 % 0x100 == b2);
    assert(n / 0x1_0000 == high * 0x1_0000 + b0 * 0x100 + b1);
    assert(n / 0x1_0000 % 0x100 == b1);
    assert(n / 0x100_0000 == high * 0x100 + b0);
    assert(n / 0x100_0000 % 0x100 == b0);
    assert(frame(payload) =~= seq![b0, b1, b2, b3] + payload);
    if n <= 0x400_0000 {
        frame_round_trip(payload, rest);
    }
}

/// A prefix that announces more than 64 MiB is refused, with the length that it
/// announces, before any of the payload is read.
pub proof fn too_long_prefix_is_refused(b0: u8, b1: u8, b2: u8, b3: u8, rest: Seq<u8>)
    requires
        b0 * 0x100_0000 + b1 * 0x1_0000 + b2 * 0x100 + b3 > 0x400_0000,
    ensures
        first_frame(seq![b0, b1, b2, b3] + rest) == (
            FrameOutcome::TooLarge(
                (b0 * 0x100_0000 + b1 * 0x1_0000 + b2 * 0x100 + b3) as nat,
            ),
            rest,
        ),
{
    assert((seq![b0, b1, b2, b3] + rest).skip(4) =~= rest);
}

/// The reader takes the same prefix for the same length, and then wants as many bytes.
pub proof fn reader_wants_announced_length(b0: u8, b1: u8, b2: u8, b3: u8)
    ensures
        announced(seq![b0, b1, b2, b3]) == b0 * 0x100_0000 + b1 * 0x1_0000 + b2 * 0x100 + b3,
        FrameReader::Prefix.wants() == 4,
        forall|len: usize| #[trigger] FrameReader::Payload(len).wants() == len,
{
}

/// What a read gave is taken for what it is: the payload byte for byte, the end for the
/// end, and each error for itself.
pub proof fn outcome_is_what_was_read(payload: Vec<u8>, len: usize, why: String)
    ensures
        outcome(Ok(Some(payload))) == FrameOutcome::Payload(payload@),
        outcome(Ok(None)) == FrameOutcome::End,
        outcome(Err(FrameError::TooLarge { len })) == FrameOutcome::TooLarge(len as nat),
        outcome(Err(FrameError::Truncated)) == FrameOutcome::Truncated,
        outcome(Err(FrameError::Io(why))) == FrameOutcome::Failed(why@),
{
}

/// An error is reported with its cause: the length and the limit, or what the system
/// said.
pub proof fn frame_error_names_cause(len: usize, why: String)
    ensures
        (FrameError::TooLarge { len }).text() == "frame too large: "@ + decimal(len as nat)
            + " bytes (max "@ + decimal(67108864) + ")"@,
        FrameError::Truncated.text() == "early eof"@,
        FrameError::Io(why).text() == why@,
{
}

/// A request is seen with all that it holds.
pub proof fn request_is_seen_whole(
    id: u64,
    text: String,
    params: serde_json::Value,
    session_id: Option<String>,
    count: usize,
)
    ensures
        (ClientMsg::Cdp { id, method: text, params, session_id })@ == (ClientMsgView::Cdp {
            id,
            method: text@,
            params: json(params),
            session_id: match session_id {
                Some(s) => Some(s@),
                None => None,
            },
        }),
        (ClientMsg::Acquire { id })@ == (ClientMsgView::Acquire { id }),
        (ClientMsg::Release { id, target_id: text })@ == (ClientMsgView::Release {
            id,
            target_id: text@,
        }),
        (ClientMsg::Warmup { id, count, url: text })@ == (ClientMsgView::Warmup {
            id,
            count,
            url: text@,
        }),
        (ClientMsg::Status { id })@ == (ClientMsgView::Status { id }),
{
}

/// Every request has the number that it was made with.
pub proof fn request_has_its_number(
    id: u64,
    text: Seq<char>,
    params: Json,
    session_id: Option<Seq<char>>,
    count: usize,
)
    ensures
        (ClientMsgView::Cdp { id, method: text, params, session_id }).id() == id,
        (ClientMsgView::Acquire { id }).id() == id,
        (ClientMsgView::Release { id, target_id: text }).id() == id,
        (ClientMsgView::Warmup { id, count, url: text }).id() == id,
        (ClientMsgView::Status { id }).id() == id,
{
}

/// A message of the daemon's is seen with all that it holds.
pub proof fn message_is_seen_whole(
    id: u64,
    payload: serde_json::Value,
    text: String,
    other: String,
    session_id: Option<String>,
    count: usize,
    active: usize,
    chrome_pid: u32,
    uptime_secs: u64,
)
    ensures
        (DaemonMsg::CdpResponse { id, payload })@ == (DaemonMsgView::CdpResponse {
            id,
            payload: json(payload),
        }),
        (DaemonMsg::CdpEvent { method: text, params: payload, session_id })@ == (
        DaemonMsgView::CdpEvent {
            method: text@,
            params: json(payload),
            session_id: match session_id {
                Some(s) => Some(s@),
                None => None,
            },
        }),
        (DaemonMsg::Acquired { id, target_id: text, session_id: other })@ == (
        DaemonMsgView::Acquired { id, target_id: text@, session_id: other@ }),
        (DaemonMsg::Released { id })@ == (DaemonMsgView::Released { id }),
        (DaemonMsg::WarmupDone { id, count })@ == (DaemonMsgView::WarmupDone { id, count }),
        (DaemonMsg::StatusResponse {
            id,
            pool_available: count,
            active_sessions: active,
            chrome_pid,
            uptime_secs,
        })@ == (DaemonMsgView::StatusResponse {
            id,
            pool_available: count,
            active_sessions: active,
            chrome_pid,
            uptime_secs,
        }),
        (DaemonMsg::Error { id, message: text })@ == (DaemonMsgView::Error {
            id,
            message: text@,
        }),
{
}

/// Every message but an event answers the request whose number it bears; an event
/// answers none.
pub proof fn message_answers_its_number(
    id: u64,
    payload: Json,
    text: Seq<char>,
    other: Seq<char>,
    session_id: Option<Seq<char>>,
    count: usize,
    active: usize,
    chrome_pid: u32,
    uptime_secs: u64,
)
    ensures
        (DaemonMsgView::CdpResponse { id, payload }).answers() == Some(id),
        (DaemonMsgView::CdpEvent { method: text, params: payload, session_id }).answers() is None,
        (DaemonMsgView::Acquired { id, target_id: text, session_id: other }).answers() == Some(id),
        (DaemonMsgView::Released { id }).answers() == Some(id),
        (DaemonMsgView::WarmupDone { id, count }).answers() == Some(id),
        (DaemonMsgView::StatusResponse {
            id,
            pool_available: count,
            active_sessions: active,
            chrome_pid,
            uptime_secs,
        }).answers() == Some(id),
        (DaemonMsgView::Error { id, message: text }).answers() == Some(id),
{
}

} // verus!
