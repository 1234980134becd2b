//! Length-prefixed frames over a byte stream that accepts and yields bytes a
//! few at a time.

use smoltcp::socket::tcp;
use vstd::prelude::*;

verus! {

/// A TCP socket of the protocol stack. What it holds is the stack's
/// business; the library only passes it on.
#[verifier::external_type_specification]
#[verifier::external_body]
pub struct ExTcpSocket<'a>(tcp::Socket<'a>);

/// The state of a connection, in the terms of the TCP state machine.
#[derive(Clone, Copy, Debug, PartialEq, Eq, Structural)]
pub enum ConnState {
    /// No connection.
    Closed,
    /// Waiting for a peer to connect.
    Listen,
    /// A connection request was sent.
    SynSent,
    /// A connection request was received and answered.
    SynReceived,
    /// The connection is open in both directions.
    Established,
    /// This side has closed and waits for the acknowledgement.
    FinWait1,
    /// This side has closed; the peer may still send.
    FinWait2,
    /// The peer has closed; this side may still send.
    CloseWait,
    /// Both sides have closed at once.
    Closing,
    /// The peer has closed, then this side; the acknowledgement is awaited.
    LastAck,
    /// The connection is closed and lingers for late packets.
    TimeWait,
}

/// Calls `tcp::Socket::state` and names the state it reports. Nothing is
/// claimed of which state that is.
#[verifier::external_body]
pub(crate) fn socket_state(socket: &tcp::Socket<'_>) -> (state: ConnState) {
    match socket.state() {
        tcp::State::Closed => ConnState::Closed,
        tcp::State::Listen => ConnState::Listen,
        tcp::State::SynSent => ConnState::SynSent,
        tcp::State::SynReceived => ConnState::SynReceived,
        tcp::State::Established => ConnState::Established,
        tcp::State::FinWait1 => ConnState::FinWait1,
        tcp::State::FinWait2 => ConnState::FinWait2,
        tcp::State::CloseWait => ConnState::CloseWait,
        tcp::State::Closing => ConnState::Closing,
        tcp::State::LastAck => ConnState::LastAck,
        tcp::State::TimeWait => ConnState::TimeWait,
    }
}

/// Calls `tcp::Socket::is_active`. Nothing is claimed of the answer.
#[verifier::external_body]
pub(crate) fn socket_is_active(socket: &tcp::Socket<'_>) -> (active: bool) {
    socket.is_active()
}

/// Calls `tcp::Socket::can_recv`. Nothing is claimed of the answer.
#[verifier::external_body]
pub(crate) fn socket_can_recv(socket: &tcp::Socket<'_>) -> (ready: bool) {
    socket.can_recv()
}

/// Calls `tcp::Socket::can_send`. Nothing is claimed of the answer.
#[verifier::external_body]
pub(crate) fn socket_can_send(socket: &tcp::Socket<'_>) -> (ready: bool) {
    socket.can_send()
}

/// Calls `tcp::Socket::send_slice` with `data`. On success the socket
/// reports how many bytes from the front of `data` it queued, which is never
/// more than `data` holds; any error is reported as `None`.
#[verifier::external_body]
pub(crate) fn socket_send(socket: &mut tcp::Socket<'_>, data: &[u8]) -> (sent: Option<usize>)
    ensures
        sent is Some ==> sent->0 <= data@.len(),
{
    match socket.send_slice(data) {
        Ok(n) => Some(n),
        Err(_) => None,
    }
}

/// Calls `tcp::Socket::recv_slice` on `max` fresh bytes at the end of
/// `dest`. On success the socket reports how many bytes it wrote there, never
/// more than `max`; `dest` keeps what it held and those bytes after it. On
/// any error, reported as `None`, `dest` is as it was.
#[verifier::external_body]
pub(crate) fn socket_recv(socket: &mut tcp::Socket<'_>, dest: &mut Vec<u8>, max: usize) -> (got:
    Option<usize>)
    requires
        old(dest)@.len() + max <= usize::MAX,
    ensures
        got is Some ==> got->0 <= max && final(dest)@.len() == old(dest)@.len() + got->0
            && final(dest)@.take(old(dest)@.len() as int) == old(dest)@,
        got is None ==> final(dest)@ == old(dest)@,
{
    let start = dest.len();
    dest.resize(start + max, 0);
    match socket.recv_slice(&mut dest[start..]) {
        Ok(n) => {
            dest.truncate(start + n);
            Some(n)
        },
        Err(_) => {
            dest.truncate(start);
            None
        },
    }
}

/// Calls `tcp::Socket::listen` with `port`; the outcome is not reported.
#[verifier::external_body]
pub(crate) fn socket_listen(socket: &mut tcp::Socket<'_>, port: u16) {
    let _ = socket.listen(port);
}

/// Calls `tcp::Socket::close`.
#[verifier::external_body]
pub(crate) fn socket_close(socket: &mut tcp::Socket<'_>) {
    socket.close();
}

/// Largest payload, in bytes, that a receiver accepts.
pub const MAX_FRAME_LEN: usize = 1048576;

/// Length of the prefix that carries the payload's length.
pub const LENGTH_PREFIX_LEN: usize = 4;

/// The four bytes of `x`, least significant first.
pub open spec fn le32(x: u32) -> Seq<u8> {
    seq![
        (x % 256) as u8,
        ((x / 256) % 256) as u8,
        ((x / 65536) % 256) as u8,
        (x / 16777216) as u8,
    ]
}

/// The number whose four bytes, least significant first, open `s`.
pub open spec fn from_le32(s: Seq<u8>) -> u32 {
    (s[0] + 256 * s[1] + 65536 * s[2] + 16777216 * s[3]) as u32
}

/// Decoding undoes encoding.
pub proof fn lemma_le32_roundtrip(x: u32)
    ensures
        le32(x).len() == 4,
        from_le32(le32(x)) == x,
{
    assert(x == (x % 256) + 256 * ((x / 256) % 256) + 65536 * ((x / 65536) % 256) + 16777216 * (x
        / 16777216)) by (bit_vector);
    assert(x / 16777216 < 256) by (bit_vector);
}

/// Encoding undoes decoding.
pub proof fn lemma_le32_of_bytes(s: Seq<u8>)
    requires
        s.len() == 4,
    ensures
        le32(from_le32(s)) == s,
{
    let low = s[0];
    let mid = s[1];
    let high = s[2];
    let top = s[3];
    let v = from_le32(s);
    assert(low + 256 * mid + 65536 * high + 16777216 * top <= u32::MAX);
    assert(v == (low as u32) + 256 * (mid as u32) + 65536 * (high as u32) + 16777216 * (top as u32)
        ==> v % 256 == low && (v / 256) % 256 == mid && (v / 65536) % 256 == high && v / 16777216
        == top) by (bit_vector);
    assert(le32(v) =~= s);
}

/// The four bytes of `x`, least significant first.
pub fn u32_to_le_bytes(x: u32) -> (bytes: [u8; 4])
    ensures
        bytes@ == le32(x),
{
    let bytes = [
        (x % 256) as u8,
        ((x / 256) % 256) as u8,
        ((x / 65536) % 256) as u8,
        (x / 16777216) as u8,
    ];
    assert(bytes@ =~= le32(x));
    bytes
}

/// The number that `bytes` spell, least significant first.
pub fn u32_from_le_bytes(bytes: [u8; 4]) -> (x: u32)
    ensures
        x == from_le32(bytes@),
{
    (bytes[0] as u32) + 256 * (bytes[1] as u32) + 65536 * (bytes[2] as u32) + 16777216 * (
    bytes[3] as u32)
}

/// The length of a payload of `len` bytes as its prefix states it: the low
/// 32 bits.
pub open spec fn declared_len(len: nat) -> u32 {
    (len % 0x1_0000_0000) as u32
}

/// The bytes that carry `payload` on the stream: its length, then itself.
pub open spec fn frame_of(payload: Seq<u8>) -> Seq<u8> {
    le32(declared_len(payload.len())) + payload
}

/// What a receiver makes of the bytes that have arrived so far.
pub enum Decoded {
    /// The prefix or the payload is not all there yet.
    Incomplete,
    /// The prefix declares more than `MAX_FRAME_LEN` bytes.
    TooLong,
    /// The frame is complete and carries this payload.
    Payload(Seq<u8>),
}

/// What a receiver makes of `stream`, the bytes that have arrived so far.
pub open spec fn decode_frame(stream: Seq<u8>) -> Decoded {
    if stream.len() < LENGTH_PREFIX_LEN {
        Decoded::Incomplete
    } else {
        let len = from_le32(stream);
        if len > MAX_FRAME_LEN {
            Decoded::TooLong
        } else if stream.len() < LENGTH_PREFIX_LEN + len {
            Decoded::Incomplete
        } else {
            Decoded::Payload(stream.subrange(LENGTH_PREFIX_LEN as int, LENGTH_PREFIX_LEN + len))
        }
    }
}

/// A payload within the limit comes out of its own frame unchanged, and no
/// shorter part of the frame is taken for a whole one.
pub proof fn lemma_frame_roundtrip(payload: Seq<u8>)
    requires
        payload.len() <= MAX_FRAME_LEN,
    ensures
        decode_frame(frame_of(payload)) == Decoded::Payload(payload),
        forall|n: int|
            0 <= n < frame_of(payload).len() ==> decode_frame(#[trigger] frame_of(payload).take(n))
                == Decoded::Incomplete,
{
    let frame = frame_of(payload);
    let len = declared_len(payload.len());
    lemma_le32_roundtrip(len);
    assert(from_le32(frame) == from_le32(le32(len)));
    assert(frame.subrange(LENGTH_PREFIX_LEN as int, LENGTH_PREFIX_LEN + len) =~= payload);
    assert forall|n: int| 0 <= n < frame.len() implies decode_frame(#[trigger] frame.take(n))
        == Decoded::Incomplete by {
        if n >= LENGTH_PREFIX_LEN {
            assert(from_le32(frame.take(n)) == from_le32(le32(len)));
        }
    }
}

/// A prefix that declares more than the limit is refused whatever follows
/// it.
pub proof fn lemma_frame_too_long(stream: Seq<u8>)
    requires
        stream.len() >= LENGTH_PREFIX_LEN,
        from_le32(stream) > MAX_FRAME_LEN,
    ensures
        decode_frame(stream) == Decoded::TooLong,
        forall|more: Seq<u8>| decode_frame(#[trigger] (stream + more)) == Decoded::TooLong,
{
    assert forall|more: Seq<u8>| decode_frame(#[trigger] (stream + more))
        == Decoded::TooLong by {
        assert(from_le32(stream + more) == from_le32(stream));
    }
}

/// Appends the bytes of `src` from index `from` up to `to` to `dest`.
pub fn append_bytes(dest: &mut Vec<u8>, src: &[u8], from: usize, to: usize)
    requires
        from <= to <= src@.len(),
    ensures
        final(dest)@ == old(dest)@ + src@.subrange(from as int, to as int),
{
    let mut i: usize = from;
    while i < to
        invariant
            from <= i <= to <= src@.len(),
            dest@ == old(dest)@ + src@.subrange(from as int, i as int),
        decreases to - i,
    {
        dest.push(src[i]);
        i += 1;
        assert(dest@ =~= old(dest)@ + src@.subrange(from as int, i as int));
    }
}

/// The part of `frame` that a sender offers to the stream after `sent`
/// bytes went out: what is left of the length prefix, and only after that
/// what is left of the payload.
pub open spec fn pending_of(frame: Seq<u8>, sent: int) -> Seq<u8> {
    if sent < LENGTH_PREFIX_LEN {
        frame.subrange(sent, LENGTH_PREFIX_LEN as int)
    } else {
        frame.skip(sent)
    }
}

/// The sending side of one frame: it offers the frame to the stream piece
/// by piece and is told how much of each piece went out.
pub struct FrameWriter {
    frame: Vec<u8>,
    sent: usize,
}

impl FrameWriter {
    /// The whole frame: the length prefix and the payload.
    pub closed spec fn frame(&self) -> Seq<u8> {
        self.frame@
    }

    /// The number of bytes of the frame that went out so far.
    pub closed spec fn sent(&self) -> nat {
        self.sent as nat
    }

    /// No more bytes went out than the frame has, and the frame has its
    /// prefix.
    pub open spec fn wf(&self) -> bool {
        LENGTH_PREFIX_LEN <= self.frame().len() && self.sent() <= self.frame().len()
    }

    /// A writer for a frame that carries `payload`, with nothing sent.
    pub fn new(payload: &[u8]) -> (writer: Self)
        ensures
            writer.wf(),
            writer.frame() == frame_of(payload@),
            writer.sent() == 0,
    {
        let declared = (payload.len() as u64 % 0x1_0000_0000) as u32;
        let prefix = u32_to_le_bytes(declared);
        let mut frame: Vec<u8> = Vec::new();
        append_bytes(&mut frame, prefix.as_slice(), 0, LENGTH_PREFIX_LEN);
        append_bytes(&mut frame, payload, 0, payload.len());
        proof {
            assert(prefix@.subrange(0, LENGTH_PREFIX_LEN as int) =~= prefix@);
            assert(payload@.subrange(0, payload@.len() as int) =~= payload@);
            assert(frame@ =~= frame_of(payload@));
        }
        FrameWriter { frame, sent: 0 }
    }

    /// Whether the whole frame went out.
    pub fn is_done(&self) -> (done: bool)
        requires
            self.wf(),
        ensures
            done == (self.sent() == self.frame().len()),
    {
        self.sent == self.frame.len()
    }

    /// The bytes to offer to the stream next; none once the frame is out.
    pub fn pending(&self) -> (bytes: &[u8])
        requires
            self.wf(),
        ensures
            bytes@ == pending_of(self.frame(), self.sent() as int),
    {
        if self.sent < LENGTH_PREFIX_LEN {
            vstd::slice::slice_subrange(self.frame.as_slice(), self.sent, LENGTH_PREFIX_LEN)
        } else {
            vstd::slice::slice_subrange(self.frame.as_slice(), self.sent, self.frame.len())
        }
    }

    /// Records that the stream took the first `n` of the pending bytes.
    pub fn advance(&mut self, n: usize)
        requires
            old(self).wf(),
            n <= pending_of(old(self).frame(), old(self).sent() as int).len(),
        ensures
            final(self).wf(),
            final(self).frame() == old(self).frame(),
            final(self).sent() == old(self).sent() + n,
    {
        let total = self.frame.len();
        proof {
            let left = pending_of(self.frame@, self.sent as int);
            if self.sent < LENGTH_PREFIX_LEN {
                assert(left.len() == LENGTH_PREFIX_LEN - self.sent);
            } else {
                assert(left.len() == self.frame@.len() - self.sent);
            }
            assert(self.sent + n <= total);
        }
        self.sent = self.sent + n;
    }
}

/// Whether `stream` stops where its frame does: a receiver never takes
/// bytes beyond the frame it is reading, nor any after a refused prefix.
pub open spec fn within_frame(stream: Seq<u8>) -> bool {
    stream.len() <= LENGTH_PREFIX_LEN || if from_le32(stream) > MAX_FRAME_LEN {
        stream.len() == LENGTH_PREFIX_LEN
    } else {
        stream.len() <= LENGTH_PREFIX_LEN + from_le32(stream)
    }
}

/// The number of bytes that a receiver asks for next, after `stream` has
/// arrived: the rest of the prefix, then the rest of the payload, and
/// nothing once the frame is complete or refused.
pub open spec fn wanted_after(stream: Seq<u8>) -> nat {
    if stream.len() < LENGTH_PREFIX_LEN {
        (LENGTH_PREFIX_LEN - stream.len()) as nat
    } else {
        let len = from_le32(stream);
        if len > MAX_FRAME_LEN || stream.len() >= LENGTH_PREFIX_LEN + len {
            0
        } else {
            (LENGTH_PREFIX_LEN + len - stream.len()) as nat
        }
    }
}

/// A receiver that is fed the frame of a payload within the limit, in
/// pieces of any size, asks for more until the frame is through and never
/// for more than is left of it; then it asks for nothing.
pub proof fn lemma_reader_follows_frame(payload: Seq<u8>, n: int)
    requires
        payload.len() <= MAX_FRAME_LEN,
        0 <= n <= frame_of(payload).len(),
    ensures
        within_frame(frame_of(payload).take(n)),
        n < frame_of(payload).len() ==> 0 < wanted_after(frame_of(payload).take(n)) <= frame_of(
            payload,
        ).len() - n,
        n == frame_of(payload).len() ==> wanted_after(frame_of(payload).take(n)) == 0,
{
    let frame = frame_of(payload);
    let len = declared_len(payload.len());
    lemma_le32_roundtrip(len);
    if n >= LENGTH_PREFIX_LEN {
        assert(from_le32(frame.take(n)) == from_le32(le32(len)));
    }
}

/// How far a receiver has come.
#[derive(Clone, Copy, Debug, PartialEq, Eq, Structural)]
pub enum FrameStatus {
    /// More bytes are needed.
    Incomplete,
    /// The prefix declared more than `MAX_FRAME_LEN` bytes.
    TooLong,
    /// The payload is all there.
    Complete,
}

/// The receiving side of one frame: it takes the bytes that the stream
/// yields, first the length prefix, then as many bytes as it declares.
pub struct FrameReader {
    stream: Vec<u8>,
}

impl FrameReader {
    /// All bytes taken from the stream so far.
    pub closed spec fn received(&self) -> Seq<u8> {
        self.stream@
    }

    /// The reader took nothing beyond its frame.
    pub open spec fn wf(&self) -> bool {
        within_frame(self.received())
    }

    /// A reader that has taken nothing.
    pub fn new() -> (reader: Self)
        ensures
            reader.wf(),
            reader.received() == Seq::<u8>::empty(),
    {
        FrameReader { stream: Vec::new() }
    }

    /// The declared payload length; meaningful once the prefix is there.
    fn declared(&self) -> (len: u32)
        requires
            self.stream@.len() >= LENGTH_PREFIX_LEN,
        ensures
            len == from_le32(self.stream@),
    {
        let prefix = [self.stream[0], self.stream[1], self.stream[2], self.stream[3]];
        u32_from_le_bytes(prefix)
    }

    /// The number of bytes to ask the stream for next.
    pub fn wanted(&self) -> (n: usize)
        requires
            self.wf(),
        ensures
            n == wanted_after(self.received()),
    {
        if self.stream.len() < LENGTH_PREFIX_LEN {
            LENGTH_PREFIX_LEN - self.stream.len()
        } else {
            let len = self.declared() as usize;
            if len > MAX_FRAME_LEN || self.stream.len() >= LENGTH_PREFIX_LEN + len {
                0
            } else {
                LENGTH_PREFIX_LEN + len - self.stream.len()
            }
        }
    }

    /// What the bytes taken so far amount to.
    pub fn status(&self) -> (status: FrameStatus)
        requires
            self.wf(),
        ensures
            status == match decode_frame(self.received()) {
                Decoded::Incomplete => FrameStatus::Incomplete,
                Decoded::TooLong => FrameStatus::TooLong,
                Decoded::Payload(_) => FrameStatus::Complete,
            },
    {
        if self.stream.len() < LENGTH_PREFIX_LEN {
            FrameStatus::Incomplete
        } else {
            let len = self.declared() as usize;
            if len > MAX_FRAME_LEN {
                FrameStatus::TooLong
            } else if self.stream.len() < LENGTH_PREFIX_LEN + len {
                FrameStatus::Incomplete
            } else {
                FrameStatus::Complete
            }
        }
    }

    /// Takes the bytes at the front of `chunk` that the reader still asks
    /// for, and returns how many it took.
    pub fn accept(&mut self, chunk: &[u8]) -> (taken: usize)
        requires
            old(self).wf(),
        ensures
            final(self).wf(),
            taken == if chunk@.len() <= wanted_after(old(self).received()) {
                chunk@.len()
            } else {
                wanted_after(old(self).received())
            },
            final(self).received() == old(self).received() + chunk@.take(taken as int),
    {
        let wanted = self.wanted();
        let taken = if chunk.len() <= wanted {
            chunk.len()
        } else {
            wanted
        };
        append_bytes(&mut self.stream, chunk, 0, taken);
        proof {
            lemma_within_frame_grows(old(self).stream@, chunk@.take(taken as int));
        }
        taken
    }

    /// The payload, once the frame is complete.
    pub fn payload(&self) -> (payload: Option<&[u8]>)
        requires
            self.wf(),
        ensures
            match decode_frame(self.received()) {
                Decoded::Payload(p) => payload is Some && payload->0@ == p,
                _ => payload is None,
            },
    {
        let status = self.status();
        match status {
            FrameStatus::Complete => {
                let body = vstd::slice::slice_subrange(
                    self.stream.as_slice(),
                    LENGTH_PREFIX_LEN,
                    self.stream.len(),
                );
                assert(body@ =~= self.stream@.subrange(
                    LENGTH_PREFIX_LEN as int,
                    LENGTH_PREFIX_LEN + from_le32(self.stream@),
                ));
                Some(body)
            },
            _ => None,
        }
    }

    /// The payload by value, once the frame is complete.
    pub fn into_payload(self) -> (payload: Option<Vec<u8>>)
        requires
            self.wf(),
        ensures
            match decode_frame(self.received()) {
                Decoded::Payload(p) => payload is Some && payload->0@ == p,
                _ => payload is None,
            },
    {
        let status = self.status();
        match status {
            FrameStatus::Complete => {
                let mut stream = self.stream;
                let body = stream.split_off(LENGTH_PREFIX_LEN);
                assert(body@ =~= self.stream@.subrange(
                    LENGTH_PREFIX_LEN as int,
                    LENGTH_PREFIX_LEN + from_le32(self.stream@),
                ));
                Some(body)
            },
            _ => None,
        }
    }
}

/// A receiver that takes no more than it asked for stays within its frame.
pub proof fn lemma_within_frame_grows(stream: Seq<u8>, more: Seq<u8>)
    requires
        within_frame(stream),
        more.len() <= wanted_after(stream),
    ensures
        within_frame(stream + more),
        wanted_after(stream) == 0 ==> stream + more == stream,
{
    let next = stream + more;
    if stream.len() >= LENGTH_PREFIX_LEN {
        assert(from_le32(next) == from_le32(stream));
    }
    if more.len() == 0 {
        assert(next =~= stream);
    }
}

/// What one attempt to move bytes through the stream came to.
#[derive(Clone, Copy, Debug, PartialEq, Eq, Structural)]
pub enum StreamPoll {
    /// The stream can take or give nothing now; try again later.
    Pending,
    /// This many bytes moved, at least one.
    Ready(usize),
    /// The stream is closed or failed.
    Closed,
}

/// Why a framed transfer ended without a frame.
#[derive(Clone, Copy, Debug, PartialEq, Eq, Structural)]
pub enum TransportError {
    /// The stream closed before the frame was through.
    ConnectionClosed,
    /// The length prefix declared more than `MAX_FRAME_LEN` bytes.
    ProtocolViolation,
}

/// Where a framed transfer stands after one scheduling pass.
#[derive(Clone, Copy, Debug, PartialEq, Eq, Structural)]
pub enum FramePoll {
    /// The stream would take or give no more for now.
    Pending,
    /// The frame is through.
    Done,
    /// The transfer failed.
    Failed(TransportError),
}

/// Judges what the stream reported of one transfer: a number of bytes above
/// zero is progress, zero means try again, and an error ends the transfer.
pub fn transfer_outcome(reported: Option<usize>) -> (poll: StreamPoll)
    ensures
        poll == match reported {
            Some(n) => if n > 0 {
                StreamPoll::Ready(n)
            } else {
                StreamPoll::Pending
            },
            None => StreamPoll::Closed,
        },
{
    match reported {
        Some(n) => if n > 0 {
            StreamPoll::Ready(n)
        } else {
            StreamPoll::Pending
        },
        None => StreamPoll::Closed,
    }
}

/// Judges a stream that has nothing to give: it is closed when the
/// connection is not active or its state is `Closed`, else worth waiting for.
pub fn idle_outcome(active: bool, state: ConnState) -> (poll: StreamPoll)
    ensures
        poll == if !active || state == ConnState::Closed {
            StreamPoll::Closed
        } else {
            StreamPoll::Pending
        },
{
    if !active || state == ConnState::Closed {
        StreamPoll::Closed
    } else {
        StreamPoll::Pending
    }
}

/// One attempt to write the front of `data` to `socket`. Whatever the
/// socket answers, a reported count is above zero and within `data`.
pub fn poll_write(socket: &mut tcp::Socket<'_>, data: &[u8]) -> (poll: StreamPoll)
    ensures
        poll matches StreamPoll::Ready(n) ==> 0 < n <= data@.len(),
{
    if socket_can_send(socket) {
        transfer_outcome(socket_send(socket, data))
    } else {
        StreamPoll::Pending
    }
}

/// One attempt to read up to `max` bytes from `socket` onto the end of
/// `dest`. Whatever the socket answers, a reported count is above zero and
/// within `max`, `dest` grew by that many bytes, and without a count `dest`
/// is as it was.
pub fn poll_read(socket: &mut tcp::Socket<'_>, dest: &mut Vec<u8>, max: usize) -> (poll:
    StreamPoll)
    requires
        old(dest)@.len() + max <= usize::MAX,
    ensures
        match poll {
            StreamPoll::Ready(n) => 0 < n <= max && final(dest)@.len() == old(dest)@.len() + n
                && final(dest)@.take(old(dest)@.len() as int) == old(dest)@,
            _ => final(dest)@ == old(dest)@,
        },
{
    if socket_can_recv(socket) {
        let got = socket_recv(socket, dest, max);
        proof {
            if got == Some(0usize) {
                assert(dest@.take(old(dest)@.len() as int) =~= dest@);
            }
        }
        transfer_outcome(got)
    } else {
        idle_outcome(socket_is_active(socket), socket_state(socket))
    }
}

/// Whether `shorter` is how `longer` begins.
pub open spec fn is_prefix_of(shorter: Seq<u8>, longer: Seq<u8>) -> bool {
    shorter.len() <= longer.len() && longer.take(shorter.len() as int) == shorter
}

impl FrameWriter {
    /// Writes as much of the frame to `socket` as it takes now. Whatever
    /// the socket answers, the frame is the same, no byte is taken back, and
    /// the transfer is reported done exactly when the whole frame is out.
    pub fn poll(&mut self, socket: &mut tcp::Socket<'_>) -> (poll: FramePoll)
        requires
            old(self).wf(),
        ensures
            final(self).wf(),
            final(self).frame() == old(self).frame(),
            final(self).sent() >= old(self).sent(),
            poll == FramePoll::Done <==> final(self).sent() == final(self).frame().len(),
            poll != FramePoll::Failed(TransportError::ProtocolViolation),
    {
        loop
            invariant
                self.wf(),
                self.frame() == old(self).frame(),
                self.sent() >= old(self).sent(),
            decreases self.frame().len() - self.sent(),
        {
            if self.is_done() {
                return FramePoll::Done;
            }
            let progress = poll_write(socket, self.pending());
            match progress {
                StreamPoll::Ready(n) => {
                    self.advance(n);
                },
                StreamPoll::Pending => {
                    return FramePoll::Pending;
                },
                StreamPoll::Closed => {
                    return FramePoll::Failed(TransportError::ConnectionClosed);
                },
            }
        }
    }
}

/// The bytes that a receiver still lacks at most, after `stream` has
/// arrived; it shrinks with every byte taken.
pub open spec fn missing_after(stream: Seq<u8>) -> nat {
    if stream.len() < LENGTH_PREFIX_LEN {
        (MAX_FRAME_LEN + 2 * LENGTH_PREFIX_LEN - stream.len()) as nat
    } else {
        wanted_after(stream)
    }
}

impl FrameReader {
    /// Reads as much of the frame from `socket` as it gives now. Whatever
    /// the socket answers, what was received stays received, and the result
    /// says what the bytes received so far amount to.
    pub fn poll(&mut self, socket: &mut tcp::Socket<'_>) -> (poll: FramePoll)
        requires
            old(self).wf(),
        ensures
            final(self).wf(),
            is_prefix_of(old(self).received(), final(self).received()),
            match decode_frame(final(self).received()) {
                Decoded::Payload(_) => poll == FramePoll::Done,
                Decoded::TooLong => poll == FramePoll::Failed(TransportError::ProtocolViolation),
                Decoded::Incomplete => poll == FramePoll::Pending || poll == FramePoll::Failed(
                    TransportError::ConnectionClosed,
                ),
            },
    {
        assert(self.stream@.take(self.stream@.len() as int) =~= self.stream@);
        loop
            invariant
                self.wf(),
                is_prefix_of(old(self).received(), self.received()),
            decreases missing_after(self.received()),
        {
            let status = self.status();
            match status {
                FrameStatus::Complete => {
                    return FramePoll::Done;
                },
                FrameStatus::TooLong => {
                    return FramePoll::Failed(TransportError::ProtocolViolation);
                },
                FrameStatus::Incomplete => {},
            }
            let wanted = self.wanted();
            let ghost before = self.stream@;
            let progress = poll_read(socket, &mut self.stream, wanted);
            match progress {
                StreamPoll::Ready(n) => {
                    proof {
                        let more = self.stream@.skip(before.len() as int);
                        assert(self.stream@ =~= before + more);
                        lemma_within_frame_grows(before, more);
                        assert(self.stream@.take(old(self).stream@.len() as int)
                            =~= before.take(old(self).stream@.len() as int));
                        if before.len() >= LENGTH_PREFIX_LEN {
                            assert(from_le32(self.stream@) == from_le32(before));
                        }
                    }
                },
                StreamPoll::Pending => {
                    return FramePoll::Pending;
                },
                StreamPoll::Closed => {
                    return FramePoll::Failed(TransportError::ConnectionClosed);
                },
            }
        }
    }
}

/// Starts sending `data` as one frame: the writer to poll until it is done.
pub fn send_framed(data: &[u8]) -> (writer: FrameWriter)
    ensures
        writer.wf(),
        writer.frame() == frame_of(data@),
        writer.sent() == 0,
{
    FrameWriter::new(data)
}

/// Starts receiving one frame: the reader to poll until it is done.
pub fn recv_framed() -> (reader: FrameReader)
    ensures
        reader.wf(),
        reader.received() == Seq::<u8>::empty(),
{
    FrameReader::new()
}

} // verus!
