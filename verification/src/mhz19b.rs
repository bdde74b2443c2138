//! Request/response exchange with an MH-Z19B style CO2 sensor.
//!
//! The sensor answers a fixed nine-byte command with a nine-byte frame: a start
//! byte, seven payload bytes and a checksum. The bytes arrive through the
//! receive ring buffer; the exchange gives up when too many ticks pass.

use crate::ringbuffer::RingBuffer;
use heapless::consts::U9;
use vstd::prelude::*;

verus! {

/// Length of the command frame and of the response frame.
pub const FRAME_LEN: usize = 9;

/// First byte of every frame.
pub const START_BYTE: u8 = 0xff;

/// Ticks after which an unanswered request is abandoned.
pub const TIMEOUT_TICKS: u32 = 5;

/// The command that asks the sensor for its CO2 concentration.
pub const READ_COMMAND: [u8; 9] = [0xFF, 0x01, 0x86, 0, 0, 0, 0, 0, 0x79];

/// Why an exchange yields no concentration.
#[derive(Debug, Clone, Copy, PartialEq, Eq, Structural)]
pub enum Error {
    /// Fewer bytes than a frame has.
    IncompletePacket,
    /// The first byte is not the start byte.
    WrongStartByte,
    /// The last byte is not the checksum of the seven before it.
    WrongChecksum,
    /// No full frame arrived in time.
    Timeout,
}

/// Sum of the bytes of `s`.
pub open spec fn byte_sum(s: Seq<u8>) -> int
    decreases s.len(),
{
    if s.len() == 0 {
        0
    } else {
        byte_sum(s.drop_last()) + s.last()
    }
}

/// The byte that brings the sum of `s` to a multiple of 256.
pub open spec fn checksum(s: Seq<u8>) -> u8 {
    ((256 - byte_sum(s) % 256) % 256) as u8
}

/// The concentration carried by a response frame, or the reason it is rejected.
pub open spec fn parsed(s: Seq<u8>) -> Result<u16, Error> {
    if s.len() < FRAME_LEN {
        Err(Error::IncompletePacket)
    } else if s[0] != START_BYTE {
        Err(Error::WrongStartByte)
    } else if s[8] != checksum(s.subrange(1, 8)) {
        Err(Error::WrongChecksum)
    } else {
        Ok((s[2] * 256 + s[3]) as u16)
    }
}

/// The checksum of `buf`: one more than the complement of the wrapping sum of its bytes.
pub fn calc_checksum(buf: &[u8]) -> (r: u8)
    ensures
        r == checksum(buf@),
{
    let mut sum: u8 = 0;
    let mut i: usize = 0;
    while i < buf.len()
        invariant
            i <= buf.len(),
            sum == byte_sum(buf@.take(i as int)) % 256,
        decreases buf.len() - i,
    {
        assert(buf@.take(i + 1).drop_last() =~= buf@.take(i as int));
        sum = sum.wrapping_add(buf[i]);
        i += 1;
    }
    assert(buf@.take(i as int) =~= buf@);
    1u8.wrapping_add(0xff - sum)
}

/// Checks a response frame and reads the concentration out of it.
pub fn parse_data(buf: &[u8]) -> (r: Result<u16, Error>)
    ensures
        r == parsed(buf@),
{
    if buf.len() < 9 {
        Err(Error::IncompletePacket)
    } else if buf[0] != 0xff {
        Err(Error::WrongStartByte)
    } else if buf[8] != calc_checksum(&buf[1..8]) {
        Err(Error::WrongChecksum)
    } else {
        let hi: u8 = buf[2];
        let lo: u8 = buf[3];
        assert((((hi as u16) << 8) | (lo as u16)) == hi * 256 + lo) by (bit_vector);
        Ok(((hi as u16) << 8) | (lo as u16))
    }
}

/// Up to nine received bytes, in the order in which they arrived, in a `heapless::Vec`.
#[verifier::external_body]
pub struct ResponseBuffer {
    inner: heapless::Vec<u8, U9>,
}

/// The bytes that a response buffer holds, first received first.
pub uninterp spec fn response_bytes(b: ResponseBuffer) -> Seq<u8>;

impl View for ResponseBuffer {
    type V = Seq<u8>;

    open spec fn view(&self) -> Seq<u8> {
        response_bytes(*self)
    }
}

impl ResponseBuffer {
    /// `heapless::Vec::new`: a vector that holds nothing.
    #[verifier::external_body]
    pub(crate) fn empty() -> (r: ResponseBuffer)
        ensures
            response_bytes(r) == Seq::<u8>::empty(),
    {
        ResponseBuffer { inner: heapless::Vec::new() }
    }

    /// `heapless::Vec::push`: appends the byte while fewer than nine are held, and hands it
    /// back, leaving the vector as it was, once nine are.
    #[verifier::external_body]
    pub(crate) fn append(&mut self, byte: u8) -> (r: Result<(), u8>)
        ensures
            response_bytes(*old(self)).len() < FRAME_LEN ==> r is Ok && response_bytes(
                *final(self),
            ) == response_bytes(*old(self)).push(byte),
            response_bytes(*old(self)).len() >= FRAME_LEN ==> (r matches Err(back) && back == byte)
                && response_bytes(*final(self)) == response_bytes(*old(self)),
    {
        self.inner.push(byte)
    }

    /// `heapless::Vec::extend_from_slice`: appends all of `other` where the total stays within
    /// nine bytes, and otherwise fails and changes nothing.
    #[verifier::external_body]
    pub(crate) fn extend(&mut self, other: &[u8]) -> (r: Result<(), ()>)
        ensures
            response_bytes(*old(self)).len() + other@.len() <= FRAME_LEN ==> r is Ok
                && response_bytes(*final(self)) == response_bytes(*old(self)) + other@,
            response_bytes(*old(self)).len() + other@.len() > FRAME_LEN ==> r is Err
                && response_bytes(*final(self)) == response_bytes(*old(self)),
    {
        self.inner.extend_from_slice(other)
    }

    /// The `Deref` of `heapless::Vec`: the held bytes as a slice, never more than nine.
    #[verifier::external_body]
    pub(crate) fn as_slice(&self) -> (r: &[u8])
        ensures
            r@ == response_bytes(*self),
            r@.len() <= FRAME_LEN,
    {
        &self.inner
    }
}

impl ResponseBuffer {
    /// Number of bytes held.
    pub fn len(&self) -> (r: usize)
        ensures
            r == self@.len(),
            r <= FRAME_LEN,
    {
        self.as_slice().len()
    }

    /// The held bytes, first received first.
    pub fn to_vec(&self) -> (r: Vec<u8>)
        ensures
            r@ == self@,
    {
        let bytes = self.as_slice();
        let mut out: Vec<u8> = Vec::new();
        let mut i: usize = 0;
        while i < bytes.len()
            invariant
                i <= bytes.len(),
                out@ == bytes@.take(i as int),
            decreases bytes.len() - i,
        {
            out.push(bytes[i]);
            i += 1;
            assert(out@ =~= bytes@.take(i as int));
        }
        assert(bytes@.take(i as int) =~= bytes@);
        out
    }
}

/// Opens an exchange: stale bytes are discarded from the receive buffer, and the
/// command to put on the wire is handed back.
pub fn request_reading(rx: &mut RingBuffer<u8>) -> (command: [u8; 9])
    ensures
        final(rx)@ == Seq::<u8>::empty(),
        command == READ_COMMAND,
{
    rx.clear();
    READ_COMMAND
}

/// The reference tick of an exchange after it has seen the tick `now`. A reference
/// ahead of `now` means that the tick counter has wrapped: the wait starts afresh.
pub open spec fn rebased(start: u32, now: u32) -> u32 {
    if start > now {
        now
    } else {
        start
    }
}

/// Whether an exchange with reference tick `start` has waited too long at tick `now`.
pub open spec fn timed_out(start: u32, now: u32) -> bool {
    now - rebased(start, now) > TIMEOUT_TICKS
}

/// What an exchange yields once it holds `bytes` at tick `now`: the parsed frame when
/// all nine bytes are in, a timeout when the wait has been too long, nothing yet
/// otherwise.
pub open spec fn outcome(bytes: Seq<u8>, start: u32, now: u32) -> Option<Result<u16, Error>> {
    if bytes.len() == FRAME_LEN {
        Some(parsed(bytes))
    } else if timed_out(start, now) {
        Some(Err(Error::Timeout))
    } else {
        None
    }
}

/// A request that has been sent and whose response is being collected.
pub struct Exchange {
    buf: ResponseBuffer,
    start_time: u32,
}

impl Exchange {
    /// The response bytes collected so far.
    pub closed spec fn collected(&self) -> Seq<u8> {
        self.buf@
    }

    /// The tick from which the wait is measured.
    pub closed spec fn reference_tick(&self) -> u32 {
        self.start_time
    }

    /// Starts the wait for a response at tick `now`.
    pub fn begin(now: u32) -> (r: Exchange)
        ensures
            r.collected() == Seq::<u8>::empty(),
            r.reference_tick() == now,
    {
        Exchange { buf: ResponseBuffer::empty(), start_time: now }
    }

    /// Number of response bytes collected so far.
    pub fn len(&self) -> (r: usize)
        ensures
            r == self.collected().len(),
            r <= FRAME_LEN,
    {
        self.buf.as_slice().len()
    }

    /// Takes in the bytes drained from the receive buffer and the current tick, and
    /// says whether the exchange is over.
    pub fn poll(&mut self, received: &ResponseBuffer, now: u32) -> (r: Option<Result<u16, Error>>)
        requires
            old(self).collected().len() + received@.len() <= FRAME_LEN,
        ensures
            final(self).collected() == old(self).collected() + received@,
            final(self).reference_tick() == rebased(old(self).reference_tick(), now),
            r == outcome(final(self).collected(), old(self).reference_tick(), now),
    {
        let extended = self.buf.extend(received.as_slice());
        assert(extended is Ok);

        if self.start_time > now {
            // the tick counter wrapped around
            self.start_time = now;
        }
        if self.buf.as_slice().len() == 9 {
            Some(parse_data(self.buf.as_slice()))
        } else if now - self.start_time > TIMEOUT_TICKS {
            Some(Err(Error::Timeout))
        } else {
            None
        }
    }
}

/// Replacing one byte of a sequence moves its sum by the difference of the two bytes.
proof fn lemma_byte_sum_update(s: Seq<u8>, i: int, v: u8)
    requires
        0 <= i < s.len(),
    ensures
        byte_sum(s.update(i, v)) == byte_sum(s) - s[i] + v,
    decreases s.len(),
{
    if i == s.len() - 1 {
        assert(s.update(i, v).drop_last() =~= s.drop_last());
    } else {
        assert(s.update(i, v).drop_last() =~= s.drop_last().update(i, v));
        lemma_byte_sum_update(s.drop_last(), i, v);
    }
}

/// A frame made of the start byte, any seven payload bytes and their checksum is
/// accepted, and yields the big-endian value of its second and third payload bytes.
pub proof fn lemma_checksum_validates(payload: Seq<u8>)
    requires
        payload.len() == 7,
    ensures
        parsed(seq![START_BYTE] + payload + seq![checksum(payload)]) == Ok::<u16, Error>(
            (payload[1] * 256 + payload[2]) as u16,
        ),
{
    let frame = seq![START_BYTE] + payload + seq![checksum(payload)];
    assert(frame.subrange(1, 8) =~= payload);
}

/// A frame that is accepted is rejected once any one of its bytes is changed.
pub proof fn lemma_corrupted_byte_is_detected(frame: Seq<u8>, i: int, v: u8)
    requires
        frame.len() == FRAME_LEN,
        parsed(frame) is Ok,
        0 <= i < FRAME_LEN,
        v != frame[i],
    ensures
        parsed(frame.update(i, v)) is Err,
{
    let damaged = frame.update(i, v);
    if 1 <= i < 8 {
        let body = frame.subrange(1, 8);
        assert(damaged.subrange(1, 8) =~= body.update(i - 1, v));
        lemma_byte_sum_update(body, i - 1, v);
    } else {
        assert(damaged.subrange(1, 8) =~= frame.subrange(1, 8));
    }
}

/// A frame that is accepted is rejected once any one of its bits is flipped.
pub proof fn lemma_flipped_bit_is_detected(frame: Seq<u8>, i: int, bit: u8)
    requires
        frame.len() == FRAME_LEN,
        parsed(frame) is Ok,
        0 <= i < FRAME_LEN,
        bit < 8,
    ensures
        parsed(frame.update(i, frame[i] ^ (1u8 << bit))) is Err,
{
    let byte = frame[i];
    assert(byte ^ (1u8 << bit) != byte) by (bit_vector)
        requires
            bit < 8,
    ;
    lemma_corrupted_byte_is_detected(frame, i, byte ^ (1u8 << bit));
}

/// A tick counter that has wrapped past the reference tick never makes an exchange
/// time out at that poll.
pub proof fn lemma_wrap_is_no_timeout(bytes: Seq<u8>, start: u32, now: u32)
    requires
        start > now,
    ensures
        !timed_out(start, now),
        outcome(bytes, start, now) != Some(Err::<u16, Error>(Error::Timeout)),
{
}

} // verus!
