//! The accesses that interrupt handlers and the main loop make to the shared state. Each
//! is meant to run inside the critical section that guards the state it is handed.

use crate::mhz19b::{ResponseBuffer, FRAME_LEN};
use crate::ringbuffer::{pushed, RingBuffer};
use crate::system::SystemData;
use vstd::prelude::*;

verus! {

/// The current value of the tick counter.
pub fn get_current_ticks(data: &SystemData) -> (ticks: u32)
    ensures
        ticks == data.ticks_since_reset,
{
    data.ticks_since_reset
}

/// Queues a byte that the serial receiver has taken in.
pub fn uart_buffer_push(buffer: &mut RingBuffer<u8>, c: u8)
    ensures
        final(buffer)@ == pushed(old(buffer)@, c),
{
    assert(c & 0xff == c) by (bit_vector);
    buffer.push(c & 0xff);
}

/// Number of bytes that one drain takes out of a receive buffer that holds `held`.
pub open spec fn drained(held: nat) -> nat {
    if held < FRAME_LEN {
        held
    } else {
        FRAME_LEN as nat
    }
}

/// Takes the oldest bytes out of the receive buffer, up to the length of a frame.
pub fn uart_buffer_pop(buffer: &mut RingBuffer<u8>) -> (r: ResponseBuffer)
    ensures
        r@ == old(buffer)@.take(drained(old(buffer)@.len()) as int),
        final(buffer)@ == old(buffer)@.skip(drained(old(buffer)@.len()) as int),
{
    let mut out = ResponseBuffer::empty();
    let mut taken: usize = 0;
    assert(buffer@ =~= old(buffer)@.skip(0));
    assert(out@ =~= old(buffer)@.take(0));
    while taken < FRAME_LEN
        invariant
            taken <= FRAME_LEN,
            taken <= old(buffer)@.len(),
            out@ == old(buffer)@.take(taken as int),
            buffer@ == old(buffer)@.skip(taken as int),
        ensures
            out@ == old(buffer)@.take(taken as int),
            buffer@ == old(buffer)@.skip(taken as int),
            taken == drained(old(buffer)@.len()),
        decreases FRAME_LEN - taken,
    {
        match buffer.pop() {
            Some(byte) => {
                let appended = out.append(byte);
                assert(appended is Ok);
                taken += 1;
                assert(out@ =~= old(buffer)@.take(taken as int));
                assert(buffer@ =~= old(buffer)@.skip(taken as int));
            },
            None => {
                break ;
            },
        }
    }
    out
}

} // verus!
