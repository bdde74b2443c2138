//! The packets that report the rolling means over the radio.

use crate::radiohead_ask::{frame_symbols, Action, Phase, RadioHeadASK, Transmission};
use vstd::prelude::*;

verus! {

/// Address that stands for every node, as sender and as receiver.
pub const BROADCAST: u8 = 0xff;

/// Message id of a temperature report, in hundredths of a degree Celsius.
pub const TEMPERATURE_ID: u8 = 0xed;

/// Message id of a humidity report, in percent.
pub const HUMIDITY_ID: u8 = 0xee;

/// Message id of a CO2 report, in parts per million.
pub const CO2_ID: u8 = 0xef;

/// The two bytes that carry a 16-bit value, low byte first; a negative value goes in
/// two's complement.
pub open spec fn le_bytes(value: int) -> Seq<u8> {
    seq![(value % 256) as u8, ((value / 256) % 256) as u8]
}

/// A 16-bit value that a report can carry.
pub trait Measurement: Copy {
    /// The value as a number.
    spec fn value(self) -> int;

    /// The value as the 16 bits that stand for it.
    fn bits(self) -> (r: u16)
        ensures
            le_bytes(r as int) == le_bytes(self.value()),
    ;
}

impl Measurement for u16 {
    open spec fn value(self) -> int {
        self as int
    }

    fn bits(self) -> (r: u16) {
        self
    }
}

impl Measurement for i16 {
    open spec fn value(self) -> int {
        self as int
    }

    fn bits(self) -> (r: u16) {
        if self >= 0 {
            self as u16
        } else {
            (self as i32 + 0x1_0000) as u16
        }
    }
}

/// The payload of a report of `value`.
pub fn num_to_bytes<T: Measurement>(value: T) -> (r: [u8; 2])
    ensures
        r@ == le_bytes(value.value()),
{
    let bits: u16 = value.bits();
    assert((bits & 0xff) == bits % 256 && (bits >> 8) == bits / 256) by (bit_vector);
    let r: [u8; 2] = [(bits & 0xff) as u8, (bits >> 8) as u8];
    assert(r@ =~= le_bytes(bits as int));
    r
}

/// Queues a broadcast report of `value` under the message id `id`.
pub fn send_radio_packet<T: Measurement>(radio: &mut RadioHeadASK, id: u8, value: T) -> (action:
    Action)
    ensures
        final(radio)@ == (Transmission {
            symbols: frame_symbols(BROADCAST, BROADCAST, id, 0, le_bytes(value.value())),
            phase: Phase::Starting,
            position: 0,
        }),
        action == final(radio)@.pending(),
{
    let payload = num_to_bytes(value);
    radio.send_packet(0xff, 0xff, id, 0, payload.as_slice())
}

} // verus!
