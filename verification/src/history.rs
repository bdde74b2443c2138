//! Fixed-depth rolling history of one sensor channel.

use heapless::consts::U8;
use heapless::HistoryBuffer;
use vstd::prelude::*;

verus! {

/// Number of samples that a history keeps.
pub const HISTORY_DEPTH: usize = 8;

/// The eight most recent samples of one channel, in the circular backing array of a
/// `heapless::HistoryBuffer`. A sample is kept as a 32-bit integer, wide enough for a
/// signed and for an unsigned 16-bit reading.
#[verifier::external_body]
pub struct SensorHistory {
    inner: HistoryBuffer<i32, U8>,
}

/// The backing array of a history, in storage order.
pub uninterp spec fn history_slots(h: SensorHistory) -> Seq<i32>;

/// The index in the backing array that the next write goes to.
pub uninterp spec fn history_cursor(h: SensorHistory) -> int;

/// Sum of the items of `s`.
pub open spec fn total(s: Seq<i32>) -> int
    decreases s.len(),
{
    if s.len() == 0 {
        0
    } else {
        total(s.drop_last()) + s.last()
    }
}

/// The write position that follows `cursor`: one slot on, and slot 0 behind the last slot.
pub open spec fn advanced(cursor: int) -> int {
    if cursor + 1 == HISTORY_DEPTH {
        0
    } else {
        cursor + 1
    }
}

impl SensorHistory {
    /// The backing array has the full depth and the write position lies in it.
    pub open spec fn wf(&self) -> bool {
        &&& history_slots(*self).len() == HISTORY_DEPTH
        &&& 0 <= history_cursor(*self) < HISTORY_DEPTH
    }

    /// The samples from the oldest to the most recent.
    pub open spec fn samples(&self) -> Seq<i32> {
        Seq::new(
            HISTORY_DEPTH as nat,
            |j: int| history_slots(*self)[(history_cursor(*self) + j) % (HISTORY_DEPTH as int)],
        )
    }

    /// `HistoryBuffer::new_with`: every slot holds `t`, and the first write goes to slot 0.
    #[verifier::external_body]
    pub(crate) fn new_with(t: i32) -> (r: SensorHistory)
        ensures
            history_slots(r) == Seq::new(HISTORY_DEPTH as nat, |i: int| t),
            history_cursor(r) == 0,
    {
        SensorHistory { inner: HistoryBuffer::new_with(t) }
    }

    /// `HistoryBuffer::write`: stores `t` at the write position, which then moves one slot on,
    /// and from the last slot back to slot 0.
    #[verifier::external_body]
    pub(crate) fn write(&mut self, t: i32)
        ensures
            history_slots(*final(self)) == history_slots(*old(self)).update(
                history_cursor(*old(self)),
                t,
            ),
            history_cursor(*final(self)) == advanced(history_cursor(*old(self))),
    {
        self.inner.write(t)
    }

    /// `HistoryBuffer::as_slice`: the backing array of eight slots, as it is stored.
    #[verifier::external_body]
    pub(crate) fn as_slice(&self) -> (r: &[i32])
        ensures
            r@ == history_slots(*self),
            r@.len() == HISTORY_DEPTH,
    {
        self.inner.as_slice()
    }

    /// Sum of all the slots, written or not.
    pub fn sum(&self) -> (r: i64)
        ensures
            r == total(history_slots(*self)),
    {
        let slots = self.as_slice();
        let mut acc: i64 = 0;
        let mut i: usize = 0;
        while i < slots.len()
            invariant
                i <= slots.len() == HISTORY_DEPTH,
                acc == total(slots@.take(i as int)),
                -0x8000_0000 * i <= acc <= 0x8000_0000 * i,
            decreases slots.len() - i,
        {
            assert(slots@.take(i + 1).drop_last() =~= slots@.take(i as int));
            acc = acc + slots[i] as i64;
            i += 1;
        }
        assert(slots@.take(i as int) =~= slots@);
        acc
    }
}

/// How a history changes with the outcome of one read: a sample takes the place of the
/// oldest one, and a failed read leaves the history as it was.
pub open spec fn recorded(before: SensorHistory, after: SensorHistory, sample: Option<i32>) -> bool {
    match sample {
        Some(d) => {
            &&& history_slots(after) == history_slots(before).update(history_cursor(before), d)
            &&& history_cursor(after) == advanced(history_cursor(before))
        },
        None => after == before,
    }
}

/// The sample that the outcome of a read carries, if it carries one.
pub open spec fn sample_of<E>(data: Result<i32, E>) -> Option<i32> {
    match data {
        Ok(d) => Some(d),
        Err(_) => None,
    }
}

/// Records the outcome of one read of a channel: a sample enters the history, in place of
/// the oldest one, and clears the error flag; a failure leaves the history alone and raises
/// the flag.
pub fn write_value<E>(history: &mut SensorHistory, error_flag: &mut bool, data: Result<i32, E>)
    ensures
        recorded(*old(history), *final(history), sample_of(data)),
        *final(error_flag) == data is Err,
{
    match data {
        Ok(d) => {
            history.write(d);
            *error_flag = false;
        },
        Err(_) => {
            *error_flag = true;
        },
    }
}

/// A recorded sample becomes the most recent one, the oldest sample leaves, and the others
/// keep their order.
pub proof fn lemma_recorded_drops_oldest(before: SensorHistory, after: SensorHistory, d: i32)
    requires
        before.wf(),
        recorded(before, after, Some(d)),
    ensures
        after.wf(),
        after.samples() == before.samples().drop_first().push(d),
{
    assert(after.samples() =~= before.samples().drop_first().push(d));
}

} // verus!
