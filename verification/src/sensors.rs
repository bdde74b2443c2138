//! The three sensor channels: their histories, their error flags and their rolling means.

use crate::history::{history_cursor, history_slots, total, SensorHistory, HISTORY_DEPTH};
use vstd::prelude::*;

verus! {

/// Last computed mean of each channel.
pub struct Averages {
    /// Hundredths of a degree Celsius.
    pub temperature: i16,
    /// Percent of relative humidity.
    pub humidity: u16,
    /// Parts per million.
    pub co2: u16,
}

impl Averages {
    /// All means at zero.
    pub fn new() -> (r: Averages)
        ensures
            r.temperature == 0,
            r.humidity == 0,
            r.co2 == 0,
    {
        Averages { temperature: 0, humidity: 0, co2: 0 }
    }
}

/// Whether the most recent read of each channel failed.
pub struct ErrorData {
    pub temperature: bool,
    pub humidity: bool,
    pub co2: bool,
}

impl ErrorData {
    /// No channel in error.
    pub fn new() -> (r: ErrorData)
        ensures
            !r.temperature,
            !r.humidity,
            !r.co2,
    {
        ErrorData { temperature: false, humidity: false, co2: false }
    }
}

/// Relative humidity in whole percent, from a reading in tenths of a percent.
pub fn humidity_percent(tenths: u16) -> (percent: u16)
    ensures
        percent == tenths / 10,
{
    tenths / 10
}

/// `total` divided by `n`, rounded towards zero.
pub open spec fn quotient(total: int, n: int) -> int {
    if total >= 0 {
        total / n
    } else {
        -((-total) / n)
    }
}

/// The mean that is reported for a channel: the sum of all its slots, written or not, over
/// the number of read cycles counted so far.
pub open spec fn mean(h: SensorHistory, num_points: u8) -> int {
    quotient(total(history_slots(h)), num_points as int)
}

/// A channel of samples between `lo` and `hi` after `cycles` read cycles: until the history
/// is full, no more samples were written than cycles have passed, and the slots behind the
/// write position still hold their initial zero.
pub open spec fn channel_wf(h: SensorHistory, lo: int, hi: int, cycles: int) -> bool {
    &&& h.wf()
    &&& forall|i: int| 0 <= i < HISTORY_DEPTH ==> lo <= #[trigger] history_slots(h)[i] <= hi
    &&& cycles < HISTORY_DEPTH ==> {
        &&& history_cursor(h) <= cycles
        &&& forall|i: int|
            history_cursor(h) <= i < HISTORY_DEPTH ==> #[trigger] history_slots(h)[i] == 0
    }
}

/// The histories of the three channels, the number of read cycles behind them, and their
/// means.
pub struct SensorData {
    pub temperature: SensorHistory,
    pub humidity: SensorHistory,
    pub co2: SensorHistory,
    /// Read cycles counted so far, at most the depth of a history.
    pub num_points: u8,
    pub avgs: Averages,
}

impl SensorData {
    /// The cycle count is within the depth, and each channel is consistent with it:
    /// temperature within 16 signed bits, humidity and CO2 within 16 unsigned bits.
    pub open spec fn wf(&self) -> bool {
        &&& self.num_points <= HISTORY_DEPTH
        &&& channel_wf(self.temperature, i16::MIN as int, i16::MAX as int, self.num_points as int)
        &&& channel_wf(self.humidity, 0, u16::MAX as int, self.num_points as int)
        &&& channel_wf(self.co2, 0, u16::MAX as int, self.num_points as int)
    }

    /// The sensor data at start-up: every history holds eight zeros and takes its first
    /// sample in slot 0, no read cycle is counted, and all means are zero.
    pub open spec fn fresh(&self) -> bool {
        &&& self.num_points == 0
        &&& self.avgs.temperature == 0 && self.avgs.humidity == 0 && self.avgs.co2 == 0
        &&& history_slots(self.temperature) == Seq::new(HISTORY_DEPTH as nat, |i: int| 0i32)
        &&& history_slots(self.humidity) == Seq::new(HISTORY_DEPTH as nat, |i: int| 0i32)
        &&& history_slots(self.co2) == Seq::new(HISTORY_DEPTH as nat, |i: int| 0i32)
        &&& history_cursor(self.temperature) == 0
        &&& history_cursor(self.humidity) == 0
        &&& history_cursor(self.co2) == 0
    }

    /// Zero-filled histories, no cycle counted, all means at zero.
    pub fn new() -> (r: SensorData)
        ensures
            r.fresh(),
            r.wf(),
    {
        SensorData {
            temperature: SensorHistory::new_with(0),
            humidity: SensorHistory::new_with(0),
            co2: SensorHistory::new_with(0),
            avgs: Averages::new(),
            num_points: 0,
        }
    }

    /// Recomputes the mean of every channel: the sum of all eight slots over the number of
    /// read cycles counted, rounded towards zero.
    pub fn recalc_averages(&mut self)
        requires
            old(self).wf(),
            old(self).num_points > 0,
        ensures
            final(self).avgs.temperature == mean(old(self).temperature, old(self).num_points),
            final(self).avgs.humidity == mean(old(self).humidity, old(self).num_points),
            final(self).avgs.co2 == mean(old(self).co2, old(self).num_points),
            final(self).temperature == old(self).temperature,
            final(self).humidity == old(self).humidity,
            final(self).co2 == old(self).co2,
            final(self).num_points == old(self).num_points,
    {
        let n: i64 = self.num_points as i64;
        proof {
            lemma_mean_in_range(self.temperature, i16::MIN as int, i16::MAX as int, n as int);
            lemma_mean_in_range(self.humidity, 0, u16::MAX as int, n as int);
            lemma_mean_in_range(self.co2, 0, u16::MAX as int, n as int);
        }
        self.avgs.temperature = (self.temperature.sum() / n) as i16;
        self.avgs.humidity = (self.humidity.sum() / n) as u16;
        self.avgs.co2 = (self.co2.sum() / n) as u16;
    }
}

/// The sum of items that all lie between `lo` and `hi`.
proof fn lemma_total_bounds(s: Seq<i32>, lo: int, hi: int)
    requires
        forall|i: int| 0 <= i < s.len() ==> lo <= #[trigger] s[i] <= hi,
    ensures
        s.len() * lo <= total(s) <= s.len() * hi,
    decreases s.len(),
{
    if s.len() > 0 {
        lemma_total_bounds(s.drop_last(), lo, hi);
        let k = s.len() - 1;
        assert(s.len() * lo == k * lo + lo) by (nonlinear_arith)
            requires
                s.len() == k + 1,
        ;
        assert(s.len() * hi == k * hi + hi) by (nonlinear_arith)
            requires
                s.len() == k + 1,
        ;
    } else {
        assert(s.len() * lo == 0 && s.len() * hi == 0) by (nonlinear_arith)
            requires
                s.len() == 0,
        ;
    }
}

/// Zeros at the end of a sequence add nothing to its sum.
proof fn lemma_total_zero_tail(s: Seq<i32>, c: int)
    requires
        0 <= c <= s.len(),
        forall|i: int| c <= i < s.len() ==> #[trigger] s[i] == 0,
    ensures
        total(s) == total(s.take(c)),
    decreases s.len(),
{
    if c == s.len() {
        assert(s.take(c) =~= s);
    } else {
        assert(s.drop_last().take(c) =~= s.take(c));
        lemma_total_zero_tail(s.drop_last(), c);
    }
}

/// The mean of a consistent channel lies in the range of its samples.
pub proof fn lemma_mean_in_range(h: SensorHistory, lo: int, hi: int, n: int)
    requires
        channel_wf(h, lo, hi, n),
        0 < n <= HISTORY_DEPTH,
        lo <= 0 <= hi,
    ensures
        lo <= quotient(total(history_slots(h)), n) <= hi,
{
    let s = history_slots(h);
    let t = total(s);
    assert(n * lo <= t <= n * hi) by {
        if n < HISTORY_DEPTH {
            let c = history_cursor(h);
            lemma_total_zero_tail(s, c);
            lemma_total_bounds(s.take(c), lo, hi);
            assert(n * lo <= c * lo && c * hi <= n * hi) by (nonlinear_arith)
                requires
                    0 <= c <= n,
                    lo <= 0 <= hi,
            ;
        } else {
            lemma_total_bounds(s, lo, hi);
        }
    }
    if t >= 0 {
        assert(0 <= t / n <= hi) by (nonlinear_arith)
            requires
                0 <= t <= n * hi,
                0 < n,
        ;
    } else {
        assert(n * (-lo) == -(n * lo)) by (nonlinear_arith);
        assert(0 <= (-t) / n <= -lo) by (nonlinear_arith)
            requires
                0 <= -t <= n * (-lo),
                0 < n,
        ;
    }
}

} // verus!
