//! The state shared by the timer interrupt and the main loop, and the tick scheduler
//! that raises the two requests for work.

use crate::history::{recorded, write_value};
use crate::sensors::{mean, ErrorData, SensorData};
use vstd::prelude::*;

verus! {

/// A tick that finds more than this many ticks since the last transmission asks for one.
pub const TICKS_UNTIL_RADIO_TX: u32 = 50;

/// A tick that finds more than this many ticks since the last read asks for one.
pub const TICKS_UNTIL_SENSOR_READ: u32 = 10;

/// Everything that the timer interrupt, the main loop and the display share.
pub struct SystemData {
    /// Ticks since start-up; wraps around.
    pub ticks_since_reset: u32,
    pub ticks_since_last_tx: u32,
    pub ticks_since_last_read: u32,
    /// A transmission is due; stays raised until the main loop has made it.
    pub send_tx_now: bool,
    /// A read cycle is due; stays raised until the main loop has made it.
    pub read_sensors_now: bool,
    pub sensors: SensorData,
    pub errors: ErrorData,
}

/// A cooldown counter after one tick: back to zero from above its threshold, else one more.
pub open spec fn cooled(count: u32, threshold: u32) -> u32 {
    if count > threshold {
        0
    } else {
        (count + 1) as u32
    }
}

/// The sample that a temperature read carries, if any.
pub open spec fn signed_sample<E>(data: Result<i16, E>) -> Option<i32> {
    match data {
        Ok(d) => Some(d as i32),
        Err(_) => None,
    }
}

/// The sample that a humidity or CO2 read carries, if any.
pub open spec fn unsigned_sample<E>(data: Result<u16, E>) -> Option<i32> {
    match data {
        Ok(d) => Some(d as i32),
        Err(_) => None,
    }
}

/// The cycle count after one more read cycle: it stops at the depth of a history.
pub open spec fn counted(num_points: u8) -> u8 {
    if num_points < 8 {
        (num_points + 1) as u8
    } else {
        8
    }
}

fn widen_signed<E>(data: Result<i16, E>) -> (r: Result<i32, E>)
    ensures
        crate::history::sample_of(r) == signed_sample(data),
        r is Err == data is Err,
{
    match data {
        Ok(d) => Ok(d as i32),
        Err(e) => Err(e),
    }
}

fn widen_unsigned<E>(data: Result<u16, E>) -> (r: Result<i32, E>)
    ensures
        crate::history::sample_of(r) == unsigned_sample(data),
        r is Err == data is Err,
{
    match data {
        Ok(d) => Ok(d as i32),
        Err(e) => Err(e),
    }
}

impl SystemData {
    /// The state at start-up: all counters at zero, nothing requested, every history
    /// zero-filled with no cycle counted and all means at zero, and no channel in error.
    pub fn new() -> (r: SystemData)
        ensures
            r.ticks_since_reset == 0,
            r.ticks_since_last_tx == 0,
            r.ticks_since_last_read == 0,
            !r.send_tx_now,
            !r.read_sensors_now,
            r.sensors.fresh(),
            r.sensors.wf(),
            !r.errors.temperature && !r.errors.humidity && !r.errors.co2,
    {
        SystemData {
            ticks_since_reset: 0,
            ticks_since_last_tx: 0,
            ticks_since_last_read: 0,
            send_tx_now: false,
            read_sensors_now: false,
            sensors: SensorData::new(),
            errors: ErrorData::new(),
        }
    }

    /// The state after one firing of the periodic timer.
    pub open spec fn ticked(self) -> SystemData {
        SystemData {
            ticks_since_reset: if self.ticks_since_reset == u32::MAX {
                0
            } else {
                (self.ticks_since_reset + 1) as u32
            },
            ticks_since_last_tx: cooled(self.ticks_since_last_tx, TICKS_UNTIL_RADIO_TX),
            ticks_since_last_read: cooled(self.ticks_since_last_read, TICKS_UNTIL_SENSOR_READ),
            send_tx_now: self.send_tx_now || self.ticks_since_last_tx > TICKS_UNTIL_RADIO_TX,
            read_sensors_now: self.read_sensors_now || self.ticks_since_last_read
                > TICKS_UNTIL_SENSOR_READ,
            sensors: self.sensors,
            errors: self.errors,
        }
    }

    /// The state after `n` firings of the periodic timer with nothing in between.
    pub open spec fn ticked_n(self, n: nat) -> SystemData
        decreases n,
    {
        if n == 0 {
            self
        } else {
            self.ticked_n((n - 1) as nat).ticked()
        }
    }

    /// One firing of the periodic timer: the tick counter advances, and each cooldown
    /// counter either advances or, from above its threshold, starts again and raises its
    /// request.
    pub fn tick(&mut self)
        ensures
            *final(self) == old(self).ticked(),
    {
        self.ticks_since_reset = self.ticks_since_reset.wrapping_add(1);

        if self.ticks_since_last_tx > TICKS_UNTIL_RADIO_TX {
            self.ticks_since_last_tx = 0;
            self.send_tx_now = true;
        } else {
            self.ticks_since_last_tx += 1;
        }

        if self.ticks_since_last_read > TICKS_UNTIL_SENSOR_READ {
            self.ticks_since_last_read = 0;
            self.read_sensors_now = true;
        } else {
            self.ticks_since_last_read += 1;
        }
    }

    /// Withdraws the request to transmit, once the reports have gone out.
    pub fn clear_tx_request(&mut self)
        ensures
            *final(self) == (SystemData { send_tx_now: false, ..*old(self) }),
    {
        self.send_tx_now = false;
    }

    /// Closes a read cycle with the outcome of the three reads: each channel takes its
    /// sample or raises its error flag, the cycle is counted, the means are recomputed and
    /// the request for a read is withdrawn.
    pub fn record_readings<E1, E2, E3>(
        &mut self,
        temperature: Result<i16, E1>,
        humidity: Result<u16, E2>,
        co2: Result<u16, E3>,
    )
        requires
            old(self).sensors.wf(),
        ensures
            final(self).sensors.wf(),
            !final(self).read_sensors_now,
            final(self).send_tx_now == old(self).send_tx_now,
            final(self).ticks_since_reset == old(self).ticks_since_reset,
            final(self).ticks_since_last_tx == old(self).ticks_since_last_tx,
            final(self).ticks_since_last_read == old(self).ticks_since_last_read,
            recorded(
                old(self).sensors.temperature,
                final(self).sensors.temperature,
                signed_sample(temperature),
            ),
            recorded(
                old(self).sensors.humidity,
                final(self).sensors.humidity,
                unsigned_sample(humidity),
            ),
            recorded(old(self).sensors.co2, final(self).sensors.co2, unsigned_sample(co2)),
            final(self).errors.temperature == temperature is Err,
            final(self).errors.humidity == humidity is Err,
            final(self).errors.co2 == co2 is Err,
            final(self).sensors.num_points == counted(old(self).sensors.num_points),
            final(self).sensors.avgs.temperature == mean(
                final(self).sensors.temperature,
                final(self).sensors.num_points,
            ),
            final(self).sensors.avgs.humidity == mean(
                final(self).sensors.humidity,
                final(self).sensors.num_points,
            ),
            final(self).sensors.avgs.co2 == mean(
                final(self).sensors.co2,
                final(self).sensors.num_points,
            ),
    {
        self.read_sensors_now = false;

        write_value(
            &mut self.sensors.temperature,
            &mut self.errors.temperature,
            widen_signed(temperature),
        );
        write_value(&mut self.sensors.humidity, &mut self.errors.humidity, widen_unsigned(humidity));
        write_value(&mut self.sensors.co2, &mut self.errors.co2, widen_unsigned(co2));
        if self.sensors.num_points < 8 {
            self.sensors.num_points = self.sensors.num_points + 1;
        } else {
            self.sensors.num_points = 8;
        }
        self.sensors.recalc_averages();
    }
}

/// Timing of the request to transmit: from a counter at or below the threshold, the request
/// is left as it was while the counter climbs past the threshold, and is raised, with the
/// counter back at zero, by the first tick that finds the counter above the threshold.
/// From a counter at zero that is the tick after `TICKS_UNTIL_RADIO_TX + 1` ticks.
pub proof fn lemma_tx_request_schedule(s: SystemData, n: nat)
    requires
        s.ticks_since_last_tx <= TICKS_UNTIL_RADIO_TX + 1,
        n <= TICKS_UNTIL_RADIO_TX + 2 - s.ticks_since_last_tx,
    ensures
        n < TICKS_UNTIL_RADIO_TX + 2 - s.ticks_since_last_tx ==> s.ticked_n(n).ticks_since_last_tx
            == s.ticks_since_last_tx + n && s.ticked_n(n).send_tx_now == s.send_tx_now,
        n == TICKS_UNTIL_RADIO_TX + 2 - s.ticks_since_last_tx ==> s.ticked_n(
            n,
        ).ticks_since_last_tx == 0 && s.ticked_n(n).send_tx_now,
    decreases n,
{
    if n > 0 {
        lemma_tx_request_schedule(s, (n - 1) as nat);
    }
}

/// Timing of the request to read the sensors, as for the request to transmit.
pub proof fn lemma_read_request_schedule(s: SystemData, n: nat)
    requires
        s.ticks_since_last_read <= TICKS_UNTIL_SENSOR_READ + 1,
        n <= TICKS_UNTIL_SENSOR_READ + 2 - s.ticks_since_last_read,
    ensures
        n < TICKS_UNTIL_SENSOR_READ + 2 - s.ticks_since_last_read ==> s.ticked_n(
            n,
        ).ticks_since_last_read == s.ticks_since_last_read + n && s.ticked_n(n).read_sensors_now
            == s.read_sensors_now,
        n == TICKS_UNTIL_SENSOR_READ + 2 - s.ticks_since_last_read ==> s.ticked_n(
            n,
        ).ticks_since_last_read == 0 && s.ticked_n(n).read_sensors_now,
    decreases n,
{
    if n > 0 {
        lemma_read_request_schedule(s, (n - 1) as nat);
    }
}

/// A request that is raised stays raised through any number of ticks, and ticks leave the
/// sensor data alone.
pub proof fn lemma_ticks_keep_requests(s: SystemData, n: nat)
    ensures
        s.send_tx_now ==> s.ticked_n(n).send_tx_now,
        s.read_sensors_now ==> s.ticked_n(n).read_sensors_now,
        s.ticked_n(n).sensors == s.sensors,
        s.ticked_n(n).errors == s.errors,
    decreases n,
{
    if n > 0 {
        lemma_ticks_keep_requests(s, (n - 1) as nat);
    }
}

} // verus!
