//! What the display shows of the shared state. Laying the text out and drawing it is the
//! display driver's part.

use crate::sensors::quotient;
use crate::system::SystemData;
use vstd::prelude::*;

verus! {

/// The radio icon is shown while fewer than this many ticks have passed since the
/// transmit counter last started again.
pub const RADIO_ICON_TICKS: u32 = 10;

/// What the display shows for each channel, and whether it shows the radio icon. A
/// channel whose last read failed shows an error mark in place of its mean.
pub struct Screen {
    /// Whole degrees and hundredths of the mean temperature.
    pub temperature: Option<(i16, i16)>,
    /// Mean humidity in percent.
    pub humidity: Option<u16>,
    /// Mean CO2 concentration in parts per million.
    pub co2: Option<u16>,
    pub radio_icon: bool,
}

/// The screen that shows `data`.
pub open spec fn screen_of(data: SystemData) -> Screen {
    let t = data.sensors.avgs.temperature as int;
    Screen {
        temperature: if data.errors.temperature {
            None
        } else {
            Some((quotient(t, 100) as i16, (t - 100 * quotient(t, 100)) as i16))
        },
        humidity: if data.errors.humidity {
            None
        } else {
            Some(data.sensors.avgs.humidity)
        },
        co2: if data.errors.co2 {
            None
        } else {
            Some(data.sensors.avgs.co2)
        },
        radio_icon: data.ticks_since_last_tx < RADIO_ICON_TICKS,
    }
}

/// Decides what the display shows of the shared state.
pub fn draw(system_data: &SystemData) -> (screen: Screen)
    ensures
        screen == screen_of(*system_data),
{
    let temperature = if system_data.errors.temperature {
        None
    } else {
        let t: i16 = system_data.sensors.avgs.temperature;
        let t_int: i16 = t / 100;
        let t_dec: i16 = t % 100;
        Some((t_int, t_dec))
    };
    let humidity = if system_data.errors.humidity {
        None
    } else {
        Some(system_data.sensors.avgs.humidity)
    };
    let co2 = if system_data.errors.co2 {
        None
    } else {
        Some(system_data.sensors.avgs.co2)
    };
    Screen { temperature, humidity, co2, radio_icon: system_data.ticks_since_last_tx < 10 }
}

} // verus!
