//! Control plane of an environmental telemetry node: the receive ring buffer,
//! the CO2 sensor exchange, the rolling sensor history, the tick scheduler and
//! the ASK radio frame encoder.

pub mod history;
pub mod mhz19b;
pub mod radiohead_ask;
pub mod ringbuffer;
pub mod sensors;
pub mod syscalls;
pub mod system;
pub mod telemetry;
pub mod ui;
