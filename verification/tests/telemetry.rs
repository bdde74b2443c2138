use sensor_node::radiohead_ask::{Action, RadioHeadASK};
use sensor_node::telemetry::{
    num_to_bytes, send_radio_packet, BROADCAST, CO2_ID, HUMIDITY_ID, TEMPERATURE_ID,
};

#[test]
fn identifiers() {
    assert_eq!(BROADCAST, 0xff);
    assert_eq!(TEMPERATURE_ID, 0xed);
    assert_eq!(HUMIDITY_ID, 0xee);
    assert_eq!(CO2_ID, 0xef);
}

#[test]
fn unsigned_values_go_low_byte_first() {
    assert_eq!(num_to_bytes(0x1234u16), [0x34, 0x12]);
    assert_eq!(num_to_bytes(0u16), [0, 0]);
    assert_eq!(num_to_bytes(0xffffu16), [0xff, 0xff]);
    assert_eq!(num_to_bytes(400u16), 400u16.to_le_bytes());
}

#[test]
fn signed_values_go_in_twos_complement() {
    assert_eq!(num_to_bytes(2150i16), [0x66, 0x08]);
    assert_eq!(num_to_bytes(-1i16), [0xff, 0xff]);
    assert_eq!(num_to_bytes(-2i16), [0xfe, 0xff]);
    assert_eq!(num_to_bytes(i16::MIN), [0x00, 0x80]);
    for v in [-32768i16, -12345, -256, -255, -1, 0, 1, 255, 256, 32767] {
        assert_eq!(num_to_bytes(v), v.to_le_bytes());
    }
}

#[test]
fn a_report_is_a_broadcast_packet_of_two_bytes() {
    let mut by_report = RadioHeadASK::new();
    let mut by_hand = RadioHeadASK::new();
    let a = send_radio_packet(&mut by_report, TEMPERATURE_ID, 0x0201i16);
    let b = by_hand.send_packet(0xff, 0xff, 0xed, 0, &[0x01, 0x02]);
    assert_eq!(a, Action::StartTimer { hz: 2000 });
    assert_eq!(a, b);
    let mut a = by_report.advance(sensor_node::radiohead_ask::Event::TimerStarted);
    let mut b = by_hand.advance(sensor_node::radiohead_ask::Event::TimerStarted);
    let mut steps = 0;
    while a != Action::Finish(Ok(())) {
        assert_eq!(a, b);
        let event = match a {
            Action::SetPin { .. } => sensor_node::radiohead_ask::Event::PinSet,
            _ => sensor_node::radiohead_ask::Event::PeriodElapsed,
        };
        a = by_report.advance(event);
        b = by_hand.advance(event);
        steps += 1;
    }
    assert_eq!(b, Action::Finish(Ok(())));
    assert_eq!(steps, 26 * 6 * 2 + 1);
}
