use sensor_node::radiohead_ask::{
    Action, Error, Event, RadioHeadASK, BIT_RATE_HZ, MAX_PAYLOAD, SYMBOLS,
};

/// Runs a transmission on hardware that does all that is asked of it, and hands back the
/// levels that the pin took, one per bit slot, followed by the level it was left at.
fn transmit(radio: &mut RadioHeadASK, first: Action) -> Vec<bool> {
    assert_eq!(first, Action::StartTimer { hz: 2000 });
    let mut levels = Vec::new();
    let mut action = radio.advance(Event::TimerStarted);
    let mut waits = 0;
    loop {
        match action {
            Action::SetPin { high } => {
                levels.push(high);
                action = radio.advance(Event::PinSet);
            }
            Action::WaitPeriod => {
                waits += 1;
                action = radio.advance(Event::PeriodElapsed);
            }
            Action::Finish(result) => {
                assert_eq!(result, Ok(()));
                break;
            }
            Action::StartTimer { .. } => panic!("the timer is started once"),
        }
    }
    assert_eq!(waits + 1, levels.len());
    levels
}

fn symbols_of(levels: &[bool]) -> Vec<u8> {
    assert_eq!(levels.len() % 6, 0);
    levels
        .chunks(6)
        .map(|bits| bits.iter().enumerate().fold(0u8, |s, (i, b)| s | ((*b as u8) << i)))
        .collect()
}

fn nibble_of(symbol: u8) -> u8 {
    SYMBOLS.iter().position(|s| *s == symbol).expect("a symbol of the code") as u8
}

fn bytes_of(symbols: &[u8]) -> Vec<u8> {
    assert_eq!(symbols.len() % 2, 0);
    symbols.chunks(2).map(|pair| (nibble_of(pair[0]) << 4) | nibble_of(pair[1])).collect()
}

fn reference_fcs(bytes: &[u8]) -> u16 {
    let mut fcs: u16 = 0xffff;
    for b in bytes {
        fcs ^= *b as u16;
        for _ in 0..8 {
            fcs = if fcs & 1 == 1 { (fcs >> 1) ^ 0x8408 } else { fcs >> 1 };
        }
    }
    fcs
}

fn sent_symbols(from: u8, to: u8, id: u8, flags: u8, payload: &[u8]) -> Vec<u8> {
    let mut radio = RadioHeadASK::new();
    let first = radio.send_packet(from, to, id, flags, payload);
    let mut levels = transmit(&mut radio, first);
    assert_eq!(levels.pop(), Some(false));
    symbols_of(&levels)
}

#[test]
fn constants() {
    assert_eq!(BIT_RATE_HZ, 2000);
    assert_eq!(MAX_PAYLOAD, 53);
    assert_eq!(
        SYMBOLS,
        [0xd, 0xe, 0x13, 0x15, 0x16, 0x19, 0x1a, 0x1c, 0x23, 0x25, 0x26, 0x29, 0x2a, 0x2c, 0x32, 0x34]
    );
}

#[test]
fn code_is_balanced_and_has_short_runs() {
    for s in SYMBOLS {
        assert!(s < 64);
        assert_eq!(s.count_ones(), 3);
    }
    for (i, a) in SYMBOLS.iter().enumerate() {
        for b in &SYMBOLS[i + 1..] {
            assert_ne!(a, b);
        }
    }
}

#[test]
fn a_new_transmitter_first_brings_the_pin_low() {
    let mut radio = RadioHeadASK::new();
    assert_eq!(radio.pending(), Action::SetPin { high: false });
    assert_eq!(radio.advance(Event::TimerStarted), Action::SetPin { high: false });
    assert_eq!(radio.advance(Event::PinSet), Action::Finish(Ok(())));
    assert_eq!(radio.advance(Event::PinFault), Action::Finish(Ok(())));
    assert_eq!(radio.pending(), Action::Finish(Ok(())));
}

#[test]
fn a_new_transmitter_fails_when_the_pin_cannot_go_low() {
    let mut radio = RadioHeadASK::new();
    assert_eq!(radio.advance(Event::PinFault), Action::Finish(Err(Error::Port)));
}

#[test]
fn encode_round_trip() {
    let symbols = sent_symbols(0xff, 0xff, 0xed, 0, &[0x01, 0x02]);
    assert_eq!(&symbols[..8], &[0x2a, 0x2a, 0x2a, 0x2a, 0x2a, 0x2a, 0x38, 0x2c]);
    let bytes = bytes_of(&symbols[8..]);
    assert_eq!(bytes[0], 2 + 7);
    assert_eq!(bytes.len(), 9);
    assert_eq!(&bytes[..7], &[9, 0xff, 0xff, 0xed, 0, 0x01, 0x02]);
    let sent_fcs = (bytes[7] as u16) | ((bytes[8] as u16) << 8);
    assert_eq!(sent_fcs, !reference_fcs(&bytes[..7]));
    assert_eq!(sent_fcs, 0xc0f6);
    // the frame check over the whole frame, its own two bytes included, is the fixed residue
    assert_eq!(reference_fcs(&bytes), 0xf0b8);
}

#[test]
fn exact_symbol_stream() {
    assert_eq!(
        sent_symbols(0xff, 0xff, 0xed, 0, &[0x01, 0x02]),
        vec![
            0x2a, 0x2a, 0x2a, 0x2a, 0x2a, 0x2a, 0x38, 0x2c, 0xd, 0x25, 0x34, 0x34, 0x34, 0x34,
            0x32, 0x2c, 0xd, 0xd, 0xd, 0xe, 0xd, 0x13, 0x34, 0x1a, 0x2a, 0xd
        ]
    );
    assert_eq!(
        sent_symbols(1, 2, 3, 4, &[]),
        vec![
            0x2a, 0x2a, 0x2a, 0x2a, 0x2a, 0x2a, 0x38, 0x2c, 0xd, 0x1c, 0xd, 0xe, 0xd, 0x13, 0xd,
            0x15, 0xd, 0x16, 0x32, 0x16, 0x15, 0x26
        ]
    );
}

#[test]
fn frame_check_is_the_complement_of_the_ccitt_register() {
    let payload = b"123456789";
    let bytes = bytes_of(&sent_symbols(0x10, 0x20, 0x30, 0x40, payload)[8..]);
    assert_eq!(bytes.len(), payload.len() + 7);
    assert_eq!(bytes[0] as usize, payload.len() + 7);
    assert_eq!(&bytes[5..14], payload);
    let sent_fcs = (bytes[14] as u16) | ((bytes[15] as u16) << 8);
    assert_eq!(sent_fcs, !reference_fcs(&bytes[..14]));
}

#[test]
fn bits_go_out_least_significant_first() {
    let mut radio = RadioHeadASK::new();
    let first = radio.send_packet(0, 0, 0, 0, &[]);
    let levels = transmit(&mut radio, first);
    // the training symbol 0x2a is 101010, sent from its lowest bit
    assert_eq!(&levels[..6], &[false, true, false, true, false, true]);
    // the start symbols 0x38 and 0x2c
    assert_eq!(&levels[36..42], &[false, false, false, true, true, true]);
    assert_eq!(&levels[42..48], &[false, false, true, true, false, true]);
    assert_eq!(levels.last(), Some(&false));
}

#[test]
fn a_frame_takes_six_slots_for_each_symbol() {
    for len in [0usize, 1, 2, 10, 53] {
        let payload = vec![0x5a; len];
        let symbols = sent_symbols(1, 2, 3, 0, &payload);
        assert_eq!(symbols.len(), 8 + 2 * (len + 7));
        let bytes = bytes_of(&symbols[8..]);
        assert_eq!(bytes[0] as usize, len + 7);
    }
}

#[test]
fn the_longest_payload_fills_the_buffer() {
    let payload: Vec<u8> = (0..53u8).collect();
    let symbols = sent_symbols(0xaa, 0xbb, 0xcc, 0xdd, &payload);
    assert_eq!(symbols.len(), 128);
    let bytes = bytes_of(&symbols[8..]);
    assert_eq!(&bytes[5..58], &payload[..]);
    let sent_fcs = (bytes[58] as u16) | ((bytes[59] as u16) << 8);
    assert_eq!(sent_fcs, !reference_fcs(&bytes[..58]));
}

#[test]
fn a_pin_fault_abandons_the_frame_with_a_port_error() {
    let mut radio = RadioHeadASK::new();
    radio.send_packet(0xff, 0xff, 0xed, 0, &[1, 2]);
    assert_eq!(radio.advance(Event::TimerStarted), Action::SetPin { high: false });
    assert_eq!(radio.advance(Event::PinSet), Action::WaitPeriod);
    assert_eq!(radio.advance(Event::PeriodElapsed), Action::SetPin { high: true });
    assert_eq!(radio.advance(Event::PinFault), Action::Finish(Err(Error::Port)));
    // the frame stays abandoned
    assert_eq!(radio.advance(Event::PinSet), Action::Finish(Err(Error::Port)));
    assert_eq!(radio.advance(Event::PeriodElapsed), Action::Finish(Err(Error::Port)));
    assert_eq!(radio.pending(), Action::Finish(Err(Error::Port)));
}

#[test]
fn a_fault_on_the_way_back_to_low_is_a_port_error_too() {
    let mut radio = RadioHeadASK::new();
    radio.send_packet(0, 0, 0, 0, &[]);
    let mut action = radio.advance(Event::TimerStarted);
    for _ in 0..(22 * 6) {
        assert!(matches!(action, Action::SetPin { .. }));
        assert_eq!(radio.advance(Event::PinSet), Action::WaitPeriod);
        action = radio.advance(Event::PeriodElapsed);
    }
    assert_eq!(action, Action::SetPin { high: false });
    assert_eq!(radio.advance(Event::PinFault), Action::Finish(Err(Error::Port)));
}

#[test]
fn the_next_packet_is_unaffected_by_a_fault() {
    let mut radio = RadioHeadASK::new();
    radio.send_packet(0xff, 0xff, 0xed, 0, &[9, 9]);
    radio.advance(Event::TimerStarted);
    assert_eq!(radio.advance(Event::PinFault), Action::Finish(Err(Error::Port)));
    let first = radio.send_packet(0xff, 0xff, 0xed, 0, &[0x01, 0x02]);
    let mut levels = transmit(&mut radio, first);
    levels.pop();
    assert_eq!(symbols_of(&levels), sent_symbols(0xff, 0xff, 0xed, 0, &[0x01, 0x02]));
}

#[test]
fn an_event_that_answers_nothing_changes_nothing() {
    let mut radio = RadioHeadASK::new();
    let first = radio.send_packet(0, 0, 0, 0, &[]);
    assert_eq!(radio.advance(Event::PinSet), first);
    assert_eq!(radio.advance(Event::PeriodElapsed), first);
    assert_eq!(radio.advance(Event::PinFault), first);
    assert_eq!(radio.advance(Event::TimerStarted), Action::SetPin { high: false });
    assert_eq!(radio.advance(Event::TimerStarted), Action::SetPin { high: false });
    assert_eq!(radio.advance(Event::PeriodElapsed), Action::SetPin { high: false });
    assert_eq!(radio.advance(Event::PinSet), Action::WaitPeriod);
    assert_eq!(radio.advance(Event::PinSet), Action::WaitPeriod);
    assert_eq!(radio.advance(Event::PinFault), Action::WaitPeriod);
    assert_eq!(radio.advance(Event::PeriodElapsed), Action::SetPin { high: true });
}

#[test]
fn pending_repeats_the_last_request() {
    let mut radio = RadioHeadASK::new();
    let first = radio.send_packet(0, 0, 0, 0, &[7]);
    assert_eq!(radio.pending(), first);
    let next = radio.advance(Event::TimerStarted);
    assert_eq!(radio.pending(), next);
    assert_eq!(radio.pending(), next);
}
