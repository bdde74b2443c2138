use sensor_node::mhz19b::{
    calc_checksum, parse_data, request_reading, Error, Exchange, FRAME_LEN, READ_COMMAND,
    TIMEOUT_TICKS,
};
use sensor_node::ringbuffer::RingBuffer;
use sensor_node::syscalls::{uart_buffer_pop, uart_buffer_push};

const GOOD: [u8; 9] = [0xff, 0x86, 0x02, 0x60, 0x47, 0x00, 0x00, 0x00, 0xd1];

fn received(bytes: &[u8]) -> sensor_node::mhz19b::ResponseBuffer {
    let mut rx: RingBuffer<u8> = RingBuffer::new();
    for b in bytes {
        uart_buffer_push(&mut rx, *b);
    }
    uart_buffer_pop(&mut rx)
}

#[test]
fn checksum_of_the_read_command() {
    assert_eq!(READ_COMMAND, [0xff, 0x01, 0x86, 0, 0, 0, 0, 0, 0x79]);
    assert_eq!(calc_checksum(&READ_COMMAND[1..8]), 0x79);
}

#[test]
fn checksum_exact_values() {
    assert_eq!(calc_checksum(&[]), 0);
    assert_eq!(calc_checksum(&[0x01]), 0xff);
    assert_eq!(calc_checksum(&[0xff, 0x01]), 0);
    assert_eq!(calc_checksum(&[0x86, 0x02, 0x60, 0x47, 0x00, 0x00, 0x00]), 0xd1);
    assert_eq!(calc_checksum(&[0xff; 7]), 0x07);
}

#[test]
fn parse_accepts_a_good_frame() {
    assert_eq!(parse_data(&GOOD), Ok(608));
}

#[test]
fn parse_reads_the_concentration_big_endian() {
    let mut frame = [0xff, 0x86, 0x12, 0x34, 0, 0, 0, 0, 0];
    frame[8] = calc_checksum(&frame[1..8]);
    assert_eq!(parse_data(&frame), Ok(0x1234));
}

#[test]
fn parse_rejects_a_short_frame() {
    assert_eq!(parse_data(&[]), Err(Error::IncompletePacket));
    assert_eq!(parse_data(&GOOD[..8]), Err(Error::IncompletePacket));
}

#[test]
fn parse_rejects_a_wrong_start_byte() {
    let mut frame = GOOD;
    frame[0] = 0xfe;
    assert_eq!(parse_data(&frame), Err(Error::WrongStartByte));
}

#[test]
fn parse_rejects_a_wrong_checksum() {
    let mut frame = GOOD;
    frame[8] = 0xd0;
    assert_eq!(parse_data(&frame), Err(Error::WrongChecksum));
}

#[test]
fn parse_checks_the_start_byte_before_the_checksum() {
    let mut frame = GOOD;
    frame[0] = 0x00;
    frame[8] = 0x00;
    assert_eq!(parse_data(&frame), Err(Error::WrongStartByte));
}

#[test]
fn parse_ignores_bytes_behind_the_frame() {
    let mut long = GOOD.to_vec();
    long.push(0xaa);
    assert_eq!(parse_data(&long), Ok(608));
}

#[test]
fn appended_checksum_always_validates() {
    let mut seed: u32 = 0x1234_5678;
    for _ in 0..2000 {
        let mut frame = [0u8; 9];
        frame[0] = 0xff;
        for b in frame[1..8].iter_mut() {
            seed = seed.wrapping_mul(1664525).wrapping_add(1013904223);
            *b = (seed >> 24) as u8;
        }
        frame[8] = calc_checksum(&frame[1..8]);
        let value = ((frame[2] as u16) << 8) | frame[3] as u16;
        assert_eq!(parse_data(&frame), Ok(value));
    }
}

#[test]
fn every_single_bit_flip_is_rejected() {
    for byte in 0..9 {
        for bit in 0..8 {
            let mut frame = GOOD;
            frame[byte] ^= 1 << bit;
            let expected = if byte == 0 { Error::WrongStartByte } else { Error::WrongChecksum };
            assert_eq!(parse_data(&frame), Err(expected));
        }
    }
}

#[test]
fn request_discards_stale_bytes_and_hands_the_command_back() {
    let mut rx: RingBuffer<u8> = RingBuffer::new();
    uart_buffer_push(&mut rx, 0x11);
    uart_buffer_push(&mut rx, 0x22);
    let command = request_reading(&mut rx);
    assert_eq!(command, [0xff, 0x01, 0x86, 0, 0, 0, 0, 0, 0x79]);
    assert!(rx.is_empty());
}

#[test]
fn exchange_completes_when_the_frame_arrives_at_once() {
    let mut ex = Exchange::begin(100);
    assert_eq!(ex.len(), 0);
    assert_eq!(ex.poll(&received(&GOOD), 100), Some(Ok(608)));
    assert_eq!(ex.len(), FRAME_LEN);
}

#[test]
fn exchange_collects_a_frame_that_arrives_in_pieces() {
    let mut ex = Exchange::begin(7);
    assert_eq!(ex.poll(&received(&GOOD[..4]), 7), None);
    assert_eq!(ex.len(), 4);
    assert_eq!(ex.poll(&received(&[]), 8), None);
    assert_eq!(ex.len(), 4);
    assert_eq!(ex.poll(&received(&GOOD[4..]), 9), Some(Ok(608)));
    assert_eq!(ex.len(), 9);
}

#[test]
fn exchange_reports_what_the_parser_rejects() {
    let mut bad = GOOD;
    bad[8] ^= 0x10;
    let mut ex = Exchange::begin(0);
    assert_eq!(ex.poll(&received(&bad), 0), Some(Err(Error::WrongChecksum)));
    let mut bad = GOOD;
    bad[0] = 0x7f;
    let mut ex = Exchange::begin(0);
    assert_eq!(ex.poll(&received(&bad), 0), Some(Err(Error::WrongStartByte)));
}

#[test]
fn exchange_times_out_only_past_the_threshold() {
    assert_eq!(TIMEOUT_TICKS, 5);
    let mut ex = Exchange::begin(1000);
    assert_eq!(ex.poll(&received(&[]), 1005), None);
    assert_eq!(ex.poll(&received(&[]), 1006), Some(Err(Error::Timeout)));
}

#[test]
fn a_complete_frame_wins_over_a_timeout() {
    let mut ex = Exchange::begin(0);
    assert_eq!(ex.poll(&received(&GOOD), 500), Some(Ok(608)));
}

#[test]
fn wraparound_does_not_time_out() {
    let mut ex = Exchange::begin(0xFFFF_FFF0);
    assert_eq!(ex.poll(&received(&[]), 5), None);
    // the wait is measured afresh from the tick at which the wrap was seen
    assert_eq!(ex.poll(&received(&[]), 10), None);
    assert_eq!(ex.poll(&received(&[]), 11), Some(Err(Error::Timeout)));
}

#[test]
fn wraparound_from_the_last_tick_does_not_time_out() {
    let mut ex = Exchange::begin(0xFFFF_FFFF);
    assert_eq!(ex.poll(&received(&GOOD[..2]), 0), None);
    assert_eq!(ex.poll(&received(&GOOD[2..]), 1), Some(Ok(608)));
}
