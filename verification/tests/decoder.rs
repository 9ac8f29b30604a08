use ubx_nav::gps::{GpsData, UbxConfig, UbxParser};

/// The protocol checksum, recomputed plainly: each byte is added to the
/// first accumulator, which is then added to the second, both modulo 256.
fn ubx_checksum(body: &[u8]) -> (u8, u8) {
    let mut a: u8 = 0;
    let mut b: u8 = 0;
    for &x in body {
        a = a.wrapping_add(x);
        b = b.wrapping_add(a);
    }
    (a, b)
}

fn build_frame(class: u8, id: u8, payload: &[u8]) -> Vec<u8> {
    let mut v = vec![
        0xB5,
        0x62,
        class,
        id,
        (payload.len() % 256) as u8,
        (payload.len() / 256) as u8,
    ];
    v.extend_from_slice(payload);
    let (a, b) = ubx_checksum(&v[2..]);
    v.push(a);
    v.push(b);
    v
}

fn set_i32(p: &mut [u8], off: usize, val: i32) {
    p[off..off + 4].copy_from_slice(&val.to_le_bytes());
}

fn set_u32(p: &mut [u8], off: usize, val: u32) {
    p[off..off + 4].copy_from_slice(&val.to_le_bytes());
}

/// An 84-byte navigation payload with known field values.
fn nav_payload(fix_type: u8, flags: u8) -> Vec<u8> {
    let mut p = vec![0u8; 84];
    p[4] = 0xE8; // year 2024 little-endian
    p[5] = 0x07;
    p[6] = 5; // month
    p[7] = 17; // day
    p[8] = 12; // hour
    p[9] = 34; // minute
    p[10] = 56; // second
    set_i32(&mut p, 16, -5); // nanosecond offset
    p[20] = fix_type;
    p[21] = flags;
    p[23] = 11; // satellites
    set_i32(&mut p, 24, -1224194155); // longitude
    set_i32(&mut p, 28, 473271234); // latitude
    set_i32(&mut p, 36, 123456); // height above mean sea level
    set_u32(&mut p, 40, 2500); // horizontal accuracy
    set_u32(&mut p, 44, 3700); // vertical accuracy
    set_i32(&mut p, 60, -1500); // ground speed
    p
}

fn feed(parser: &mut UbxParser, bytes: &[u8]) -> Vec<Option<GpsData>> {
    bytes.iter().map(|&b| parser.parse_byte(b)).collect()
}

fn assert_expected_record(g: &GpsData) {
    assert!(g.valid);
    assert_eq!(g.year, 2024);
    assert_eq!(g.month, 5);
    assert_eq!(g.day, 17);
    assert_eq!(g.hour, 12);
    assert_eq!(g.minute, 34);
    assert_eq!(g.second, 56);
    assert_eq!(g.nano, -5);
    assert_eq!(g.longitude, -1224194155);
    assert_eq!(g.latitude, 473271234);
    assert_eq!(g.height_msl, 123456);
    assert_eq!(g.horizontal_accuracy, 2500);
    assert_eq!(g.vertical_accuracy, 3700);
    assert_eq!(g.ground_speed, -1500);
    assert_eq!(g.satellites, 11);
}

#[test]
fn well_formed_frame_decodes() {
    let frame = build_frame(0x01, 0x07, &nav_payload(3, 0x01));
    let mut parser = UbxParser::new();
    let outs = feed(&mut parser, &frame);
    for out in &outs[..outs.len() - 1] {
        assert_eq!(*out, None);
    }
    let g = outs[outs.len() - 1].expect("final checksum byte must yield the record");
    assert_expected_record(&g);
}

#[test]
fn bytes_without_sync_pattern_yield_nothing() {
    let mut parser = UbxParser::new();
    let noise: Vec<u8> = vec![0x00, 0x62, 0x13, 0xB5, 0x51, 0xB5, 0xB5, 0x17, 0x62, 0xFF, 0x00];
    for out in feed(&mut parser, &noise) {
        assert_eq!(out, None);
    }
    // the decoder is back at the start: a frame decodes immediately after
    let frame = build_frame(0x01, 0x07, &nav_payload(3, 0x01));
    let outs = feed(&mut parser, &frame);
    assert!(outs[outs.len() - 1].is_some());
}

#[test]
fn sync2_mismatch_is_a_strict_reset() {
    // after two first-sync bytes in a row the decoder has reset outright:
    // it does not treat the second one as a fresh frame start, so the
    // following second-sync byte changes nothing
    let mut parser = UbxParser::new();
    for out in feed(&mut parser, &[0xB5, 0xB5, 0x62]) {
        assert_eq!(out, None);
    }
    let frame = build_frame(0x01, 0x07, &nav_payload(3, 0x01));
    let outs = feed(&mut parser, &frame);
    assert!(outs[outs.len() - 1].is_some());
}

#[test]
fn flipped_payload_byte_is_rejected() {
    let good = build_frame(0x01, 0x07, &nav_payload(3, 0x01));
    for j in [0usize, 1, 20, 43, 83] {
        let mut bad = good.clone();
        bad[6 + j] ^= 0x10; // flip one payload byte, keep the checksum bytes
        let mut parser = UbxParser::new();
        for out in feed(&mut parser, &bad) {
            assert_eq!(out, None);
        }
    }
}

#[test]
fn wrong_checksum_byte_is_rejected() {
    let mut frame = build_frame(0x01, 0x07, &nav_payload(3, 0x01));
    let last = frame.len() - 1;
    frame[last] = frame[last].wrapping_add(1);
    let mut parser = UbxParser::new();
    for out in feed(&mut parser, &frame) {
        assert_eq!(out, None);
    }
}

#[test]
fn oversized_length_is_discarded_and_decoder_resyncs() {
    // declared length 257: one more than the buffer holds
    let oversized_header: Vec<u8> = vec![0xB5, 0x62, 0x01, 0x07, 0x01, 0x01];
    let mut parser = UbxParser::new();
    for out in feed(&mut parser, &oversized_header) {
        assert_eq!(out, None);
    }
    // a well-formed frame appended immediately after still decodes
    let frame = build_frame(0x01, 0x07, &nav_payload(3, 0x01));
    let outs = feed(&mut parser, &frame);
    for out in &outs[..outs.len() - 1] {
        assert_eq!(*out, None);
    }
    let g = outs[outs.len() - 1].expect("frame after oversized header must decode");
    assert_expected_record(&g);
}

#[test]
fn back_to_back_frames_decode_independently() {
    let frame1 = build_frame(0x01, 0x07, &nav_payload(3, 0x01));
    let mut payload2 = nav_payload(3, 0x01);
    payload2[23] = 7; // a different satellite count in the second frame
    let frame2 = build_frame(0x01, 0x07, &payload2);

    let mut stream = frame1.clone();
    stream.extend_from_slice(&frame2);
    let mut parser = UbxParser::new();
    let outs = feed(&mut parser, &stream);
    for (i, out) in outs.iter().enumerate() {
        if i == frame1.len() - 1 || i == stream.len() - 1 {
            assert!(out.is_some());
        } else {
            assert_eq!(*out, None);
        }
    }
    assert_eq!(outs[frame1.len() - 1].unwrap().satellites, 11);
    assert_eq!(outs[stream.len() - 1].unwrap().satellites, 7);
}

#[test]
fn other_class_or_id_is_swallowed() {
    for (class, id) in [(0x02u8, 0x07u8), (0x01, 0x03), (0x06, 0x00)] {
        let frame = build_frame(class, id, &nav_payload(3, 0x01));
        let mut parser = UbxParser::new();
        for out in feed(&mut parser, &frame) {
            assert_eq!(out, None);
        }
        // the frame was fully parsed: the next frame still decodes
        let good = build_frame(0x01, 0x07, &nav_payload(3, 0x01));
        let outs = feed(&mut parser, &good);
        assert!(outs[outs.len() - 1].is_some());
    }
}

#[test]
fn short_nav_pvt_payload_yields_nothing() {
    let frame = build_frame(0x01, 0x07, &nav_payload(3, 0x01)[..83]);
    let mut parser = UbxParser::new();
    for out in feed(&mut parser, &frame) {
        assert_eq!(out, None);
    }
}

#[test]
fn zero_length_frame_is_parsed_and_swallowed() {
    let frame = build_frame(0x01, 0x07, &[]);
    let mut parser = UbxParser::new();
    for out in feed(&mut parser, &frame) {
        assert_eq!(out, None);
    }
    let good = build_frame(0x01, 0x07, &nav_payload(3, 0x01));
    let outs = feed(&mut parser, &good);
    assert!(outs[outs.len() - 1].is_some());
}

#[test]
fn largest_payload_still_decodes() {
    let mut payload = nav_payload(3, 0x01);
    payload.resize(256, 0xAB); // fill the buffer to its capacity
    let frame = build_frame(0x01, 0x07, &payload);
    assert_eq!(frame[4], 0x00); // length 256 little-endian
    assert_eq!(frame[5], 0x01);
    let mut parser = UbxParser::new();
    let outs = feed(&mut parser, &frame);
    for out in &outs[..outs.len() - 1] {
        assert_eq!(*out, None);
    }
    let g = outs[outs.len() - 1].expect("a 256-byte payload fits the buffer");
    assert_expected_record(&g);
}

#[test]
fn validity_needs_fix_type_and_flag_bit() {
    let cases = [(3u8, 0x01u8, true), (2, 0x01, false), (3, 0x00, false), (4, 0xFF, true)];
    for (fix_type, flags, expect_valid) in cases {
        let frame = build_frame(0x01, 0x07, &nav_payload(fix_type, flags));
        let mut parser = UbxParser::new();
        let outs = feed(&mut parser, &frame);
        let g = outs[outs.len() - 1].expect("the record is produced either way");
        assert_eq!(g.valid, expect_valid);
    }
}

#[test]
fn unit_conversions_from_raw_record() {
    let frame = build_frame(0x01, 0x07, &nav_payload(3, 0x01));
    let mut parser = UbxParser::new();
    let outs = feed(&mut parser, &frame);
    let g = outs[outs.len() - 1].unwrap();
    assert_eq!(g.latitude as f64 / 1e7, 47.3271234);
    assert_eq!(g.height_msl as f64 / 1000.0, 123.456);
    assert_eq!(g.ground_speed as f64 / 1000.0, -1.5);
    assert_eq!(g.horizontal_accuracy as f64 / 1000.0, 2.5);
}

#[test]
fn gps_data_new_is_zeroed_and_invalid() {
    let g = GpsData::new();
    assert!(!g.valid);
    assert_eq!(g.year, 0);
    assert_eq!(g.month, 0);
    assert_eq!(g.day, 0);
    assert_eq!(g.hour, 0);
    assert_eq!(g.minute, 0);
    assert_eq!(g.second, 0);
    assert_eq!(g.nano, 0);
    assert_eq!(g.latitude, 0);
    assert_eq!(g.longitude, 0);
    assert_eq!(g.height_msl, 0);
    assert_eq!(g.horizontal_accuracy, 0);
    assert_eq!(g.vertical_accuracy, 0);
    assert_eq!(g.ground_speed, 0);
    assert_eq!(g.satellites, 0);
}

#[test]
fn port_config_command_is_a_well_formed_frame() {
    let cmd = UbxConfig::get_port_config_ubx_only();
    let expected: [u8; 28] = [
        0xB5, 0x62, 0x06, 0x00, 0x14, 0x00, 0x01, 0x00, 0x00, 0x00, 0x00, 0x23, 0x00, 0x23,
        0x00, 0x96, 0x00, 0x00, 0x01, 0x00, 0x01, 0x00, 0x00, 0x00, 0x00, 0x00, 0xF9, 0xB0,
    ];
    assert_eq!(cmd, expected);
    // its trailing bytes are the checksum of its body
    let (a, b) = ubx_checksum(&cmd[2..26]);
    assert_eq!((a, b), (cmd[26], cmd[27]));
}

#[test]
fn enable_nav_pvt_command_is_a_well_formed_frame() {
    let cmd = UbxConfig::get_enable_nav_pvt();
    let expected: [u8; 11] = [
        0xB5, 0x62, 0x06, 0x01, 0x03, 0x00, 0x01, 0x07, 0x01, 0x13, 0x51,
    ];
    assert_eq!(cmd, expected);
    // its trailing bytes are the checksum of its body
    let (a, b) = ubx_checksum(&cmd[2..9]);
    assert_eq!((a, b), (cmd[9], cmd[10]));
}

#[test]
fn checksum_mismatches_are_counted() {
    let good = build_frame(0x01, 0x07, &nav_payload(3, 0x01));
    let mut parser = UbxParser::new();
    assert_eq!(parser.checksum_errors(), 0);

    // a clean frame leaves the counter alone
    feed(&mut parser, &good);
    assert_eq!(parser.checksum_errors(), 0);

    // a corrupted payload raises it exactly once per frame
    let mut bad = good.clone();
    bad[10] ^= 0x40;
    feed(&mut parser, &bad);
    assert_eq!(parser.checksum_errors(), 1);
    feed(&mut parser, &bad);
    assert_eq!(parser.checksum_errors(), 2);

    // a valid frame of another class is not a checksum error
    let other = build_frame(0x06, 0x01, &[0x01, 0x07, 0x01]);
    feed(&mut parser, &other);
    assert_eq!(parser.checksum_errors(), 2);

    // noise that never completes a frame is not a checksum error either
    feed(&mut parser, &[0x00, 0xB5, 0x13, 0x51]);
    assert_eq!(parser.checksum_errors(), 2);

    // and the decoder still works after counting
    let outs = feed(&mut parser, &good);
    assert!(outs[outs.len() - 1].is_some());
}

#[test]
fn config_commands_are_swallowed_by_the_decoder() {
    // a decoder fed its own session's configuration traffic stays silent
    let mut parser = UbxParser::new();
    for out in feed(&mut parser, &UbxConfig::get_port_config_ubx_only()) {
        assert_eq!(out, None);
    }
    for out in feed(&mut parser, &UbxConfig::get_enable_nav_pvt()) {
        assert_eq!(out, None);
    }
    // both are checksum-valid frames: nothing was counted as an error
    assert_eq!(parser.checksum_errors(), 0);
    let frame = build_frame(0x01, 0x07, &nav_payload(3, 0x01));
    let outs = feed(&mut parser, &frame);
    assert!(outs[outs.len() - 1].is_some());
}
