use ajazz_sdk::Kind;

/// Pads packet up to required packet length.
/// Function is used to generate expected packet for testing.
fn padded_packet(kind: Kind, buf: Vec<u8>) -> Vec<u8> {
    let length = if kind.is_v2_api() { 1025 } else { 513 };
    let mut buf = buf;
    buf.extend(vec![0u8; length - buf.len()]);
    buf
}

#[test]
fn test_brightness_packet() {
    let kind = Kind::Akp153;
    let brightness = 50;
    let packet = kind.brightness_packet(brightness);
    let expected = padded_packet(
        kind,
        vec![
            0x00, 0x43, 0x52, 0x54, 0x00, 0x00, 0x4c, 0x49, 0x47, 0x00, 0x00, brightness,
        ],
    );

    assert_eq!(packet, expected);
}

#[test]
fn test_keep_alive_packet() {
    let kind = Kind::Akp153;
    let packet = kind.keep_alive_packet();
    let expected = padded_packet(
        kind,
        vec![
            0x00, 0x43, 0x52, 0x54, 0x00, 0x00, 0x43, 0x4F, 0x4E, 0x4E, 0x45, 0x43, 0x54,
        ],
    );
    assert_eq!(packet, expected);
}

#[test]
fn test_initialize_packet() {
    let kind = Kind::Akp153;
    let packet = kind.initialize_packet();
    let expected = padded_packet(
        kind,
        vec![0x00, 0x43, 0x52, 0x54, 0x00, 0x00, 0x44, 0x49, 0x53],
    );

    assert_eq!(packet, expected);
}

#[test]
fn test_sleep_packet() {
    let kind = Kind::Akp153;
    let packet = kind.sleep_packet();
    let expected = padded_packet(
        kind,
        vec![0x00, 0x43, 0x52, 0x54, 0x00, 0x00, 0x48, 0x41, 0x4E],
    );
    assert_eq!(packet, expected);
}

#[test]
fn test_shutdown_packet() {
    let kind = Kind::Akp153;
    let packet = kind.shutdown_packet();
    let expected = padded_packet(
        kind,
        vec![
            0x00, 0x43, 0x52, 0x54, 0x00, 0x00, 0x43, 0x4c, 0x45, 0x00, 0x00, 0x44, 0x43,
        ],
    );
    assert_eq!(packet, expected);
}

fn assert_clear_packet(kind: Kind, key: u8, expected: Vec<u8>) {
    let packet = kind.clear_button_image_packet(key);
    let expected = padded_packet(kind, expected);
    assert_eq!(packet, expected);
}

#[test]
fn test_clear_button_image_packet() {
    let kind = Kind::Akp153;

    assert_clear_packet(
        kind,
        0,
        vec![
            0x00, 0x43, 0x52, 0x54, 0x00, 0x00, 0x43, 0x4c, 0x45, 0x00, 0x00, 0x00, 0x05,
        ],
    );
    assert_clear_packet(
        kind,
        1,
        vec![
            0x00, 0x43, 0x52, 0x54, 0x00, 0x00, 0x43, 0x4c, 0x45, 0x00, 0x00, 0x00, 0x0B,
        ],
    );
    assert_clear_packet(
        kind,
        0xff,
        vec![
            0x00, 0x43, 0x52, 0x54, 0x00, 0x00, 0x43, 0x4c, 0x45, 0x00, 0x00, 0x00, 0xff,
        ],
    );
}

#[test]
fn test_flush_packet() {
    let kind = Kind::Akp153;
    let packet = kind.flush_packet();
    let expected = padded_packet(
        kind,
        vec![0x00, 0x43, 0x52, 0x54, 0x00, 0x00, 0x53, 0x54, 0x50],
    );
    assert_eq!(packet, expected);
}

#[test]
fn test_image_announce_packet() {
    let kind = Kind::Akp03RRev2;
    let packet = kind.image_announce_packet(0, &[0x00, 0x01]);
    let expected = padded_packet(
        kind,
        vec![
            0x00, 0x43, 0x52, 0x54, 0x00, 0x00, 0x42, 0x41, 0x54, 0x00, 0x00, 0x00, 0x02,
            0x00, 0x00, 0x00,
        ],
    );
    assert_eq!(packet, expected);
}

#[test]
fn test_logo_image_packet() {
    let kind = Kind::Akp153;
    let packet = kind.logo_image_packet(&[0x00, 0x01]);
    let expected = padded_packet(
        kind,
        vec![
            0x00, 0x43, 0x52, 0x54, 0x00, 0x00, 0x4c, 0x4f, 0x47, 0x00, 0x12, 0xc3, 0xc0,
            0x01,
        ],
    );
    assert_eq!(packet, expected);
}
