use looking_glass::frame::{write_packet, write_text_packet};

#[test]
fn a_packet_is_length_id_payload() {
    assert_eq!(write_packet(0, &[]), Ok(vec![1, 0]));
    assert_eq!(write_packet(7, &[0xAA]), Ok(vec![2, 7, 0xAA]));
    assert_eq!(
        write_packet(1, &[1, 2, 3, 4, 5, 6, 7, 8]),
        Ok(vec![9, 1, 1, 2, 3, 4, 5, 6, 7, 8])
    );
}

#[test]
fn a_long_packet_has_a_longer_prefix() {
    let payload = vec![0x55u8; 127];
    let frame = write_packet(3, &payload).unwrap();
    assert_eq!(frame.len(), 2 + 1 + 127);
    assert_eq!(&frame[..3], &[0x80, 0x01, 3]);
    assert_eq!(&frame[3..], &payload[..]);

    let payload = vec![0x11u8; 126];
    let frame = write_packet(3, &payload).unwrap();
    assert_eq!(frame.len(), 1 + 1 + 126);
    assert_eq!(&frame[..2], &[0x7F, 3]);
}

#[test]
fn a_text_packet_prefixes_the_text_with_its_length() {
    assert_eq!(write_text_packet(0, "{}"), Ok(vec![4, 0, 2, b'{', b'}']));
    assert_eq!(write_text_packet(0, ""), Ok(vec![2, 0, 0]));
    assert_eq!(write_text_packet(5, "abc"), Ok(vec![5, 5, 3, b'a', b'b', b'c']));
}

#[test]
fn a_text_packet_counts_bytes_not_characters() {
    // two characters, five bytes in UTF-8
    let frame = write_text_packet(0, "\u{e9}\u{20ac}").unwrap();
    assert_eq!(frame, vec![7, 0, 5, 0xC3, 0xA9, 0xE2, 0x82, 0xAC]);
}

#[test]
fn a_long_text_packet_has_two_long_prefixes() {
    let text = "x".repeat(200);
    let frame = write_text_packet(0, &text).unwrap();
    // 1 id byte + 2 bytes of string length + 200 bytes = 203
    assert_eq!(&frame[..5], &[0xCB, 0x01, 0x00, 0xC8, 0x01]);
    assert_eq!(&frame[5..], text.as_bytes());
}

#[test]
fn append_copies_at_the_end() {
    let mut buffer = vec![1u8, 2];
    looking_glass::frame::append(&mut buffer, &[3, 4, 5]);
    assert_eq!(buffer, vec![1, 2, 3, 4, 5]);
    looking_glass::frame::append(&mut buffer, &[]);
    assert_eq!(buffer, vec![1, 2, 3, 4, 5]);
}
