use ttx_litex::sfl::frame::{Cmd, Frame, Resp};

fn xmodem(bytes: &[u8]) -> u16 {
    let algorithm: crc::Crc<u16> = crc::Crc::<u16>::new(&crc::CRC_16_XMODEM);
    algorithm.checksum(bytes)
}

#[test]
fn cmd_codes_are_the_wire_values() {
    assert_eq!(Cmd::Abort.code(), 0);
    assert_eq!(Cmd::Load.code(), 1);
    assert_eq!(Cmd::Jump.code(), 2);
}

#[test]
fn resp_try_from_knows_the_four_codes() {
    assert_eq!(Resp::try_from(b'K').unwrap(), Resp::Success);
    assert_eq!(Resp::try_from(b'C').unwrap(), Resp::CrcError);
    assert_eq!(Resp::try_from(b'U').unwrap(), Resp::Unknown);
    assert_eq!(Resp::try_from(b'E').unwrap(), Resp::AckError);
}

#[test]
fn resp_try_from_refuses_every_other_byte() {
    for b in 0..=255u8 {
        let known = b == b'K' || b == b'C' || b == b'U' || b == b'E';
        assert_eq!(Resp::try_from(b).is_ok(), known, "byte {}", b);
    }
}

#[test]
fn resp_names() {
    assert_eq!(Resp::Success.as_str(), "Success");
    assert_eq!(Resp::CrcError.as_str(), "CRC Error");
    assert_eq!(Resp::Unknown.as_str(), "Unknown Error");
    assert_eq!(Resp::AckError.as_str(), "ACK Error");
}

#[test]
fn frame_layout_is_length_checksum_command_payload() {
    let f = Frame::new(Cmd::Load, &[0x10, 0x20, 0x30, 0x40]);
    // CRC-16/XMODEM of 01 10 20 30 40 is 0x7a61.
    assert_eq!(f.as_bytes(), &[4, 0x7a, 0x61, 1, 0x10, 0x20, 0x30, 0x40]);
}

#[test]
fn frame_checksum_is_stored_high_byte_first() {
    let f = Frame::new(Cmd::Load, &[0xaa, 0xbb]);
    // CRC-16/XMODEM of 01 aa bb is 0xd335.
    assert_eq!(f.as_bytes()[1], 0xd3);
    assert_eq!(f.as_bytes()[2], 0x35);
}

#[test]
fn frame_with_empty_payload_has_only_the_header() {
    let f = Frame::new(Cmd::Load, &[]);
    // CRC-16/XMODEM of the single byte 01 is the polynomial, 0x1021.
    assert_eq!(f.as_bytes(), &[0, 0x10, 0x21, 1]);
    let g = Frame::new(Cmd::Abort, &[]);
    assert_eq!(g.as_bytes(), &[0, 0, 0, 0]);
}

#[test]
fn frame_checksum_agrees_with_the_check_value_of_the_algorithm() {
    // The catalogue's check value: the checksum of "123456789" is 0x31c3.
    assert_eq!(xmodem(b"123456789"), 0x31c3);
    let f = Frame::new(Cmd::Jump, b"abc");
    let bytes = f.as_bytes();
    let stored = u16::from_be_bytes([bytes[1], bytes[2]]);
    assert_eq!(stored, xmodem(&[2, b'a', b'b', b'c']));
}

#[test]
fn frame_as_bytes_is_four_more_than_the_length_field_for_every_length() {
    let payload = [0x5au8; 255];
    for n in 0..=255usize {
        let f = Frame::new(Cmd::Load, &payload[..n]);
        let bytes = f.as_bytes();
        assert_eq!(bytes.len(), 4 + n);
        assert_eq!(bytes[0] as usize, n);
        assert_eq!(bytes.len(), 4 + bytes[0] as usize);
        assert_eq!(&bytes[4..], &payload[..n]);
    }
}

#[test]
fn frame_checksum_round_trips_for_every_payload_length() {
    let mut payload = [0u8; 255];
    for (i, b) in payload.iter_mut().enumerate() {
        *b = (i * 7 + 3) as u8;
    }
    for n in 0..=255usize {
        let f = Frame::new(Cmd::Load, &payload[..n]);
        let bytes = f.as_bytes();
        let stored = u16::from_be_bytes([bytes[1], bytes[2]]);
        assert_eq!(stored, xmodem(&bytes[3..]), "length {}", n);
        assert!(f.is_intact());
    }
}

#[test]
fn assembled_frame_carries_the_given_checksum() {
    let f = Frame::assemble(Cmd::Jump, &[1, 2, 3], 0xbeef);
    assert_eq!(f.as_bytes(), &[3, 0xbe, 0xef, 2, 1, 2, 3]);
    assert!(!f.is_intact());
    let right = xmodem(&[2, 1, 2, 3]);
    let g = Frame::assemble(Cmd::Jump, &[1, 2, 3], right);
    assert!(g.is_intact());
    assert_eq!(g.as_bytes(), Frame::new(Cmd::Jump, &[1, 2, 3]).as_bytes());
}
