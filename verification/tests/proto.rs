use payjoin_harness::crc::crc16;
use payjoin_harness::proto::{
    decode, decode_status, encode, encode_status, Command, DecodeError, EncodeError, StatusCode,
    FRAME_OVERHEAD, MAX_PAYLOAD_LEN,
};

#[test]
fn round_trip_original_psbt() {
    let payload = b"fake decrypted payjoin bytes";
    let mut buf = [0u8; 64];
    let written = encode(Command::OriginalPsbt, payload, &mut buf).unwrap();
    let (frame, consumed) = decode(&buf[..written]).unwrap();
    assert_eq!(consumed, written);
    assert_eq!(frame.command, Command::OriginalPsbt);
    assert_eq!(frame.payload, payload);
}

#[test]
fn incomplete_header() {
    let buf = [0x02, 0x05, 0x00];
    assert_eq!(decode(&buf), Err(DecodeError::Incomplete));
}

#[test]
fn incomplete_payload() {
    let mut buf = [0u8; 64];
    let written = encode(Command::OutRequest, b"hello", &mut buf).unwrap();
    assert_eq!(decode(&buf[..written - 1]), Err(DecodeError::Incomplete));
}

#[test]
fn payload_too_large_to_encode() {
    let payload = [0u8; MAX_PAYLOAD_LEN + 1];
    let mut buf = [0u8; MAX_PAYLOAD_LEN + FRAME_OVERHEAD + 1];
    assert_eq!(
        encode(Command::OutRequest, &payload, &mut buf),
        Err(EncodeError::PayloadTooLarge)
    );
}

#[test]
fn buffer_too_small_to_encode() {
    let mut buf = [0u8; 4];
    assert_eq!(encode(Command::Status, &[0x00], &mut buf), Err(EncodeError::BufferTooSmall));
}

#[test]
fn crc_mismatch_is_detected() {
    let mut buf = [0u8; 64];
    let written = encode(Command::OutRequest, b"hello", &mut buf).unwrap();
    // Flip a payload bit without recomputing the checksum.
    buf[3] ^= 0xFF;
    assert_eq!(decode(&buf[..written]), Err(DecodeError::CrcMismatch));
}

#[test]
fn unknown_command_after_valid_crc() {
    let mut buf = [0u8; 64];
    let written = encode(Command::OutRequest, b"hi", &mut buf).unwrap();
    // A command byte that no command has, under a checksum that matches it.
    buf[0] = 0xEE;
    let payload_len = u16::from_le_bytes([buf[1], buf[2]]) as usize;
    let crc = crc16(&buf[0..3 + payload_len]);
    buf[3 + payload_len..5 + payload_len].copy_from_slice(&crc.to_le_bytes());
    assert_eq!(decode(&buf[..written]), Err(DecodeError::UnknownCommand(0xEE)));
}

#[test]
fn status_round_trip() {
    let mut buf = [0u8; 16];
    let written = encode_status(StatusCode::Error, &mut buf).unwrap();
    let (frame, _) = decode(&buf[..written]).unwrap();
    assert_eq!(frame.command, Command::Status);
    assert_eq!(decode_status(frame.payload), Some(StatusCode::Error));
}

#[test]
fn crc_has_the_standard_check_values() {
    assert_eq!(crc16(b"123456789"), 0x29B1);
    assert_eq!(crc16(b""), 0xFFFF);
    assert_eq!(crc16(b"A"), 0xB915);
}

#[test]
fn frame_layout_is_exact() {
    let mut buf = [0xAAu8; 12];
    assert_eq!(encode(Command::OutRequest, b"hi", &mut buf), Ok(7));
    let crc = crc16(&[0x03, 0x02, 0x00, b'h', b'i']).to_le_bytes();
    assert_eq!(buf[..7], [0x03, 0x02, 0x00, b'h', b'i', crc[0], crc[1]]);
    // What lies behind the frame is left alone.
    assert_eq!(buf[7..], [0xAA; 5]);
}

#[test]
fn length_field_has_its_low_byte_first() {
    let payload = [7u8; 0x0203];
    let mut buf = [0u8; 0x0203 + FRAME_OVERHEAD];
    assert_eq!(encode(Command::InitKeys, &payload, &mut buf), Ok(0x0208));
    assert_eq!(buf[1], 0x03);
    assert_eq!(buf[2], 0x02);
    let (frame, consumed) = decode(&buf).unwrap();
    assert_eq!(frame.payload, payload);
    assert_eq!(consumed, 0x0208);
}

#[test]
fn refused_encoding_leaves_the_buffer_alone() {
    let mut buf = [0x55u8; 6];
    assert_eq!(encode(Command::Status, b"hi", &mut buf), Err(EncodeError::BufferTooSmall));
    assert_eq!(buf, [0x55; 6]);
    assert_eq!(encode_status(StatusCode::Success, &mut buf[..5]), Err(EncodeError::BufferTooSmall));
    assert_eq!(buf, [0x55; 6]);
}

#[test]
fn largest_payload_round_trips() {
    let payload = vec![0x5Au8; MAX_PAYLOAD_LEN];
    let mut buf = vec![0u8; MAX_PAYLOAD_LEN + FRAME_OVERHEAD];
    let written = encode(Command::SignedPsbt, &payload, &mut buf).unwrap();
    assert_eq!(written, buf.len());
    let (frame, consumed) = decode(&buf).unwrap();
    assert_eq!(frame.payload, payload);
    assert_eq!(consumed, written);
}

#[test]
fn claimed_length_beyond_the_limit_is_refused_at_once() {
    // 4097, low byte first: refused although nothing of the payload is there.
    assert_eq!(decode(&[0x02, 0x01, 0x10, 0x00, 0x00]), Err(DecodeError::PayloadTooLarge));
    assert_eq!(decode(&[0x02, 0x00, 0x10, 0x00, 0x00]), Err(DecodeError::Incomplete));
}

#[test]
fn every_altered_byte_outside_the_length_is_a_crc_mismatch() {
    let mut good = [0u8; 10];
    assert_eq!(encode(Command::InResponse, b"hello", &mut good), Ok(10));
    for i in [0usize, 3, 4, 5, 6, 7, 8, 9] {
        for byte in 0..=255u8 {
            if byte != good[i] {
                let mut bad = good;
                bad[i] = byte;
                assert_eq!(decode(&bad), Err(DecodeError::CrcMismatch));
            }
        }
    }
}

#[test]
fn every_beginning_of_a_frame_is_incomplete() {
    let mut buf = [0u8; 16];
    let written = encode(Command::OriginalPsbt, b"hello", &mut buf).unwrap();
    for n in 0..written {
        assert_eq!(decode(&buf[..n]), Err(DecodeError::Incomplete));
    }
    // Bytes behind the frame change nothing.
    let (frame, consumed) = decode(&buf).unwrap();
    assert_eq!((frame.payload, consumed), (&b"hello"[..], written));
}

#[test]
fn command_and_status_bytes() {
    let commands = [
        (0x01, Command::InitKeys),
        (0x02, Command::OriginalPsbt),
        (0x03, Command::OutRequest),
        (0x04, Command::InResponse),
        (0x05, Command::SignedPsbt),
        (0x06, Command::Status),
    ];
    for (byte, command) in commands {
        assert_eq!(Command::from_u8(byte), Some(command));
        assert_eq!(command.to_u8(), byte);
    }
    assert_eq!(Command::from_u8(0x00), None);
    assert_eq!(Command::from_u8(0x07), None);
    assert_eq!(StatusCode::from_u8(0x00), Some(StatusCode::Success));
    assert_eq!(StatusCode::from_u8(0x01), Some(StatusCode::Error));
    assert_eq!(StatusCode::from_u8(0x02), None);
    assert_eq!(StatusCode::Error.to_u8(), 0x01);
}

#[test]
fn status_payloads() {
    assert_eq!(decode_status(&[]), None);
    assert_eq!(decode_status(&[0x02]), None);
    // Only the first byte counts.
    assert_eq!(decode_status(&[0x00, 0x01]), Some(StatusCode::Success));
}

#[test]
fn verdicts_stand_whatever_follows() {
    let mut good = [0u8; 7];
    assert_eq!(encode(Command::Status, b"ok", &mut good), Ok(7));
    let mut corrupt = good;
    corrupt[4] ^= 0x10;
    let oversized = [0x02, 0xFF, 0xFF, 0x00, 0x00];
    for buf in [&good[..], &corrupt[..], &oversized[..]] {
        let mut longer = buf.to_vec();
        longer.extend([0xA5; 40]);
        assert_eq!(decode(&longer), decode(buf));
    }
}

#[test]
fn frames_differ_wherever_their_contents_do() {
    let contents: [(Command, &[u8]); 4] = [
        (Command::Status, b""),
        (Command::Status, b"a"),
        (Command::SignedPsbt, b"a"),
        (Command::SignedPsbt, b"ab"),
    ];
    let frames: Vec<Vec<u8>> = contents
        .iter()
        .map(|(command, payload)| {
            let mut buf = vec![0u8; payload.len() + FRAME_OVERHEAD];
            encode(*command, payload, &mut buf).unwrap();
            buf
        })
        .collect();
    for (i, a) in frames.iter().enumerate() {
        for (j, b) in frames.iter().enumerate() {
            assert_eq!(a.starts_with(b), i == j);
        }
    }
}
