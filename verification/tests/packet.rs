use divoom_ditoo_pro_controller::protocol::command::Command;
use divoom_ditoo_pro_controller::protocol::packet::{
    Packet, Response, ResponseError, ACK_BYTE, RESPONSE_COMMAND_BYTE,
};

fn build_response(cmd: u8, ack: u8, data: &[u8]) -> Vec<u8> {
    let mut payload = vec![RESPONSE_COMMAND_BYTE, cmd, ack];
    payload.extend_from_slice(data);

    let length = (payload.len() + 2) as u16;
    let mut frame = vec![0x01];
    frame.extend_from_slice(&length.to_le_bytes());
    frame.extend_from_slice(&payload);

    let checksum: u16 = frame[1..frame.len()].iter().fold(0u16, |acc, &x| acc + x as u16);
    frame.extend_from_slice(&checksum.to_le_bytes());
    frame.push(0x02);
    frame
}

#[test]
fn test_deserialize_ack() {
    let bytes = build_response(0x74, ACK_BYTE, &[]);
    let response = Response::deserialize(&bytes).unwrap();
    assert_eq!(response.original_command, 0x74);
    assert!(response.ack);
    assert!(response.data.is_empty());
}

#[test]
fn test_deserialize_nak() {
    let bytes = build_response(0x74, 0x00, &[]);
    let response = Response::deserialize(&bytes).unwrap();
    assert_eq!(response.original_command, 0x74);
    assert!(!response.ack);
    assert!(response.data.is_empty());
}

#[test]
fn test_deserialize_with_data() {
    let bytes = build_response(0x09, ACK_BYTE, &[0x0A]);
    let response = Response::deserialize(&bytes).unwrap();
    assert_eq!(response.original_command, 0x09);
    assert!(response.ack);
    assert_eq!(response.data, vec![0x0A]);
}

#[test]
fn test_deserialize_bad_checksum() {
    let mut bytes = build_response(0x74, ACK_BYTE, &[]);
    let crc_pos = bytes.len() - 3;
    bytes[crc_pos] = bytes[crc_pos].wrapping_add(1);
    assert!(Response::deserialize(&bytes).is_err());
}

#[test]
fn test_deserialize_too_short() {
    assert!(Response::deserialize(&[0x01, 0x02]).is_err());
}

#[test]
fn test_deserialize_bad_start_byte() {
    let mut bytes = build_response(0x74, ACK_BYTE, &[]);
    bytes[0] = 0xFF;
    assert!(Response::deserialize(&bytes).is_err());
}

#[test]
fn test_deserialize_bad_end_byte() {
    let mut bytes = build_response(0x74, ACK_BYTE, &[]);
    let last = bytes.len() - 1;
    bytes[last] = 0xFF;
    assert!(Response::deserialize(&bytes).is_err());
}

#[test]
fn deserialize_reports_each_error() {
    assert_eq!(Response::deserialize(&[0x01, 0x02]).unwrap_err(), ResponseError::TooShort);

    let mut bytes = build_response(0x74, ACK_BYTE, &[]);
    bytes[0] = 0xFF;
    assert_eq!(Response::deserialize(&bytes).unwrap_err(), ResponseError::InvalidStartByte(0xFF));

    let mut bytes = build_response(0x74, ACK_BYTE, &[]);
    let last = bytes.len() - 1;
    bytes[last] = 0x07;
    assert_eq!(Response::deserialize(&bytes).unwrap_err(), ResponseError::InvalidEndByte(0x07));

    let mut bytes = build_response(0x74, ACK_BYTE, &[1, 2]);
    bytes[1] = 9;
    assert_eq!(
        Response::deserialize(&bytes).unwrap_err(),
        ResponseError::LengthMismatch { field: 9, actual: 7 }
    );

    let mut bytes = build_response(0x74, ACK_BYTE, &[]);
    bytes[3] = 0x05;
    assert_eq!(Response::deserialize(&bytes).unwrap_err(), ResponseError::NotAResponse(0x05));

    let mut bytes = build_response(0x74, ACK_BYTE, &[]);
    let crc_pos = bytes.len() - 3;
    let expected = u16::from_le_bytes([bytes[crc_pos], bytes[crc_pos + 1]]);
    bytes[crc_pos] = bytes[crc_pos].wrapping_add(1);
    assert_eq!(
        Response::deserialize(&bytes).unwrap_err(),
        ResponseError::ChecksumMismatch { expected, received: expected + 1 }
    );
}

#[test]
fn deserialize_exact_frame() {
    // 0x01, length 6, response marker, command 0x09, ack, data 0x0A, checksum, 0x02
    let bytes = [0x01, 0x06, 0x00, 0x04, 0x09, 0x55, 0x0A, 0x72, 0x00, 0x02];
    let response = Response::deserialize(&bytes).unwrap();
    assert_eq!(response.original_command, 0x09);
    assert!(response.ack);
    assert_eq!(response.data, vec![0x0A]);
    assert_eq!(build_response(0x09, ACK_BYTE, &[0x0A]), bytes.to_vec());
}

#[test]
fn deserializable_marks_the_frames_deserialize_accepts() {
    assert!(Response::deserializable(&build_response(0x74, ACK_BYTE, &[1, 2, 3])));
    assert!(Response::deserializable(&[0x01, 0x02]));
    // Header checks pass and the checksum matches, but the frame ends before
    // the data would start.
    assert!(!Response::deserializable(&[0x01, 0x03, 0x00, 0x04, 0x07, 0x00, 0x02]));
    assert!(!Response::deserializable(&[0x01, 0x04, 0x00, 0x04, 0x09, 0x11, 0x00, 0x02]));
    // Short frames whose checksum does not match are decoded: to an error.
    assert!(Response::deserializable(&[0x01, 0x03, 0x00, 0x04, 0x08, 0x00, 0x02]));
    assert!(Response::deserializable(&[0x01, 0x04, 0x00, 0x04, 0x09, 0x00, 0x00, 0x02]));
    // Header checks pass but the checked bytes sum past 16 bits.
    let mut frame = vec![0x01];
    let body_len: usize = 300;
    frame.extend_from_slice(&((body_len + 2) as u16).to_le_bytes());
    frame.push(0x04);
    frame.extend(std::iter::repeat(0xFF).take(body_len - 1));
    frame.extend_from_slice(&[0x00, 0x00, 0x02]);
    assert!(!Response::deserializable(&frame));
}

#[test]
fn serialize_brightness_packet() {
    let packet = Packet { command: Command::SetBrightness, payload: vec![50] };
    // length = 1 + 3 = 4; checksum = 4 + 0 + 0x74 + 50 = 0xaa
    assert_eq!(packet.serialize(), vec![0x01, 0x04, 0x00, 0x74, 0x32, 0xaa, 0x00, 0x02]);
}

#[test]
fn serialize_empty_payload() {
    let packet = Packet { command: Command::GetVolume, payload: vec![] };
    assert_eq!(packet.serialize(), vec![0x01, 0x03, 0x00, 0x09, 0x0c, 0x00, 0x02]);
}

#[test]
fn serialize_checksum_spans_two_bytes() {
    let packet = Packet { command: Command::SetBoxMode, payload: vec![0xFF, 0xFF] };
    // length 5; checksum = 5 + 0x45 + 0xFF + 0xFF = 0x0248
    assert_eq!(packet.serialize(), vec![0x01, 0x05, 0x00, 0x45, 0xFF, 0xFF, 0x48, 0x02, 0x02]);
}

#[test]
fn serialized_packet_is_not_a_response() {
    let packet = Packet { command: Command::SetVolume, payload: vec![8] };
    let bytes = packet.serialize();
    assert_eq!(Response::deserialize(&bytes).unwrap_err(), ResponseError::NotAResponse(0x08));
}

#[test]
fn command_values() {
    assert_eq!(Command::SetVolume.value(), 0x08);
    assert_eq!(Command::GetVolume.value(), 0x09);
    assert_eq!(Command::SetPlayStatus.value(), 0x0a);
    assert_eq!(Command::SetDateTime.value(), 0x18);
    assert_eq!(Command::LightArrowSwitch.value(), 0x23);
    assert_eq!(Command::Alarm.value(), 0x43);
    assert_eq!(Command::SetBoxMode.value(), 0x45);
    assert_eq!(Command::DrawingEncodeMoviePlay.value(), 0x6c);
    assert_eq!(Command::DrawingCtrlMoviePlay.value(), 0x6e);
    assert_eq!(Command::SetBrightness.value(), 0x74);
    assert_eq!(Command::LedUpdateFontInfo.value(), 0x7c);
    assert_eq!(Command::LedWordCmd.value(), 0x86);
    assert_eq!(Command::Animation.value(), 0x8b);
    assert_eq!(Command::ExtendedCommand.value(), 0xbd);
}

#[test]
fn can_serialize_checks_length_and_checksum() {
    assert!(Packet { command: Command::SetBrightness, payload: vec![50] }.can_serialize());
    assert!(!Packet { command: Command::SetBoxMode, payload: vec![0xFF; 300] }.can_serialize());
    assert!(Packet { command: Command::SetBoxMode, payload: vec![0xFF; 200] }.can_serialize());
    assert!(!Packet { command: Command::SetBoxMode, payload: vec![0; 65533] }.can_serialize());
    // The length field keeps the payload length modulo 2^16.
    let wrapped = Packet { command: Command::SetBoxMode, payload: vec![0; 65536] };
    assert!(wrapped.can_serialize());
    let bytes = wrapped.serialize();
    assert_eq!(&bytes[..4], &[0x01, 0x03, 0x00, 0x45]);
    assert_eq!(bytes.len(), 65536 + 7);
}

#[test]
fn short_frames_with_a_wrong_checksum_are_refused() {
    assert_eq!(
        Response::deserialize(&[0x01, 0x03, 0x00, 0x04, 0x08, 0x00, 0x02]).unwrap_err(),
        ResponseError::ChecksumMismatch { expected: 7, received: 8 }
    );
    assert_eq!(
        Response::deserialize(&[0x01, 0x04, 0x00, 0x04, 0x09, 0x00, 0x00, 0x02]).unwrap_err(),
        ResponseError::ChecksumMismatch { expected: 0x11, received: 0 }
    );
}
