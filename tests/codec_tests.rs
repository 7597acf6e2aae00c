use identity_tp::codec::{decode, encode, frame_len, DecodeError, Envelope, MessageType};

fn sample() -> Envelope {
    Envelope {
        message_type: MessageType::ProcessRequest,
        correlation_id: vec![1, 2],
        content: vec![9],
    }
}

#[test]
fn encode_writes_tag_lengths_and_fields() {
    assert_eq!(encode(&sample()), vec![3, 0, 0, 0, 2, 1, 2, 0, 0, 0, 1, 9]);
}

#[test]
fn encode_empty_fields() {
    let e = Envelope {
        message_type: MessageType::StateDeleteResponse,
        correlation_id: vec![],
        content: vec![],
    };
    assert_eq!(encode(&e), vec![10, 0, 0, 0, 0, 0, 0, 0, 0]);
}

#[test]
fn decode_reads_a_frame() {
    let e = decode(&vec![3, 0, 0, 0, 2, 1, 2, 0, 0, 0, 1, 9]).unwrap();
    assert_eq!(e.message_type, MessageType::ProcessRequest);
    assert_eq!(e.correlation_id, vec![1, 2]);
    assert_eq!(e.content, vec![9]);
}

#[test]
fn decode_of_encode_gives_the_envelope() {
    let content: Vec<u8> = (0..300).map(|i| (i % 256) as u8).collect();
    let e = Envelope {
        message_type: MessageType::StateSetRequest,
        correlation_id: b"abc-123".to_vec(),
        content: content.clone(),
    };
    let d = decode(&encode(&e)).unwrap();
    assert_eq!(d.message_type, MessageType::StateSetRequest);
    assert_eq!(d.correlation_id, b"abc-123".to_vec());
    assert_eq!(d.content, content);
}

#[test]
fn encode_of_decode_gives_the_bytes() {
    let bytes = vec![1, 0, 0, 0, 1, 7, 0, 0, 1, 0];
    let mut framed = bytes.clone();
    framed.extend(std::iter::repeat(5u8).take(256));
    let e = decode(&framed).unwrap();
    assert_eq!(e.content.len(), 256);
    assert_eq!(encode(&e), framed);
}

#[test]
fn decode_empty_is_truncated() {
    assert_eq!(decode(&vec![]).unwrap_err(), DecodeError::Truncated);
}

#[test]
fn decode_unknown_tag() {
    assert_eq!(decode(&vec![42, 0, 0, 0, 0, 0, 0, 0, 0]).unwrap_err(), DecodeError::UnknownMessageType);
}

#[test]
fn decode_short_header_is_truncated() {
    assert_eq!(decode(&vec![3, 0, 0]).unwrap_err(), DecodeError::Truncated);
}

#[test]
fn decode_short_content_is_truncated() {
    assert_eq!(decode(&vec![3, 0, 0, 0, 1, 7, 0, 0, 0, 3, 1, 2]).unwrap_err(), DecodeError::Truncated);
}

#[test]
fn decode_oversized_id_length_is_truncated() {
    assert_eq!(decode(&vec![3, 255, 255, 255, 255, 1]).unwrap_err(), DecodeError::Truncated);
}

#[test]
fn decode_trailing_bytes() {
    assert_eq!(decode(&vec![3, 0, 0, 0, 0, 0, 0, 0, 0, 99]).unwrap_err(), DecodeError::TrailingBytes);
}

#[test]
fn frame_length_waits_for_the_whole_frame() {
    let full = vec![3, 0, 0, 0, 2, 1, 2, 0, 0, 0, 1, 9];
    for cut in 0..full.len() {
        assert_eq!(frame_len(&full[..cut].to_vec()), None);
    }
    assert_eq!(frame_len(&full), Some(12));
    let mut more = full.clone();
    more.extend_from_slice(&[4, 0]);
    assert_eq!(frame_len(&more), Some(12));
}
