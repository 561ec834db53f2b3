use supersecret::StegError;
use supersecret::container::decode_container;
use supersecret::container::encode_container;

#[test]
fn container_layout() {
    let encoded = encode_container(b"abc", b"txt");
    let mut expected = vec![3, 0, 0, 0, 0, 0, 0, 0];
    expected.extend_from_slice(b"txt");
    expected.push(0);
    expected.extend_from_slice(b"abc");
    assert_eq!(encoded, expected);
}

#[test]
fn container_round_trip() {
    let encoded = encode_container(b"some payload bytes", b"bin");
    let (payload, extension) = decode_container(&encoded).unwrap();
    assert_eq!(payload, b"some payload bytes".to_vec());
    assert_eq!(extension, b"bin".to_vec());
}

#[test]
fn container_round_trip_empty_extension() {
    let encoded = encode_container(b"hi", b"");
    let (payload, extension) = decode_container(&encoded).unwrap();
    assert_eq!(payload, b"hi".to_vec());
    assert!(extension.is_empty());
}

#[test]
fn decode_ignores_trailing_padding() {
    let mut encoded = encode_container(b"data", b"txt");
    encoded.extend_from_slice(&[0; 32]);
    let (payload, extension) = decode_container(&encoded).unwrap();
    assert_eq!(payload, b"data".to_vec());
    assert_eq!(extension, b"txt".to_vec());
}

#[test]
fn decode_too_short_for_length_field() {
    assert_eq!(decode_container(&[1, 2, 3]), Err(StegError::MalformedContainer));
}

#[test]
fn decode_missing_terminator() {
    // A valid length field, then extension bytes that never terminate.
    let data = [1, 0, 0, 0, 0, 0, 0, 0, 5, 5, 5];
    assert_eq!(decode_container(&data), Err(StegError::MalformedContainer));
}

#[test]
fn decode_truncated_payload() {
    // Declares ten payload bytes but carries none after the terminator.
    let data = [10, 0, 0, 0, 0, 0, 0, 0, 0];
    assert_eq!(decode_container(&data), Err(StegError::TruncatedPayload));
}
