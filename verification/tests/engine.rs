use supersecret::StegError;
use supersecret::image::ColorKind;
use supersecret::image::ImageMeta;
use supersecret::ops::embed_payload;
use supersecret::ops::extract_payload;

fn rgb_meta(width: u32, height: u32) -> ImageMeta {
    ImageMeta { width, height, bit_depth: 8, color: ColorKind::Rgb }
}

#[test]
fn round_trip_small_rgb_image() {
    // A 10x10 RGB image holds floor(10*10*3/8) == 37 bytes; a five-byte
    // message needs 5 + 8 + 1 == 14.
    let meta = rgb_meta(10, 10);
    let original = vec![100u8; 300];
    let mut encoded = original.clone();
    assert_eq!(embed_payload(&mut encoded, meta, b"hello", b""), Ok(()));
    let (payload, extension) = extract_payload(&original, meta, &encoded, meta).unwrap();
    assert_eq!(payload, b"hello".to_vec());
    assert!(extension.is_empty());
}

#[test]
fn round_trip_with_extension() {
    let meta = rgb_meta(16, 16);
    let original: Vec<u8> = (0..768u32).map(|i| (i % 251) as u8).collect();
    let mut encoded = original.clone();
    assert_eq!(embed_payload(&mut encoded, meta, &[0, 1, 2, 253, 254, 255], b"bin"), Ok(()));
    let (payload, extension) = extract_payload(&original, meta, &encoded, meta).unwrap();
    assert_eq!(payload, vec![0, 1, 2, 253, 254, 255]);
    assert_eq!(extension, b"bin".to_vec());
}

#[test]
fn round_trip_alpha_image() {
    let meta = ImageMeta { width: 8, height: 8, bit_depth: 8, color: ColorKind::Rgba };
    let original: Vec<u8> = (0..256u32).map(|i| (i % 256) as u8).collect();
    let mut encoded = original.clone();
    assert_eq!(embed_payload(&mut encoded, meta, b"msg", b""), Ok(()));
    let (payload, extension) = extract_payload(&original, meta, &encoded, meta).unwrap();
    assert_eq!(payload, b"msg".to_vec());
    assert!(extension.is_empty());
}

#[test]
fn alpha_bytes_are_never_touched() {
    let meta = ImageMeta { width: 6, height: 6, bit_depth: 8, color: ColorKind::Rgba };
    let original = vec![7u8; 144];
    let mut encoded = original.clone();
    assert_eq!(embed_payload(&mut encoded, meta, &[255, 255], b""), Ok(()));
    for i in (3..144).step_by(4) {
        assert_eq!(encoded[i], original[i], "alpha byte {i} changed");
    }
}

#[test]
fn saturated_byte_steps_down() {
    // The first container byte is the payload length 1, whose first bit is
    // a one: a carrier byte already at 255 must move down to 254.
    let meta = rgb_meta(10, 10);
    let original = vec![255u8; 300];
    let mut encoded = original.clone();
    assert_eq!(embed_payload(&mut encoded, meta, &[42], b""), Ok(()));
    assert_eq!(encoded[0], 254);
    // The length's remaining bits are zero: those carriers stay at 255.
    for i in 1..8 {
        assert_eq!(encoded[i], 255);
    }
    let (payload, _) = extract_payload(&original, meta, &encoded, meta).unwrap();
    assert_eq!(payload, vec![42]);
}

#[test]
fn payload_too_large_is_rejected() {
    let meta = rgb_meta(10, 10);
    let original = vec![9u8; 300];
    let mut encoded = original.clone();
    // 28 payload bytes fit exactly; 29 do not.
    assert_eq!(embed_payload(&mut encoded, meta, &[1u8; 28], b""), Ok(()));
    let mut encoded = original.clone();
    assert_eq!(
        embed_payload(&mut encoded, meta, &[1u8; 29], b""),
        Err(StegError::PayloadTooLarge { real_size: 28 })
    );
    // A rejected embed leaves the buffer untouched.
    assert_eq!(encoded, original);
}

#[test]
fn format_mismatch_is_detected_first() {
    let original = vec![1u8; 300];
    let encoded = vec![2u8; 300];
    let r = extract_payload(&original, rgb_meta(10, 10), &encoded, rgb_meta(10, 5));
    assert_eq!(r, Err(StegError::FormatMismatch));
    let r = extract_payload(
        &original,
        rgb_meta(10, 10),
        &encoded,
        ImageMeta { width: 10, height: 10, bit_depth: 16, color: ColorKind::Rgb },
    );
    assert_eq!(r, Err(StegError::FormatMismatch));
    let r = extract_payload(
        &original,
        rgb_meta(10, 10),
        &encoded,
        ImageMeta { width: 10, height: 10, bit_depth: 8, color: ColorKind::Rgba },
    );
    assert_eq!(r, Err(StegError::FormatMismatch));
}

#[test]
fn unsupported_formats_are_rejected() {
    let indexed = ImageMeta { width: 10, height: 10, bit_depth: 8, color: ColorKind::Indexed };
    let shallow = ImageMeta { width: 10, height: 10, bit_depth: 4, color: ColorKind::Rgb };
    let mut buf = vec![0u8; 300];
    assert_eq!(
        embed_payload(&mut buf, indexed, b"x", b""),
        Err(StegError::UnsupportedImageFormat)
    );
    assert_eq!(
        embed_payload(&mut buf, shallow, b"x", b""),
        Err(StegError::UnsupportedImageFormat)
    );
    assert_eq!(
        extract_payload(&buf, indexed, &buf, indexed),
        Err(StegError::UnsupportedImageFormat)
    );
}

#[test]
fn garbage_carrier_fails_loudly() {
    // Two unrelated buffers: every byte differs, so every extracted bit is
    // set and no extension terminator can be found.
    let meta = rgb_meta(10, 10);
    let original = vec![0u8; 300];
    let encoded = vec![1u8; 300];
    let r = extract_payload(&original, meta, &encoded, meta);
    assert_eq!(r, Err(StegError::MalformedContainer));
}
