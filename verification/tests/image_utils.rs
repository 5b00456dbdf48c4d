use qaqh_workspace::base64::{base64_decode, base64_encode};
use qaqh_workspace::image_query::image_utils::{
    detect_mime, detect_mime_from_bytes, detect_mime_from_data_uri, encode_base64, simple_base64_decode,
    is_decodable, is_plain_tiff, standardize_image,
};

// A minimal valid PNG (1×1 pixel, red, uncompressed)
fn make_test_png() -> Vec<u8> {
    // 1×1 red pixel PNG
    vec![
        0x89, 0x50, 0x4E, 0x47, 0x0D, 0x0A, 0x1A, 0x0A, // signature
        0x00, 0x00, 0x00, 0x0D, 0x49, 0x48, 0x44, 0x52, // IHDR
        0x00, 0x00, 0x00, 0x01, 0x00, 0x00, 0x00, 0x01, // 1×1
        0x08, 0x02, 0x00, 0x00, 0x00, 0x90, 0x77, 0x53, 0xDE, // IHDR CRC
        0x00, 0x00, 0x00, 0x0E, 0x49, 0x44, 0x41, 0x54, // IDAT
        0x78, 0x9C, 0x62, 0x60, 0x60, 0x60, 0x00, 0x00, 0x00, 0x04, 0x00, 0x01, 0x27, 0x34,
        0x03, 0x7A, // IDAT data + CRC
        0x00, 0x00, 0x00, 0x00, 0x49, 0x45, 0x4E, 0x44, // IEND
        0xAE, 0x42, 0x60, 0x82, // IEND CRC
    ]
}

#[test]
fn detect_png_magic() {
    let png = make_test_png();
    assert_eq!(detect_mime_from_bytes(&png), "image/png");
}

#[test]
fn detect_jpeg_magic() {
    let jpeg_header = vec![0xFF, 0xD8, 0xFF, 0xE0, 0x00, 0x10, 0x4A, 0x46];
    assert_eq!(detect_mime_from_bytes(&jpeg_header), "image/jpeg");
}

#[test]
fn detect_gif_magic() {
    let gif_header = vec![0x47, 0x49, 0x46, 0x38, 0x39, 0x61];
    assert_eq!(detect_mime_from_bytes(&gif_header), "image/gif");
}

#[test]
fn detect_webp_magic() {
    let webp = b"RIFF\x00\x00\x00\x00WEBP";
    assert_eq!(detect_mime_from_bytes(webp), "image/webp");
}

#[test]
fn detect_bmp_magic() {
    let bmp = vec![0x42, 0x4D, 0x00, 0x00];
    assert_eq!(detect_mime_from_bytes(&bmp), "image/bmp");
}

#[test]
fn detect_tiff_magic_le() {
    let tiff = vec![0x49, 0x49, 0x2A, 0x00];
    assert_eq!(detect_mime_from_bytes(&tiff), "image/tiff");
}

#[test]
fn detect_tiff_magic_be() {
    let tiff = vec![0x4D, 0x4D, 0x00, 0x2A];
    assert_eq!(detect_mime_from_bytes(&tiff), "image/tiff");
}

#[test]
fn detect_mime_from_data_uri_prefix() {
    assert_eq!(
        detect_mime_from_data_uri("data:image/jpeg;base64,/9j/4AAQ"),
        Some("image/jpeg".to_string())
    );
    assert_eq!(
        detect_mime_from_data_uri("data:image/png;base64,iVBORw"),
        Some("image/png".to_string())
    );
    assert_eq!(detect_mime_from_data_uri("not a data uri"), None);
}

#[test]
fn base64_encode_decode_roundtrip() {
    let original = b"Hello, world! This is a test.";
    let encoded = encode_base64(original);
    let decoded = simple_base64_decode(&encoded.chars().collect::<Vec<char>>());
    assert_eq!(decoded, original);
}

#[test]
fn base64_encode_png() {
    let png = make_test_png();
    let b64 = encode_base64(&png);
    // Should be valid base64 (no special chars)
    assert!(
        b64.chars()
            .all(|c| c.is_ascii_alphanumeric() || c == '+' || c == '/' || c == '=')
    );
    // Decode should match original
    let decoded = simple_base64_decode(&b64.chars().collect::<Vec<char>>());
    assert_eq!(decoded, png);
}

#[test]
fn base64_padding() {
    // 1 byte → 4 chars with "=="
    assert_eq!(encode_base64(b"f"), "Zg==");
    // 2 bytes → 4 chars with "="
    assert_eq!(encode_base64(b"fo"), "Zm8=");
    // 3 bytes → 4 chars
    assert_eq!(encode_base64(b"foo"), "Zm9v");
}

#[test]
fn standardize_png_identity() {
    let png = make_test_png();
    let (std_bytes, mime) = standardize_image(&png);
    assert_eq!(mime, "image/png");
    // Re-standardized PNG should still be valid
    let mime2 = detect_mime_from_bytes(&std_bytes);
    assert_eq!(mime2, "image/png");
}

#[test]
fn standardize_unknown_bytes_fallback() {
    let garbage = vec![0x00, 0x01, 0x02, 0x03];
    let (bytes, mime) = standardize_image(&garbage);
    // Should fall back to original bytes
    assert_eq!(bytes, garbage);
    assert_eq!(mime, "image/png"); // default fallback
}

#[test]
fn full_pipeline_base64_roundtrip() {
    // Simulate: receive raw image → standardize → base64 → detect
    let png = make_test_png();
    let (std_bytes, mime) = standardize_image(&png);
    assert_eq!(mime, "image/png");

    let b64 = encode_base64(&std_bytes);
    let detected = detect_mime(&b64);
    assert_eq!(detected, "image/png");
}

#[test]
fn strict_decoding_undoes_encoding() {
    for n in 0..20u8 {
        let bytes: Vec<u8> = (0..n).map(|i| i.wrapping_mul(37)).collect();
        assert_eq!(base64_decode(&base64_encode(&bytes)).unwrap(), bytes);
    }
    assert_eq!(base64_encode(&[0xfb, 0xff]), "+/8=");
    assert_eq!(base64_decode("Z g=").unwrap(), b"f");
    assert!(base64_decode("Z!==").is_err());
}

#[test]
fn converted_image_is_a_png() {
    let mut gif = b"GIF89a".to_vec();
    gif.extend([1, 0, 1, 0, 0x80, 0, 0, 255, 0, 0, 0, 0, 0]);
    gif.extend([0x2c, 0, 0, 0, 0, 1, 0, 1, 0, 0, 2, 2, 0x44, 1, 0, 0x3b]);
    assert_eq!(detect_mime_from_bytes(&gif), "image/gif");
    let (bytes, mime) = standardize_image(&gif);
    assert_eq!(mime, "image/png");
    assert_eq!(detect_mime_from_bytes(&bytes), "image/png");
    assert_ne!(bytes, gif);
}

#[test]
fn truncated_images_are_kept_as_they_are() {
    let jpeg = vec![0xFF, 0xD8, 0xFF, 0xE0, 0x00];
    assert_eq!(standardize_image(&jpeg), (jpeg.clone(), "image/jpeg".to_string()));
    let gif = b"GIF89a".to_vec();
    assert_eq!(standardize_image(&gif), (gif.clone(), "image/gif".to_string()));
}

fn make_test_bmp() -> Vec<u8> {
    let mut bmp = b"BM".to_vec();
    bmp.extend([58, 0, 0, 0, 0, 0, 0, 0, 54, 0, 0, 0]);
    bmp.extend([40, 0, 0, 0, 1, 0, 0, 0, 1, 0, 0, 0, 1, 0, 24, 0]);
    bmp.extend([0; 24]);
    bmp.extend([10, 20, 30, 0]);
    bmp
}

#[test]
fn a_bmp_becomes_a_png() {
    let bmp = make_test_bmp();
    let (bytes, mime) = standardize_image(&bmp);
    assert_eq!(mime, "image/png");
    assert_eq!(bytes[..8], [0x89, 0x50, 0x4e, 0x47, 0x0d, 0x0a, 0x1a, 0x0a]);
}

#[test]
fn images_that_are_not_handed_over_stay_as_they_are() {
    let png = make_test_png();
    assert_eq!(standardize_image(&png), (png.clone(), "image/png".to_string()));
    assert!(is_decodable(b"GIF87a") && is_decodable(b"GIF89a") && is_decodable(b"BM"));
    assert!(!is_decodable(b"GIF88a") && !is_decodable(b"GIF8") && !is_decodable(b"B"));
    assert!(!is_decodable(&png));
    let tiff = vec![0x49, 0x49, 0x2a, 0x00, 8, 0, 0, 0];
    assert_eq!(standardize_image(&tiff), (tiff.clone(), "image/tiff".to_string()));
}

fn short(n: u16, big_endian: bool) -> [u8; 2] {
    if big_endian { n.to_be_bytes() } else { n.to_le_bytes() }
}

fn long(n: u32, big_endian: bool) -> [u8; 4] {
    if big_endian { n.to_be_bytes() } else { n.to_le_bytes() }
}

// A grey TIFF of one pixel, with more entries in its directory.
fn make_test_tiff(big_endian: bool, more: &[(u16, u16)]) -> Vec<u8> {
    let plain = [(256, 1), (257, 1), (258, 8), (262, 1), (277, 1), (278, 1), (279, 1)];
    let entries = plain.len() + more.len() + 1;
    let pixel = 8 + 2 + 12 * entries + 4;
    let mut tiff = if big_endian { b"MM\0*".to_vec() } else { b"II*\0".to_vec() };
    tiff.extend(long(8, big_endian));
    tiff.extend(short(entries as u16, big_endian));
    for &(tag, value) in plain.iter().chain(more).chain(&[(273, pixel as u16)]) {
        tiff.extend(short(tag, big_endian));
        tiff.extend(short(3, big_endian));
        tiff.extend(long(1, big_endian));
        tiff.extend(short(value, big_endian));
        tiff.extend([0, 0]);
    }
    tiff.extend([0, 0, 0, 0, 200]);
    tiff
}

#[test]
fn a_plain_tiff_becomes_a_png() {
    for big_endian in [false, true] {
        let tiff = make_test_tiff(big_endian, &[(259, 1), (284, 1)]);
        assert!(is_plain_tiff(&tiff));
        assert_eq!(detect_mime_from_bytes(&tiff), "image/tiff");
        let (bytes, mime) = standardize_image(&tiff);
        assert_eq!(mime, "image/png");
        assert_eq!(detect_mime_from_bytes(&bytes), "image/png");
        assert_ne!(bytes, tiff);
        for odd in [(284, 2), (259, 7), (324, 0), (325, 0)] {
            let tiff = make_test_tiff(big_endian, &[odd]);
            assert!(!is_plain_tiff(&tiff));
            assert_eq!(standardize_image(&tiff), (tiff.clone(), "image/tiff".to_string()));
        }
    }
    let cut = make_test_tiff(false, &[])[..100].to_vec();
    assert!(!is_plain_tiff(&cut));
}
