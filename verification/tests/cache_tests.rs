use discord_cache_explorer::cache::{decode_image, image_from_rgba, rgba_len_fits, sniff_kind, CacheKind};

const TWO_PIXEL_PNG: [u8; 71] = [
    0x89, 0x50, 0x4e, 0x47, 0x0d, 0x0a, 0x1a, 0x0a, 0x00, 0x00, 0x00, 0x0d, 0x49, 0x48, 0x44, 0x52,
    0x00, 0x00, 0x00, 0x02, 0x00, 0x00, 0x00, 0x01, 0x08, 0x06, 0x00, 0x00, 0x00, 0xf4, 0x22, 0x7f,
    0x8a, 0x00, 0x00, 0x00, 0x0e, 0x49, 0x44, 0x41, 0x54, 0x78, 0x9c, 0x63, 0xf8, 0xcf, 0xc0, 0x00,
    0x42, 0x0d, 0x00, 0x0f, 0x7a, 0x03, 0x7e, 0x77, 0xe9, 0x7f, 0x97, 0x00, 0x00, 0x00, 0x00, 0x49,
    0x45, 0x4e, 0x44, 0xae, 0x42, 0x60, 0x82,
];

#[test]
fn labels_of_kinds() {
    assert_eq!(CacheKind::Image.label(), "image");
    assert_eq!(CacheKind::Video.label(), "video");
    assert_eq!(CacheKind::Other.label(), "other");
}

#[test]
fn sniffs_png() {
    assert_eq!(sniff_kind(&TWO_PIXEL_PNG), CacheKind::Image);
    assert_eq!(sniff_kind(b"\x89PNG\r\n\x1a\n"), CacheKind::Image);
    assert_eq!(sniff_kind(b"\x89PNG\r\n\x1a"), CacheKind::Other);
}

#[test]
fn sniffs_jpeg_and_gif() {
    assert_eq!(sniff_kind(&[0xff, 0xd8, 0xff, 0xe0, 0, 0x10]), CacheKind::Image);
    assert_eq!(sniff_kind(&[0xff, 0xd8]), CacheKind::Other);
    assert_eq!(sniff_kind(b"GIF87a...."), CacheKind::Image);
    assert_eq!(sniff_kind(b"GIF89a"), CacheKind::Image);
    assert_eq!(sniff_kind(b"GIF88a"), CacheKind::Other);
}

#[test]
fn sniffs_riff_forms() {
    assert_eq!(sniff_kind(b"RIFF\x10\x00\x00\x00WEBPVP8 "), CacheKind::Image);
    assert_eq!(sniff_kind(b"RIFF\x10\x00\x00\x00AVI LIST"), CacheKind::Video);
    assert_eq!(sniff_kind(b"RIFF\x10\x00\x00\x00WAVEfmt "), CacheKind::Other);
    assert_eq!(sniff_kind(b"RIFF\x10\x00\x00\x00WEB"), CacheKind::Other);
}

#[test]
fn sniffs_iso_media_only_past_twelve_bytes() {
    assert_eq!(sniff_kind(b"\x00\x00\x00\x20ftypisom\x00\x00\x02\x00"), CacheKind::Video);
    assert_eq!(sniff_kind(b"\x00\x00\x00\x20ftypisom"), CacheKind::Other);
    assert_eq!(sniff_kind(b"\x00\x00\x00\x20ftypisomX"), CacheKind::Video);
}

#[test]
fn sniffs_matroska() {
    assert_eq!(sniff_kind(&[0x1a, 0x45, 0xdf, 0xa3, 0x9f]), CacheKind::Video);
    assert_eq!(sniff_kind(&[0x1a, 0x45, 0xdf]), CacheKind::Other);
}

#[test]
fn sniffs_nothing_in_empty_or_text() {
    assert_eq!(sniff_kind(&[]), CacheKind::Other);
    assert_eq!(sniff_kind(b"hello world, this is text"), CacheKind::Other);
}

#[test]
fn decodes_png_pixels() {
    let image = decode_image(&TWO_PIXEL_PNG).expect("the PNG decodes");
    assert_eq!(image.width, 2);
    assert_eq!(image.height, 1);
    assert_eq!(image.rgba, vec![255, 0, 0, 255, 0, 0, 255, 128]);
}

#[test]
fn refuses_undecodable_bytes() {
    assert!(decode_image(b"not an image at all").is_err());
    assert!(decode_image(&TWO_PIXEL_PNG[..30]).is_err());
}

#[test]
fn pixel_buffer_size_check() {
    assert!(rgba_len_fits(2, 1, 8));
    assert!(!rgba_len_fits(2, 1, 7));
    assert!(rgba_len_fits(0, 5, 0));
    assert!(!rgba_len_fits(u32::MAX, u32::MAX, usize::MAX));
    assert!(rgba_len_fits(1000, 1000, 4_000_000));
}

#[test]
fn pictures_from_rgba_buffers() {
    let picture = image_from_rgba(1, 2, vec![1, 2, 3, 4, 5, 6, 7, 8]).expect("eight bytes fit 1x2");
    assert_eq!((picture.width, picture.height), (1, 2));
    assert_eq!(picture.rgba, vec![1, 2, 3, 4, 5, 6, 7, 8]);
    match image_from_rgba(2, 2, vec![0; 15]) {
        Err(message) => assert_eq!(message, "decoded pixel buffer does not match the image size"),
        Ok(_) => panic!("fifteen bytes do not fit 2x2"),
    }
}

#[test]
fn decoder_message_is_kept() {
    let bytes = b"not an image at all";
    let expected = image::load_from_memory(bytes).unwrap_err().to_string();
    match decode_image(bytes) {
        Err(message) => assert_eq!(message, expected),
        Ok(_) => panic!("text is not an image"),
    }
    let truncated = &TWO_PIXEL_PNG[..30];
    let expected = image::load_from_memory(truncated).unwrap_err().to_string();
    assert_eq!(decode_image(truncated).unwrap_err(), expected);
    assert!(!expected.is_empty());
}
