use discord_cache_explorer::text::{decimal_text, right_align};
use discord_cache_explorer::video::thumbnail_file_name;

#[test]
fn decimal_numerals() {
    assert_eq!(decimal_text(0), "0");
    assert_eq!(decimal_text(7), "7");
    assert_eq!(decimal_text(10), "10");
    assert_eq!(decimal_text(1_048_576), "1048576");
    assert_eq!(decimal_text(u64::MAX), u64::MAX.to_string());
}

#[test]
fn right_alignment() {
    assert_eq!(right_align("7", 4), format!("{:>4}", "7"));
    assert_eq!(right_align("image", 5), "image");
    assert_eq!(right_align("toolong", 3), "toolong");
    assert_eq!(right_align("", 2), "  ");
    assert_eq!(right_align("é", 3), format!("{:>3}", "é"));
}

#[test]
fn thumbnail_names() {
    assert_eq!(thumbnail_file_name(Some("f_00a1b2")), "f_00a1b2.png");
    assert_eq!(thumbnail_file_name(None), "cache-file.png");
}
