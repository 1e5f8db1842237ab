use theme_extractor::color::Color;

fn hex(s: &str) -> Option<[u8; 4]> {
    Color::from(s).as_hex()
}

#[test]
fn single_zero_is_black() {
    assert_eq!(hex("0"), Some([0, 0, 0, 255]));
}

#[test]
fn short_text_is_gray() {
    assert_eq!(hex("f"), Some([15, 15, 15, 255]));
    assert_eq!(hex("ff"), Some([255, 255, 255, 255]));
}

#[test]
fn three_or_four_digits_repeat_second_byte() {
    // 0x1234: low byte 0x34, next 0x12
    assert_eq!(hex("1234"), Some([0x34, 0x12, 0x12, 255]));
    assert_eq!(hex("abc"), Some([0xbc, 0x0a, 0x0a, 255]));
}

#[test]
fn six_digits_take_bytes_from_the_low_end() {
    assert_eq!(hex("ff0000"), Some([0, 0, 255, 255]));
    assert_eq!(hex("00ff00"), Some([0, 255, 0, 255]));
    assert_eq!(hex("123456"), Some([0x56, 0x34, 0x12, 255]));
}

#[test]
fn eight_digits_give_all_four_bytes() {
    assert_eq!(hex("12345678"), Some([0x78, 0x56, 0x34, 0x12]));
}

#[test]
fn hash_prefix_is_stripped_but_counted() {
    // seven characters in all: the four-byte rule applies
    assert_eq!(hex("#ffffff"), Some([255, 255, 255, 0]));
    assert_eq!(hex("#f"), Some([15, 15, 15, 255]));
}

#[test]
fn non_hex_is_no_color() {
    assert_eq!(hex("zz"), None);
    assert_eq!(hex(""), None);
    assert_eq!(hex("#"), None);
    assert_eq!(hex("12 4"), None);
}

#[test]
fn too_long_is_no_color() {
    assert_eq!(hex("123456789"), None);
}

#[test]
fn signs_and_spaces_are_no_color() {
    assert_eq!(hex("+f"), None);
    assert_eq!(hex("-1"), None);
    assert_eq!(hex(" f"), None);
    assert_eq!(hex("#+ff"), None);
}
