use sqlly_textbox::utf::{
    ceil_char_boundary, clamp_range, floor_char_boundary, utf16_offset_to_utf8,
    utf16_range_to_utf8, utf8_offset_to_utf16, utf8_range_to_utf16,
};

#[test]
fn ascii_round_trip() {
    let text = "hello world";
    assert_eq!(utf8_offset_to_utf16(text, 0), 0);
    assert_eq!(utf8_offset_to_utf16(text, 5), 5);
    assert_eq!(utf8_offset_to_utf16(text, 11), 11);
    assert_eq!(utf8_offset_to_utf16(text, 100), 11);
    assert_eq!(utf16_offset_to_utf8(text, 0), 0);
    assert_eq!(utf16_offset_to_utf8(text, 5), 5);
    assert_eq!(utf16_offset_to_utf8(text, 11), 11);
}

#[test]
fn emoji_bmp_vs_supplementary() {
    let text = "a😀b";
    assert_eq!(text.len(), 1 + 4 + 1);
    assert_eq!(utf8_offset_to_utf16(text, 0), 0);
    assert_eq!(utf8_offset_to_utf16(text, 1), 1);
    assert_eq!(utf8_offset_to_utf16(text, 5), 3);
    assert_eq!(utf8_offset_to_utf16(text, 6), 4);
    assert_eq!(utf16_offset_to_utf8(text, 0), 0);
    assert_eq!(utf16_offset_to_utf8(text, 1), 1);
    assert_eq!(utf16_offset_to_utf8(text, 3), 5);
    assert_eq!(utf16_offset_to_utf8(text, 4), 6);
}

#[test]
fn cjk_two_utf16_per_codepoint() {
    let text = "a你b";
    assert_eq!(text.len(), 1 + 3 + 1);
    assert_eq!(utf8_offset_to_utf16(text, 0), 0);
    assert_eq!(utf8_offset_to_utf16(text, 1), 1);
    // 你 is in the BMP, so it uses 1 UTF-16 code unit. utf8 byte 4 is
    // where 'b' starts, which is the 2nd utf-16 code unit.
    assert_eq!(utf8_offset_to_utf16(text, 4), 2);
    assert_eq!(utf8_offset_to_utf16(text, 5), 3);
}

#[test]
fn cjk_full_char_double_utf16() {
    // U+1F600 = 4 UTF-8 bytes, 2 UTF-16 code units.
    let text = "a😀b";
    assert_eq!(text.len(), 1 + 4 + 1);
    assert_eq!(utf8_offset_to_utf16(text, 0), 0);
    assert_eq!(utf8_offset_to_utf16(text, 1), 1);
    assert_eq!(utf8_offset_to_utf16(text, 5), 3);
    assert_eq!(utf8_offset_to_utf16(text, 6), 4);
}

#[test]
fn range_round_trip() {
    let text = "a😀你b";
    let utf8 = 1..5;
    let utf16 = utf8_range_to_utf16(text, utf8.clone());
    // 'a' is 1 utf16 unit, emoji is 2 utf16, 你 is 1 utf16 unit.
    assert_eq!(utf16, 1..3);
    assert_eq!(utf16_range_to_utf8(text, utf16), utf8);
}

#[test]
fn clamp_range_handles_invalid_offsets() {
    let text = "a😀b";
    // Both 2 and 4 are mid-emoji. clamp_range floors both ends.
    assert_eq!(clamp_range(text, &(0..2)), 0..1);
    assert_eq!(clamp_range(text, &(0..4)), 0..1);
    assert_eq!(clamp_range(text, &(0..999)), 0..text.len());
}

#[test]
fn floor_and_ceil_char_boundary() {
    let text = "a😀b";
    assert_eq!(floor_char_boundary(text, 0), 0);
    assert_eq!(floor_char_boundary(text, 2), 1);
    assert_eq!(floor_char_boundary(text, 4), 1);
    assert_eq!(ceil_char_boundary(text, 2), 5);
    assert_eq!(ceil_char_boundary(text, 4), 5);
}

#[test]
#[allow(clippy::reversed_empty_ranges)]
fn clamp_range_handles_out_of_bounds_and_reversed() {
    let text = "a😀b";
    assert_eq!(clamp_range(text, &(100..200)), text.len()..text.len());
    assert_eq!(clamp_range(text, &(0..999)), 0..text.len());
    // 4 is mid-emoji, floors to 1. 2 is mid-emoji, floors to 1.
    let r = clamp_range(text, &(4..2));
    assert_eq!(r, 1..1);
}

#[test]
fn utf16_range_to_utf8_with_out_of_bounds_offsets() {
    let text = "a😀b"; // 6 bytes, 4 UTF-16 code units
    assert_eq!(utf16_range_to_utf8(text, 10..20), text.len()..text.len());
    let r = utf16_range_to_utf8(text, 1..10);
    assert_eq!(r, 1..text.len());
}

#[test]
fn utf16_offset_inside_surrogate_pair_floors() {
    let text = "a😀b";
    // UTF-16 offset 2 is between the two halves of the emoji.
    assert_eq!(utf16_offset_to_utf8(text, 2), 1);
}

#[test]
fn utf8_offset_inside_char_rounds_up() {
    let text = "a😀b";
    // Byte 2 is inside the emoji: the emoji starts before it and is counted.
    assert_eq!(utf8_offset_to_utf16(text, 2), 3);
    assert_eq!(utf8_offset_to_utf16("", 0), 0);
}

#[test]
fn boundary_round_trip_law() {
    let text = "x😀é你\n z";
    let mut b = 0;
    while b <= text.len() {
        if text.is_char_boundary(b) {
            assert_eq!(utf16_offset_to_utf8(text, utf8_offset_to_utf16(text, b)), b);
        }
        b += 1;
    }
}

#[test]
fn ceil_and_floor_bracket_offsets() {
    let text = "é🦀z";
    for o in 0..=text.len() + 2 {
        let f = floor_char_boundary(text, o);
        let c = ceil_char_boundary(text, o);
        assert!(text.is_char_boundary(f));
        assert!(text.is_char_boundary(c));
        assert!(f <= o.min(text.len()));
        assert!(c >= o.min(text.len()));
    }
}
