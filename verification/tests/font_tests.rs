use vesad::font::{glyph_bits, glyph_row};
use vesad::primitive::{fill_range, filled};

#[test]
fn known_glyph_rows() {
    // 'H': blank cap, two stems, a crossbar at row 6
    assert_eq!(glyph_row('H', 0), 0x00);
    assert_eq!(glyph_row('H', 2), 0xC6);
    assert_eq!(glyph_row('H', 6), 0xFE);
    assert_eq!(glyph_row('H', 15), 0x00);
    // 'i': a dot, a gap, then the stem
    assert_eq!(glyph_row('i', 2), 0x18);
    assert_eq!(glyph_row('i', 4), 0x00);
    assert_eq!(glyph_row('i', 5), 0x38);
}

#[test]
fn space_and_controls_are_blank() {
    assert_eq!(glyph_bits(' '), 0);
    assert_eq!(glyph_bits('\n'), 0);
    assert_eq!(glyph_bits('\x00'), 0);
    for row in 0..16 {
        assert_eq!(glyph_row(' ', row), 0);
    }
}

#[test]
fn unknown_characters_render_as_a_box() {
    assert_eq!(glyph_bits('q'), glyph_bits('Z'));
    assert_ne!(glyph_bits('q'), 0);
    assert_eq!(glyph_row('q', 2), 0xFE);
    assert_eq!(glyph_row('q', 11), 0xFE);
    assert_eq!(glyph_row('q', 5), 0xC6);
}

#[test]
fn filled_and_fill_range() {
    let mut v = filled(10, 7);
    assert_eq!(v.len(), 10);
    assert!(v.iter().all(|&p| p == 7));
    fill_range(&mut v, 2, 5, 9);
    assert_eq!(v, vec![7, 7, 9, 9, 9, 7, 7, 7, 7, 7]);
}
