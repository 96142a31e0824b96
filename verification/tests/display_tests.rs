use vesad::display::Display;

#[test]
fn new_buffers_are_zeroed() {
    let d = Display::new(32, 16);
    assert_eq!(d.width, 32);
    assert_eq!(d.height, 16);
    assert_eq!(d.offscreen.len(), 32 * 16);
    assert_eq!(d.onscreen.len(), 32 * 16);
    for i in 0..32 * 16 {
        assert_eq!(d.offscreen[i], 0);
        assert_eq!(d.onscreen[i], 0);
    }
}

#[test]
fn rect_fills_inside_and_leaves_outside() {
    let mut d = Display::new(32, 32);
    d.rect(4, 5, 8, 7, 0xAB);
    for r in 0..32usize {
        for c in 0..32usize {
            let expected = if 4 <= c && c < 12 && 5 <= r && r < 12 { 0xAB } else { 0 };
            assert_eq!(d.offscreen[r * 32 + c], expected);
            assert_eq!(d.onscreen[r * 32 + c], expected);
        }
    }
}

#[test]
fn rect_clips_to_bounds() {
    let mut d = Display::new(16, 16);
    d.rect(12, 10, 100, 100, 7);
    for r in 0..16usize {
        for c in 0..16usize {
            let expected = if c >= 12 && r >= 10 { 7 } else { 0 };
            assert_eq!(d.offscreen[r * 16 + c], expected);
            assert_eq!(d.onscreen[r * 16 + c], expected);
        }
    }
}

#[test]
fn rect_fully_offscreen_changes_nothing() {
    let mut d = Display::new(16, 16);
    d.rect(16, 0, 4, 4, 9);
    d.rect(0, 16, 4, 4, 9);
    d.rect(usize::MAX, usize::MAX, 4, 4, 9);
    for i in 0..16 * 16 {
        assert_eq!(d.offscreen[i], 0);
        assert_eq!(d.onscreen[i], 0);
    }
}

#[test]
fn char_draws_glyph_pixels() {
    let mut d = Display::new(32, 32);
    d.char(0, 0, 'H', 0xFF00FF00);
    for row in 0..16usize {
        let bits = vesad::font::glyph_row('H', row);
        for col in 0..8usize {
            let set = (bits >> (7 - col)) & 1 == 1;
            let expected = if set { 0xFF00FF00 } else { 0 };
            assert_eq!(d.offscreen[row * 32 + col], expected);
            assert_eq!(d.onscreen[row * 32 + col], expected);
        }
    }
    // row 6 of 'H' is the crossbar
    assert_eq!(vesad::font::glyph_row('H', 6), 0xFE);
    assert_eq!(d.offscreen[6 * 32 + 0], 0xFF00FF00);
}

#[test]
fn chars_at_disjoint_cells_commute() {
    let mut a = Display::new(32, 16);
    a.char(0, 0, 'H', 3);
    a.char(8, 0, 'i', 4);
    let mut b = Display::new(32, 16);
    b.char(8, 0, 'i', 4);
    b.char(0, 0, 'H', 3);
    assert_eq!(a.offscreen, b.offscreen);
    assert_eq!(a.onscreen, b.onscreen);
}

#[test]
fn scroll_moves_rows_up_and_fills_bottom() {
    let mut d = Display::new(8, 48);
    // one colored band at pixel rows 16..32
    d.rect(0, 16, 8, 16, 0xC0FFEE);
    d.scroll(16, 0x11);
    for r in 0..48usize {
        for c in 0..8usize {
            let expected = if r < 16 {
                0xC0FFEE // formerly rows 16..32
            } else if r < 32 {
                0 // formerly rows 32..48
            } else {
                0x11 // newly exposed
            };
            assert_eq!(d.offscreen[r * 8 + c], expected);
        }
    }
    assert_eq!(d.onscreen, d.offscreen);
}

#[test]
fn scroll_full_height_equals_full_rect() {
    let mut a = Display::new(16, 32);
    a.rect(2, 3, 5, 7, 0xAA);
    let mut b = Display::new(16, 32);
    b.rect(2, 3, 5, 7, 0xAA);
    a.scroll(32, 0x55);
    b.rect(0, 0, 16, 32, 0x55);
    assert_eq!(a.offscreen, b.offscreen);
    assert_eq!(a.onscreen, b.onscreen);
}

#[test]
fn scroll_by_more_than_height_fills_everything() {
    let mut d = Display::new(8, 8);
    d.rect(0, 0, 8, 8, 0xAA);
    d.scroll(1000, 0x42);
    for i in 0..64 {
        assert_eq!(d.offscreen[i], 0x42);
        assert_eq!(d.onscreen[i], 0x42);
    }
}

#[test]
fn scrolls_compose() {
    let mut a = Display::new(8, 64);
    a.rect(0, 32, 8, 8, 0x77);
    let mut b = Display::new(8, 64);
    b.rect(0, 32, 8, 8, 0x77);
    a.scroll(16, 0x13);
    a.scroll(16, 0x13);
    b.scroll(32, 0x13);
    assert_eq!(a.offscreen, b.offscreen);
    assert_eq!(a.onscreen, b.onscreen);
}

#[test]
fn move_rect_copies_block() {
    let mut d = Display::new(16, 16);
    d.rect(0, 0, 2, 2, 0x99);
    d.move_rect(0, 0, 8, 8, 2, 2);
    for r in 0..16usize {
        for c in 0..16usize {
            let in_src = r < 2 && c < 2;
            let in_dst = (8..10).contains(&r) && (8..10).contains(&c);
            let expected = if in_src || in_dst { 0x99 } else { 0 };
            assert_eq!(d.offscreen[r * 16 + c], expected);
            assert_eq!(d.onscreen[r * 16 + c], expected);
        }
    }
}

#[test]
fn move_rect_overlapping_upward() {
    let mut d = Display::new(4, 8);
    d.rect(0, 2, 4, 2, 5); // rows 2,3
    d.move_rect(0, 2, 0, 1, 4, 2); // shift the band up one row
    // source rows 2..3 land on rows 1..2; row 3 keeps its old value
    for r in 0..8usize {
        for c in 0..4usize {
            let expected = if (1..=3).contains(&r) { 5 } else { 0 };
            assert_eq!(d.offscreen[r * 4 + c], expected, "row {} col {}", r, c);
        }
    }
}
