use ransid::{Console, Event};
use vesad::display::Display;
use vesad::event::{apply_event, apply_events, DrawEvent};
use vesad::font::glyph_row;
use vesad::scheme::DisplayScheme;

// ransid's default colors, as packed by ransid::Color::as_rgb
const FG: u32 = 0xFFC0_C0C0; // ANSI 7
const BG: u32 = 0xFF00_0000; // ANSI 0

/// Feed bytes to the terminal emulation and collect its drawing events in
/// order, exactly as the driver boundary does.
fn feed(console: &mut Console, buf: &[u8]) -> Vec<DrawEvent> {
    let mut events = Vec::new();
    console.write(buf, |ev| {
        events.push(match ev {
            Event::Char { x, y, c, color, .. } => DrawEvent::Char(x, y, c, color.as_rgb()),
            Event::Rect { x, y, w, h, color } => DrawEvent::Rect(x, y, w, h, color.as_rgb()),
            Event::Move { from_x, from_y, to_x, to_y, w, h } => {
                DrawEvent::Move(from_x, from_y, to_x, to_y, w, h)
            }
            Event::Input { data } => DrawEvent::Input(data.to_vec()),
            Event::ScreenBuffer { alternate, clear } => DrawEvent::ScreenBuffer(alternate, clear),
            Event::Resize { w, h } => DrawEvent::Resize(w, h),
            Event::Title { title } => DrawEvent::Title(title),
        })
    });
    events
}

/// A write request served end to end: bytes through the terminal, events
/// through the scheme.
fn serve_write(console: &mut Console, scheme: &mut DisplayScheme, buf: &[u8]) -> usize {
    let events = feed(console, buf);
    scheme.write(0, buf, &events)
}

#[test]
fn open_dup_fsync_close_succeed_and_change_nothing() {
    let mut console = Console::new(80, 25);
    let mut s = DisplayScheme::new(Display::new(640, 400));
    assert_eq!(s.open(b"", 0), 0);
    assert_eq!(s.dup(0), 0);
    assert_eq!(s.fsync(0), 0);
    assert_eq!(s.close(0), 0);
    // feed nothing through write either; the buffers stay cleared
    assert_eq!(serve_write(&mut console, &mut s, b""), 0);
    for i in 0..640 * 400 {
        assert_eq!(s.display.offscreen[i], 0);
        assert_eq!(s.display.onscreen[i], 0);
    }
}

#[test]
fn write_consumes_every_byte() {
    let mut console = Console::new(80, 25);
    let mut s = DisplayScheme::new(Display::new(640, 400));
    assert_eq!(serve_write(&mut console, &mut s, b"Hi"), 2);
    assert_eq!(serve_write(&mut console, &mut s, b"\x1b[2JHello World"), 15);
    assert_eq!(serve_write(&mut console, &mut s, b"\x1b["), 2); // an unfinished escape sequence
    assert_eq!(serve_write(&mut console, &mut s, &[0xFF, 0xFE, 0x00]), 3); // arbitrary bytes
}

#[test]
fn write_hi_renders_two_glyph_cells() {
    // 640x400 pixels = 80x25 character cells, all zero at the start
    let mut console = Console::new(80, 25);
    let mut s = DisplayScheme::new(Display::new(640, 400));
    assert_eq!(serve_write(&mut console, &mut s, b"Hi"), 2);
    // cell (0,0): 'H'; cell (1,0): 'i'; each cell first painted with the
    // background, then the glyph's set pixels with the foreground
    for (cell, ch) in [(0usize, 'H'), (1usize, 'i')] {
        for row in 0..16usize {
            let bits = glyph_row(ch, row);
            for col in 0..8usize {
                let px = row * 640 + cell * 8 + col;
                let expected = if (bits >> (7 - col)) & 1 == 1 { FG } else { BG };
                assert_eq!(s.display.offscreen[px], expected, "cell {} row {} col {}", cell, row, col);
                assert_eq!(s.display.onscreen[px], expected);
            }
        }
    }
    // the rest of the top row of cells is untouched
    assert_eq!(s.display.offscreen[16], 0);
}

#[test]
fn write_emits_two_char_events_for_hi() {
    let mut console = Console::new(80, 25);
    let events = feed(&mut console, b"Hi");
    let chars: Vec<&DrawEvent> = events
        .iter()
        .filter(|e| matches!(e, DrawEvent::Char(..)))
        .collect();
    assert_eq!(chars.len(), 2);
    assert!(matches!(chars[0], DrawEvent::Char(0, 0, 'H', _)));
    assert!(matches!(chars[1], DrawEvent::Char(1, 0, 'i', _)));
}

#[test]
fn write_overflowing_newlines_scrolls_one_row() {
    let mut console = Console::new(80, 25);
    let mut s = DisplayScheme::new(Display::new(640, 400));
    assert_eq!(serve_write(&mut console, &mut s, b"H"), 1);
    assert_eq!(s.display.offscreen[2 * 640], FG); // leftmost pixel of 'H' row 2
    // 25 newlines push the cursor past the last of the 25 rows: one scroll
    let feed_bytes = [b'\n'; 25];
    assert_eq!(serve_write(&mut console, &mut s, &feed_bytes), 25);
    // the 'H' cell row moved off the top: its pixels now hold old row 16.. content
    assert_eq!(s.display.offscreen[2 * 640], 0);
    // the newly exposed bottom character row is the background color
    for r in 384..400usize {
        for c in 0..640usize {
            assert_eq!(s.display.offscreen[r * 640 + c], BG);
        }
    }
    // the onscreen buffer matches the offscreen one after the scroll
    assert_eq!(s.display.onscreen, s.display.offscreen);
}

#[test]
fn write_clear_screen_fills_background() {
    let mut console = Console::new(80, 25);
    let mut s = DisplayScheme::new(Display::new(640, 400));
    serve_write(&mut console, &mut s, b"Hi");
    serve_write(&mut console, &mut s, b"\x1b[2J");
    for i in 0..640 * 400 {
        assert_eq!(s.display.offscreen[i], BG);
        assert_eq!(s.display.onscreen[i], BG);
    }
}

#[test]
fn apply_event_scales_cells_to_pixels() {
    let mut d = Display::new(64, 64);
    apply_event(&mut d, &DrawEvent::Rect(1, 1, 2, 1, 9));
    for r in 0..64usize {
        for c in 0..64usize {
            let expected = if (16..32).contains(&r) && (8..24).contains(&c) { 9 } else { 0 };
            assert_eq!(d.offscreen[r * 64 + c], expected);
            assert_eq!(d.onscreen[r * 64 + c], expected);
        }
    }
}

#[test]
fn apply_events_in_order() {
    let mut d = Display::new(64, 64);
    let events = vec![
        DrawEvent::Rect(0, 0, 8, 4, 1),
        DrawEvent::Rect(0, 0, 1, 1, 2),
    ];
    apply_events(&mut d, &events);
    assert_eq!(d.offscreen[0], 2); // the later event wins
    assert_eq!(d.offscreen[8], 1);
}

#[test]
fn unrendered_events_change_nothing() {
    let mut d = Display::new(32, 32);
    d.rect(0, 0, 32, 32, 0x33);
    let events = vec![
        DrawEvent::Input(vec![1, 2, 3]),
        DrawEvent::ScreenBuffer(true, true),
        DrawEvent::Resize(1, 1),
        DrawEvent::Title(String::from("t")),
    ];
    apply_events(&mut d, &events);
    for i in 0..32 * 32 {
        assert_eq!(d.offscreen[i], 0x33);
        assert_eq!(d.onscreen[i], 0x33);
    }
}

#[test]
fn move_event_scrolls_like_ransid() {
    // what a one-row scroll looks like when ransid decomposes it:
    // a Move of the lower 24 cell rows up by one, then a Rect on the last
    let mut d = Display::new(640, 400);
    d.rect(0, 32, 640, 16, 0x77); // a band in cell row 2
    let events = vec![
        DrawEvent::Move(0, 1, 0, 0, 80, 24),
        DrawEvent::Rect(0, 24, 80, 1, 0x11),
    ];
    apply_events(&mut d, &events);
    for c in 0..640usize {
        assert_eq!(d.offscreen[16 * 640 + c], 0x77); // the band moved up a cell row
        assert_eq!(d.offscreen[32 * 640 + c], 0);
        assert_eq!(d.offscreen[399 * 640 + c], 0x11);
    }
    assert_eq!(d.onscreen, d.offscreen);
}

#[test]
fn three_glyphs_in_any_of_two_orders() {
    // a third delivery order of three glyphs at distinct cells
    let orders = [
        vec![
            DrawEvent::Char(0, 0, 'H', 1),
            DrawEvent::Char(2, 1, 'e', 2),
            DrawEvent::Char(5, 0, 'l', 3),
        ],
        vec![
            DrawEvent::Char(5, 0, 'l', 3),
            DrawEvent::Char(0, 0, 'H', 1),
            DrawEvent::Char(2, 1, 'e', 2),
        ],
    ];
    let mut screens = Vec::new();
    for order in &orders {
        let mut d = Display::new(64, 48);
        apply_events(&mut d, order);
        screens.push((d.offscreen, d.onscreen));
    }
    assert_eq!(screens[0], screens[1]);
}

#[test]
fn char_events_at_disjoint_cells_commute_end_to_end() {
    // the same two glyph events, delivered in opposite orders
    let forward = vec![DrawEvent::Char(0, 0, 'H', 3), DrawEvent::Char(1, 0, 'i', 4)];
    let backward = vec![DrawEvent::Char(1, 0, 'i', 4), DrawEvent::Char(0, 0, 'H', 3)];
    let mut a = Display::new(64, 32);
    apply_events(&mut a, &forward);
    let mut b = Display::new(64, 32);
    apply_events(&mut b, &backward);
    assert_eq!(a.offscreen, b.offscreen);
    assert_eq!(a.onscreen, b.onscreen);
}
