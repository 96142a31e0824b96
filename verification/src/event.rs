//! Drawing events and their application to the display.
//!
//! The terminal emulation turns a byte stream into a finite, ordered
//! sequence of events; `apply_events` plays such a sequence against a
//! `Display`, one event at a time, in order. Events carry character-cell
//! coordinates, which scale to pixels by the fixed 8x16 glyph geometry.

use vstd::arithmetic::div_mod::lemma_fundamental_div_mod;
use vstd::prelude::*;

use crate::display::{
    char_px, copy_region_px, move_px, rect_px, Display,
};

verus! {

/// Width of a glyph cell in pixels.
pub const CELL_W: usize = 8;

/// Height of a glyph cell in pixels.
pub const CELL_H: usize = 16;

/// One drawing event, in character-cell coordinates.
pub enum DrawEvent {
    /// Render a glyph: cell x, cell y, the character, the color.
    Char(usize, usize, char, u32),
    /// Fill a cell rectangle: cell x, cell y, width and height in cells,
    /// the color.
    Rect(usize, usize, usize, usize, u32),
    /// Copy a cell block: source x and y, target x and y, width and height
    /// in cells.
    Move(usize, usize, usize, usize, usize, usize),
    /// Bytes the terminal answers to the writer; nothing to render.
    Input(Vec<u8>),
    /// A switch between the main and the alternate screen (and whether it is
    /// cleared); not rendered here.
    ScreenBuffer(bool, bool),
    /// A resize request; the display's dimensions are fixed by the hardware.
    Resize(usize, usize),
    /// A window title; nothing to render.
    Title(String),
}

/// Both pixel buffers of a display as one spec-level value.
#[verifier::ext_equal]
pub struct Screen {
    pub off: Seq<u32>,
    pub on: Seq<u32>,
}

/// The two buffers of `d`.
pub open spec fn screen_of(d: Display) -> Screen {
    Screen { off: d.offscreen@, on: d.onscreen@ }
}

/// `n * k`, clamped to the machine range. A clamped coordinate starts past
/// the end of any buffer, so clamping never changes what is drawn.
pub open spec fn sat_mul_spec(n: int, k: int) -> int {
    if n * k > usize::MAX {
        usize::MAX as int
    } else {
        n * k
    }
}

fn sat_mul(n: usize, k: usize) -> (r: usize)
    requires
        1 <= k,
    ensures
        r == sat_mul_spec(n as int, k as int),
{
    let q: usize = usize::MAX / k;
    proof {
        lemma_fundamental_div_mod(usize::MAX as int, k as int);
        assert(0 <= usize::MAX as int % (k as int) < k as int) by (nonlinear_arith)
            requires
                1 <= k,
        ;
    }
    if n > q {
        proof {
            assert(n * k > usize::MAX) by (nonlinear_arith)
                requires
                    n >= q + 1,
                    usize::MAX as int == (k as int) * q + usize::MAX as int % (k as int),
                    usize::MAX as int % (k as int) < k,
                    1 <= k,
            ;
        }
        usize::MAX
    } else {
        proof {
            assert(n * k <= usize::MAX) by (nonlinear_arith)
                requires
                    0 <= n <= q,
                    usize::MAX as int == (k as int) * q + usize::MAX as int % (k as int),
                    0 <= usize::MAX as int % (k as int),
                    1 <= k,
            ;
        }
        n * k
    }
}

/// A glyph: the offscreen buffer takes the glyph's set pixels, the
/// onscreen buffer a copy of the whole cell.
pub open spec fn char_op(s: Screen, width: int, x: int, y: int, c: char, color: u32) -> Screen {
    let off = char_px(s.off, width, x, y, c, color);
    Screen { off: off, on: copy_region_px(s.on, off, width, x, y, 8, 16) }
}

/// A rectangle fill, applied alike to both buffers.
pub open spec fn rect_op(s: Screen, width: int, x: int, y: int, w: int, h: int, color: u32) -> Screen {
    Screen {
        off: rect_px(s.off, width, x, y, w, h, color),
        on: rect_px(s.on, width, x, y, w, h, color),
    }
}

/// A block move on the offscreen buffer, its target region copied onscreen.
pub open spec fn move_op(s: Screen, width: int, height: int, fx: int, fy: int, tx: int, ty: int, w: int, h: int) -> Screen {
    let off = move_px(s.off, width, height, fx, fy, tx, ty, w, h);
    Screen { off: off, on: copy_region_px(s.on, off, width, tx, ty, w, h) }
}

/// What one event does to the screen: cell coordinates scale by the 8x16
/// glyph geometry; events the display does not render leave it unchanged.
pub open spec fn event_op(s: Screen, width: int, height: int, ev: DrawEvent) -> Screen {
    match ev {
        DrawEvent::Char(x, y, c, color) => char_op(
            s,
            width,
            sat_mul_spec(x as int, 8),
            sat_mul_spec(y as int, 16),
            c,
            color,
        ),
        DrawEvent::Rect(x, y, w, h, color) => rect_op(
            s,
            width,
            sat_mul_spec(x as int, 8),
            sat_mul_spec(y as int, 16),
            sat_mul_spec(w as int, 8),
            sat_mul_spec(h as int, 16),
            color,
        ),
        DrawEvent::Move(fx, fy, tx, ty, w, h) => move_op(
            s,
            width,
            height,
            sat_mul_spec(fx as int, 8),
            sat_mul_spec(fy as int, 16),
            sat_mul_spec(tx as int, 8),
            sat_mul_spec(ty as int, 16),
            sat_mul_spec(w as int, 8),
            sat_mul_spec(h as int, 16),
        ),
        _ => s,
    }
}

/// The screen after every event of `evs`, first event first.
pub open spec fn events_op(s: Screen, width: int, height: int, evs: Seq<DrawEvent>) -> Screen
    decreases evs.len(),
{
    if evs.len() == 0 {
        s
    } else {
        events_op(event_op(s, width, height, evs[0]), width, height, evs.drop_first())
    }
}

/// Apply one event to the display.
pub fn apply_event(d: &mut Display, ev: &DrawEvent)
    requires
        old(d).wf(),
    ensures
        final(d).wf(),
        final(d).width == old(d).width,
        final(d).height == old(d).height,
        screen_of(*final(d)) == event_op(
            screen_of(*old(d)),
            old(d).width as int,
            old(d).height as int,
            *ev,
        ),
{
    match ev {
        DrawEvent::Char(x, y, c, color) => {
            let px = sat_mul(*x, CELL_W);
            let py = sat_mul(*y, CELL_H);
            d.char(px, py, *c, *color);
        },
        DrawEvent::Rect(x, y, w, h, color) => {
            let px = sat_mul(*x, CELL_W);
            let py = sat_mul(*y, CELL_H);
            let pw = sat_mul(*w, CELL_W);
            let ph = sat_mul(*h, CELL_H);
            d.rect(px, py, pw, ph, *color);
        },
        DrawEvent::Move(fx, fy, tx, ty, w, h) => {
            let pfx = sat_mul(*fx, CELL_W);
            let pfy = sat_mul(*fy, CELL_H);
            let ptx = sat_mul(*tx, CELL_W);
            let pty = sat_mul(*ty, CELL_H);
            let pw = sat_mul(*w, CELL_W);
            let ph = sat_mul(*h, CELL_H);
            d.move_rect(pfx, pfy, ptx, pty, pw, ph);
        },
        DrawEvent::Input(..) => {},
        DrawEvent::ScreenBuffer(..) => {},
        DrawEvent::Resize(..) => {},
        DrawEvent::Title(..) => {},
    }
}

/// Appending one event to a sequence applies it after the sequence.
proof fn lemma_events_op_snoc(s: Screen, width: int, height: int, es: Seq<DrawEvent>, e: DrawEvent)
    ensures
        events_op(s, width, height, es.push(e)) == event_op(
            events_op(s, width, height, es),
            width,
            height,
            e,
        ),
    decreases es.len(),
{
    if es.len() == 0 {
        assert(es.push(e).drop_first() =~= Seq::<DrawEvent>::empty());
        assert(es.push(e)[0] == e);
        assert(events_op(s, width, height, es) == s);
        assert(events_op(event_op(s, width, height, e), width, height, Seq::<DrawEvent>::empty())
            == event_op(s, width, height, e));
        assert(events_op(s, width, height, es.push(e)) == event_op(s, width, height, e));
    } else {
        assert(es.push(e).drop_first() =~= es.drop_first().push(e));
        assert(es.push(e)[0] == es[0]);
        lemma_events_op_snoc(event_op(s, width, height, es[0]), width, height, es.drop_first(), e);
        assert(events_op(s, width, height, es.push(e)) == events_op(
            event_op(s, width, height, es[0]),
            width,
            height,
            es.drop_first().push(e),
        ));
        assert(events_op(s, width, height, es) == events_op(
            event_op(s, width, height, es[0]),
            width,
            height,
            es.drop_first(),
        ));
    }
}

/// Apply a whole sequence of events to the display, in order.
pub fn apply_events(d: &mut Display, evs: &Vec<DrawEvent>)
    requires
        old(d).wf(),
    ensures
        final(d).wf(),
        final(d).width == old(d).width,
        final(d).height == old(d).height,
        screen_of(*final(d)) == events_op(
            screen_of(*old(d)),
            old(d).width as int,
            old(d).height as int,
            evs@,
        ),
{
    let ghost w = d.width as int;
    let ghost hh = d.height as int;
    let ghost s0 = screen_of(*d);
    let mut i: usize = 0;
    while i < evs.len()
        invariant
            d.wf(),
            d.width == old(d).width,
            d.height == old(d).height,
            w == old(d).width as int,
            hh == old(d).height as int,
            s0 == screen_of(*old(d)),
            i <= evs@.len(),
            screen_of(*d) == events_op(s0, w, hh, evs@.take(i as int)),
        decreases evs@.len() - i,
    {
        apply_event(d, &evs[i]);
        proof {
            assert(evs@.take(i + 1) =~= evs@.take(i as int).push(evs@[i as int]));
            lemma_events_op_snoc(s0, w, hh, evs@.take(i as int), evs@[i as int]);
        }
        i = i + 1;
    }
    proof {
        assert(evs@.take(evs@.len() as int) =~= evs@);
    }
}

} // verus!
