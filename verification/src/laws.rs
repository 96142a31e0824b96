//! Laws the drawing operations obey, stated over the sequence transforms
//! of `display` and proved for every buffer and every argument.

use vstd::prelude::*;

use crate::display::{
    char_px, lemma_char_px_empty, lemma_copy_region_px_empty, lemma_flat, lemma_flat_bound,
    lemma_grid, rect_px, scroll_px,
};
use crate::event::{char_op, event_op, events_op, sat_mul_spec, DrawEvent, Screen};

verus! {

/// After a rectangle fill, a pixel inside the rectangle reads the fill
/// color, and a pixel outside it is unchanged, at any row `r` and column `c`.
pub proof fn lemma_rect_pixels(
    s: Seq<u32>,
    width: int,
    height: int,
    x: int,
    y: int,
    w: int,
    h: int,
    color: u32,
    r: int,
    c: int,
)
    requires
        s.len() == width * height,
        0 < width,
        0 <= r < height,
        0 <= c < width,
    ensures
        x <= c < x + w && y <= r < y + h ==> rect_px(s, width, x, y, w, h, color)[r * width + c]
            == color,
        !(x <= c < x + w && y <= r < y + h) ==> rect_px(s, width, x, y, w, h, color)[r * width + c]
            == s[r * width + c],
{
    lemma_flat(width, r, c);
    lemma_flat_bound(width, height, r, c);
}

/// Glyphs drawn at cells that do not overlap commute: painting the two in
/// either order gives the same buffer.
pub proof fn lemma_char_commutes(
    s: Seq<u32>,
    width: int,
    height: int,
    x1: int,
    y1: int,
    c1: char,
    color1: u32,
    x2: int,
    y2: int,
    c2: char,
    color2: u32,
)
    requires
        s.len() == width * height,
        x1 + 8 <= x2 || x2 + 8 <= x1 || y1 + 16 <= y2 || y2 + 16 <= y1,
    ensures
        char_px(char_px(s, width, x1, y1, c1, color1), width, x2, y2, c2, color2) == char_px(
            char_px(s, width, x2, y2, c2, color2),
            width,
            x1,
            y1,
            c1,
            color1,
        ),
{
    let a = char_px(char_px(s, width, x1, y1, c1, color1), width, x2, y2, c2, color2);
    let b = char_px(char_px(s, width, x2, y2, c2, color2), width, x1, y1, c1, color1);
    assert forall|i: int| 0 <= i < s.len() implies a[i] == b[i] by {}
    assert(a =~= b);
}

/// Scrolling by the full height fills the whole buffer with the color,
/// exactly like a fill of the full bounds.
pub proof fn lemma_scroll_full(s: Seq<u32>, width: int, height: int, color: u32)
    requires
        s.len() == width * height,
        0 <= width,
        0 <= height,
    ensures
        scroll_px(s, width, height, height, color) == rect_px(
            s,
            width,
            0,
            0,
            width,
            height,
            color,
        ),
{
    assert forall|i: int| 0 <= i < s.len() implies scroll_px(s, width, height, height, color)[i]
        == rect_px(s, width, 0, 0, width, height, color)[i] by {
        assert(0 < width && 0 < height) by (nonlinear_arith)
            requires
                0 <= width,
                0 <= height,
                0 <= i < width * height,
        ;
        lemma_grid(width, height, i);
    }
    assert(scroll_px(s, width, height, height, color) =~= rect_px(
        s,
        width,
        0,
        0,
        width,
        height,
        color,
    ));
}

/// A scroll by `a` followed by a scroll by `b` with the same fill color is
/// one scroll by `a + b`, when `a + b` does not exceed the height.
pub proof fn lemma_scroll_compose(s: Seq<u32>, width: int, height: int, a: int, b: int, color: u32)
    requires
        s.len() == width * height,
        0 <= a,
        0 <= b,
        a + b <= height,
        0 <= width,
    ensures
        scroll_px(scroll_px(s, width, height, a, color), width, height, b, color) == scroll_px(
            s,
            width,
            height,
            a + b,
            color,
        ),
{
    let t = scroll_px(s, width, height, a, color);
    assert forall|i: int| 0 <= i < s.len() implies scroll_px(t, width, height, b, color)[i]
        == scroll_px(s, width, height, a + b, color)[i] by {
        assert(0 < width && 0 < height) by (nonlinear_arith)
            requires
                0 <= width,
                0 <= i < width * height,
        ;
        lemma_grid(width, height, i);
        let q = i / width;
        let m = i % width;
        if q + b < height {
            let j = i + b * width;
            assert(j == (q + b) * width + m) by (nonlinear_arith)
                requires
                    i == q * width + m,
                    j == i + b * width,
            ;
            lemma_flat(width, q + b, m);
            lemma_flat_bound(width, height, q + b, m);
            assert(j / width == q + b);
            assert(j + a * width == i + (a + b) * width) by (nonlinear_arith)
                requires
                    j == i + b * width,
            ;
        }
    }
    assert(scroll_px(t, width, height, b, color) =~= scroll_px(s, width, height, a + b, color));
}

/// Whether the event renders a glyph.
pub open spec fn is_glyph(ev: DrawEvent) -> bool {
    match ev {
        DrawEvent::Char(_, _, _, _) => true,
        _ => false,
    }
}

/// The character cell a glyph event renders into.
pub open spec fn glyph_cell(ev: DrawEvent) -> (int, int) {
    match ev {
        DrawEvent::Char(x, y, _, _) => (x as int, y as int),
        _ => (0, 0),
    }
}

/// Every event of `evs` is a glyph, and no two are at the same cell.
pub open spec fn distinct_glyph_cells(evs: Seq<DrawEvent>) -> bool {
    (forall|k: int| 0 <= k < evs.len() ==> is_glyph(#[trigger] evs[k])) && (forall|k: int, l: int|
        0 <= k < l < evs.len() ==> glyph_cell(#[trigger] evs[k]) != glyph_cell(#[trigger] evs[l]))
}

/// Glyphs whose 8x16 pixel cells do not overlap commute on both buffers:
/// the offscreen renderings and the onscreen cell copies land in disjoint
/// regions, so either order gives the same screen.
pub proof fn lemma_char_op_commutes(
    s: Screen,
    width: int,
    x1: int,
    y1: int,
    c1: char,
    color1: u32,
    x2: int,
    y2: int,
    c2: char,
    color2: u32,
)
    requires
        s.off.len() == s.on.len(),
        x1 + 8 <= x2 || x2 + 8 <= x1 || y1 + 16 <= y2 || y2 + 16 <= y1,
    ensures
        char_op(char_op(s, width, x1, y1, c1, color1), width, x2, y2, c2, color2) == char_op(
            char_op(s, width, x2, y2, c2, color2),
            width,
            x1,
            y1,
            c1,
            color1,
        ),
{
    let a = char_op(char_op(s, width, x1, y1, c1, color1), width, x2, y2, c2, color2);
    let b = char_op(char_op(s, width, x2, y2, c2, color2), width, x1, y1, c1, color1);
    assert forall|i: int| 0 <= i < s.off.len() implies a.off[i] == b.off[i] by {}
    assert forall|i: int| 0 <= i < s.on.len() implies a.on[i] == b.on[i] by {}
    assert(a.off =~= b.off);
    assert(a.on =~= b.on);
    assert(a =~= b);
}

/// A glyph whose top-left pixel starts past the buffer changes nothing.
pub proof fn lemma_char_op_offscreen(
    s: Screen,
    width: int,
    height: int,
    x: int,
    y: int,
    c: char,
    color: u32,
)
    requires
        s.off.len() == width * height,
        s.on.len() == width * height,
        0 <= width,
        0 <= height,
        x >= width || y >= height,
    ensures
        char_op(s, width, x, y, c, color) == s,
{
    lemma_char_px_empty(s.off, width, height, x, y, c, color);
    lemma_copy_region_px_empty(
        s.on,
        char_px(s.off, width, x, y, c, color),
        width,
        height,
        x,
        y,
        8,
        16,
    );
    assert(char_op(s, width, x, y, c, color) =~= s);
}

/// One event keeps both buffer lengths.
pub proof fn lemma_event_op_len(s: Screen, width: int, height: int, ev: DrawEvent)
    ensures
        event_op(s, width, height, ev).off.len() == s.off.len(),
        event_op(s, width, height, ev).on.len() == s.on.len(),
{
}

/// Two glyph events at distinct cells commute: with both scale factors a
/// cell past the machine range starts past any buffer, and otherwise
/// distinct cells scale to disjoint 8x16 pixel rectangles.
pub proof fn lemma_event_glyphs_commute(
    s: Screen,
    width: int,
    height: int,
    e1: DrawEvent,
    e2: DrawEvent,
)
    requires
        s.off.len() == width * height,
        s.on.len() == width * height,
        0 <= width <= usize::MAX,
        0 <= height <= usize::MAX,
        is_glyph(e1),
        is_glyph(e2),
        glyph_cell(e1) != glyph_cell(e2),
    ensures
        event_op(event_op(s, width, height, e1), width, height, e2) == event_op(
            event_op(s, width, height, e2),
            width,
            height,
            e1,
        ),
{
    match e1 {
        DrawEvent::Char(x1, y1, c1, k1) => match e2 {
            DrawEvent::Char(x2, y2, c2, k2) => {
                let px1 = sat_mul_spec(x1 as int, 8);
                let py1 = sat_mul_spec(y1 as int, 16);
                let px2 = sat_mul_spec(x2 as int, 8);
                let py2 = sat_mul_spec(y2 as int, 16);
                let s2 = event_op(s, width, height, e2);
                let s1 = event_op(s, width, height, e1);
                if px1 >= width || py1 >= height {
                    lemma_char_op_offscreen(s, width, height, px1, py1, c1, k1);
                    lemma_char_op_offscreen(s2, width, height, px1, py1, c1, k1);
                } else if px2 >= width || py2 >= height {
                    lemma_char_op_offscreen(s, width, height, px2, py2, c2, k2);
                    lemma_char_op_offscreen(s1, width, height, px2, py2, c2, k2);
                } else {
                    // within the buffer nothing saturated, so the scaled
                    // cells are the exact multiples and distinct cells give
                    // disjoint pixel rectangles
                    assert(px1 == 8 * x1 && py1 == 16 * y1 && px2 == 8 * x2 && py2 == 16 * y2);
                    assert(px1 + 8 <= px2 || px2 + 8 <= px1 || py1 + 16 <= py2 || py2 + 16 <= py1);
                    lemma_char_op_commutes(s, width, px1, py1, c1, k1, px2, py2, c2, k2);
                }
            },
            _ => {},
        },
        _ => {},
    }
}

/// An event of the sequence can be applied first: every event before it is
/// a glyph at another cell, so it commutes all the way to the front.
proof fn lemma_bubble(s: Screen, width: int, height: int, es: Seq<DrawEvent>, j: int)
    requires
        s.off.len() == width * height,
        s.on.len() == width * height,
        0 <= width <= usize::MAX,
        0 <= height <= usize::MAX,
        distinct_glyph_cells(es),
        0 <= j < es.len(),
    ensures
        events_op(s, width, height, es) == events_op(
            event_op(s, width, height, es[j]),
            width,
            height,
            es.remove(j),
        ),
    decreases j,
{
    if j == 0 {
        assert(es.remove(0) =~= es.drop_first());
    } else {
        let s0 = event_op(s, width, height, es[0]);
        lemma_event_op_len(s, width, height, es[0]);
        let tail = es.drop_first();
        assert(distinct_glyph_cells(tail)) by {
            assert forall|k: int| 0 <= k < tail.len() implies is_glyph(#[trigger] tail[k]) by {
                assert(tail[k] == es[k + 1]);
            }
            assert forall|k: int, l: int| 0 <= k < l < tail.len() implies glyph_cell(
                #[trigger] tail[k],
            ) != glyph_cell(#[trigger] tail[l]) by {
                assert(tail[k] == es[k + 1] && tail[l] == es[l + 1]);
            }
        }
        lemma_bubble(s0, width, height, tail, j - 1);
        assert(tail[j - 1] == es[j]);
        assert(glyph_cell(es[0]) != glyph_cell(es[j]));
        lemma_event_glyphs_commute(s, width, height, es[0], es[j]);
        lemma_event_op_len(s, width, height, es[j]);
        assert(es.remove(j)[0] == es[0]);
        assert(es.remove(j).drop_first() =~= tail.remove(j - 1));
        assert(events_op(s, width, height, es) == events_op(
            event_op(event_op(s, width, height, es[0]), width, height, es[j]),
            width,
            height,
            tail.remove(j - 1),
        ));
        assert(events_op(event_op(s, width, height, es[j]), width, height, es.remove(j))
            == events_op(
            event_op(event_op(s, width, height, es[j]), width, height, es[0]),
            width,
            height,
            tail.remove(j - 1),
        ));
    }
}

/// Glyph draws at pairwise distinct cells commute in any order: two
/// deliveries of the same glyph events, differing only in the order of
/// delivery, leave identical offscreen and onscreen buffers.
pub proof fn lemma_glyphs_any_order(
    s: Screen,
    width: int,
    height: int,
    evs1: Seq<DrawEvent>,
    evs2: Seq<DrawEvent>,
)
    requires
        s.off.len() == width * height,
        s.on.len() == width * height,
        0 <= width <= usize::MAX,
        0 <= height <= usize::MAX,
        distinct_glyph_cells(evs1),
        distinct_glyph_cells(evs2),
        evs1.to_multiset() == evs2.to_multiset(),
    ensures
        events_op(s, width, height, evs1) == events_op(s, width, height, evs2),
    decreases evs1.len(),
{
    evs1.to_multiset_ensures();
    evs2.to_multiset_ensures();
    if evs1.len() == 0 {
        assert(evs2.len() == evs2.to_multiset().len());
    } else {
        let e = evs1[0];
        assert(evs1.contains(e));
        assert(evs2.to_multiset().count(e) > 0);
        assert(evs2.contains(e));
        let j = choose|j: int| 0 <= j < evs2.len() && evs2[j] == e;
        lemma_bubble(s, width, height, evs2, j);
        lemma_event_op_len(s, width, height, e);
        let s1 = event_op(s, width, height, e);
        let t1 = evs1.drop_first();
        let t2 = evs2.remove(j);
        assert(evs1.remove(0) =~= t1);
        assert(t1.to_multiset() =~= evs1.to_multiset().remove(e));
        assert(t2.to_multiset() =~= evs2.to_multiset().remove(e));
        assert(t1.to_multiset() == t2.to_multiset());
        assert(distinct_glyph_cells(t1)) by {
            assert forall|k: int| 0 <= k < t1.len() implies is_glyph(#[trigger] t1[k]) by {
                assert(t1[k] == evs1[k + 1]);
            }
            assert forall|k: int, l: int| 0 <= k < l < t1.len() implies glyph_cell(
                #[trigger] t1[k],
            ) != glyph_cell(#[trigger] t1[l]) by {
                assert(t1[k] == evs1[k + 1] && t1[l] == evs1[l + 1]);
            }
        }
        assert(distinct_glyph_cells(t2)) by {
            assert forall|k: int| 0 <= k < t2.len() implies is_glyph(#[trigger] t2[k]) by {
                if k < j {
                    assert(t2[k] == evs2[k]);
                } else {
                    assert(t2[k] == evs2[k + 1]);
                }
            }
            assert forall|k: int, l: int| 0 <= k < l < t2.len() implies glyph_cell(
                #[trigger] t2[k],
            ) != glyph_cell(#[trigger] t2[l]) by {
                if k < j {
                    assert(t2[k] == evs2[k]);
                } else {
                    assert(t2[k] == evs2[k + 1]);
                }
                if l < j {
                    assert(t2[l] == evs2[l]);
                } else {
                    assert(t2[l] == evs2[l + 1]);
                }
            }
        }
        lemma_glyphs_any_order(s1, width, height, t1, t2);
    }
}

} // verus!
