use vstd::prelude::*;

use crate::projection::{
    grid_locs, law_fill_then_get, law_switchback_layout, lemma_paint_len,
    lemma_paint_untouched, Bound,
    Cartesian2d, Cartesian2dExt, CartesianRange, CartesianSpatialExt, CartesianSubspace, ConstrainHeight, FlipY,
    Space, Spatial, SpatialExt, SwitchbackGrid, Transformed, switchback_index,
};
use crate::programs::off_grid;
use crate::LedStrip;

verus! {

broadcast use {
    CartesianRange::lemma_spec_new,
    CartesianSubspace::lemma_spec_new,
    Transformed::lemma_spec_new,
};

/// Whether cell `c` lies in the rectangle with corners `a` and `b`, both included.
pub open spec fn in_rect(a: (u8, u8), b: (u8, u8), c: (u8, u8)) -> bool {
    a.0 <= c.0 <= b.0 && a.1 <= c.1 <= b.1
}

/// Whether every cell of the `w` by `h` rectangle at the origin of `leds` addresses an LED of the
/// strip, no two of them the same one.
pub open spec fn cells_on_strip<S: Cartesian2d + Space<Target = usize>>(
    leds: Transformed<LedStrip, S>,
    w: u8,
    h: u8,
) -> bool {
    &&& leds.wf()
    &&& leds.spec_projection().spec_width() == Some(w)
    &&& leds.spec_projection().spec_height() == Some(h)
    &&& forall|x: u8, y: u8|
        x < w && y < h ==> ((#[trigger] leds.spec_locate((x, y))) matches Some(i) && i
            < leds.spec_leds().len())
    &&& forall|a: (u8, u8), b: (u8, u8)|
        a.0 < w && a.1 < h && b.0 < w && b.1 < h && #[trigger] leds.spec_locate(a)
            == #[trigger] leds.spec_locate(b) ==> a == b
}

/// The colour the cell `c` of `leds` shows.
pub open spec fn cell_color<S: Cartesian2d + Space<Target = usize>>(
    leds: Transformed<LedStrip, S>,
    c: (u8, u8),
) -> [u8; 3] {
    leds.spec_leds()[leds.spec_locate(c).unwrap() as int]
}

/// Index `i` of a `w` by `h` rectangle, taken column by column, is a cell of it.
proof fn lemma_cell_of_index(i: int, w: int, h: int)
    requires
        0 <= i < w * h,
        h > 0,
    ensures
        0 <= i / h < w,
        0 <= i % h < h,
        i == (i / h) * h + i % h,
{
    vstd::arithmetic::div_mod::lemma_fundamental_div_mod(i, h);
    let q = i / h;
    let r = i % h;
    assert(0 <= r < h);
    assert(i == h * q + r);
    assert(0 <= q < w) by (nonlinear_arith)
        requires
            i == h * q + r,
            0 <= r < h,
            0 <= i < w * h,
            h > 0,
    ;
    assert(h * q == q * h) by (nonlinear_arith);
}

/// Paints the rectangle with corners `a` and `b`, both included, in `color`, by cutting it out of
/// `leds` as a range and filling that.
pub fn fill_rect<S: Cartesian2d + Space<Target = usize> + Copy>(
    leds: Transformed<LedStrip, S>,
    a: (u8, u8),
    b: (u8, u8),
    color: [u8; 3],
    w: Ghost<u8>,
    h: Ghost<u8>,
) -> (r: Transformed<LedStrip, S>)
    requires
        cells_on_strip(leds, w@, h@),
        a.0 <= b.0 < w@,
        a.1 <= b.1 < h@,
    ensures
        r.spec_projection() == leds.spec_projection(),
        r.spec_data().spec_offset() == leds.spec_data().spec_offset(),
        r.spec_data().spec_len() == leds.spec_data().spec_len(),
        r.spec_leds().len() == leds.spec_leds().len(),
        cells_on_strip(r, w@, h@),
        forall|c: (u8, u8)|
            c.0 < w@ && c.1 < h@ ==> #[trigger] cell_color(r, c) == if in_rect(a, b, c) {
                color
            } else {
                cell_color(leds, c)
            },
        forall|i: int|
            0 <= i < leds.spec_leds().len() && off_grid(leds, w@, h@, i) ==> #[trigger] r.spec_leds()[i]
                == leds.spec_leds()[i],
{
    let space = *leds.space();
    let range = match leds.range(Bound::Included(a), Bound::Included(b)) {
        Ok(range) => range,
        Err(back) => {
            assert(false);
            return back;
        },
    };
    let ghost square = range;
    let ghost rw = (b.0 - a.0 + 1) as nat;
    let ghost rh = (b.1 - a.1 + 1) as nat;
    proof {
        assert forall|i: int| 0 <= i < rw * rh implies (#[trigger] grid_locs(square, rw, rh)[i]) is Some by {
            lemma_cell_of_index(i, rw as int, rh as int);
            let cx = (a.0 + i / rh as int) as u8;
            let cy = (a.1 + i % rh as int) as u8;
            assert(leds.spec_locate((cx, cy)) is Some);
        }
    }
    let mut range = range;
    match range.fill(color) {
        Some(_) => {},
        None => {
            assert(false);
        },
    }
    let painted = range;
    let strip = painted.into_inner();
    let result = strip.project(space);
    proof {
        let locs = grid_locs(square, rw, rh);
        assert forall|k: int| 0 <= k < locs.len() && locs[k] is Some implies (#[trigger] locs[k]).unwrap()
            < leds.spec_leds().len() by {
            lemma_cell_of_index(k, rw as int, rh as int);
            let sx = (a.0 + k / rh as int) as u8;
            let sy = (a.1 + k % rh as int) as u8;
            assert(locs[k] == leds.spec_locate((sx, sy)));
        }
        lemma_paint_len(leds.spec_leds(), locs, Seq::new(rw * rh, |j: int| color));
        assert(result.spec_leds().len() == leds.spec_leds().len());
        assert forall|c: (u8, u8)| #[trigger] result.spec_locate(c) == leds.spec_locate(c) by {}
        assert(cells_on_strip(result, w@, h@));
        assert forall|c: (u8, u8)| c.0 < w@ && c.1 < h@ implies #[trigger] cell_color(result, c) == if in_rect(a, b, c) {
            color
        } else {
            cell_color(leds, c)
        } by {
            let i = leds.spec_locate(c).unwrap();
            if in_rect(a, b, c) {
                law_fill_then_get(square, color, (c.0 - a.0) as u8, (c.1 - a.1) as u8);
            } else {
                let locs = grid_locs(square, rw, rh);
                assert forall|k: int| 0 <= k < locs.len() && locs[k] is Some implies (#[trigger] locs[k]).unwrap() != i
                    && locs[k].unwrap() < leds.spec_leds().len() by {
                    lemma_cell_of_index(k, rw as int, rh as int);
                    let sx = (a.0 + k / rh as int) as u8;
                    let sy = (a.1 + k % rh as int) as u8;
                    assert(locs[k] == leds.spec_locate((sx, sy)));
                    assert(in_rect(a, b, (sx, sy)));
                }
                lemma_paint_untouched(leds.spec_leds(), locs, Seq::new(rw * rh, |j: int| color), i as int);
            }
        }
        assert forall|i: int| 0 <= i < leds.spec_leds().len() && off_grid(leds, w@, h@, i) implies #[trigger] result.spec_leds()[i]
            == leds.spec_leds()[i] by {
            let locs = grid_locs(square, rw, rh);
            assert forall|k: int| 0 <= k < locs.len() && locs[k] is Some implies (#[trigger] locs[k]).unwrap() != i
                && locs[k].unwrap() < leds.spec_leds().len() by {
                lemma_cell_of_index(k, rw as int, rh as int);
                let sx = (a.0 + k / rh as int) as u8;
                let sy = (a.1 + k % rh as int) as u8;
                assert(locs[k] == leds.spec_locate((sx, sy)));
                assert(leds.spec_locate((sx, sy)) != Some(i as usize));
            }
            lemma_paint_untouched(leds.spec_leds(), locs, Seq::new(rw * rh, |j: int| color), i);
        }
    }
    result
}

/// A rectangle given by two corners, both included.
pub type Mark = ((u8, u8), (u8, u8));

/// Whether some mark of `marks` covers cell `c`.
pub open spec fn covered(marks: Seq<Mark>, c: (u8, u8)) -> bool {
    exists|k: int| 0 <= k < marks.len() && #[trigger] in_rect(marks[k].0, marks[k].1, c)
}

/// Whether every mark of `marks` lies in the `w` by `h` rectangle at the origin.
pub open spec fn marks_fit(marks: Seq<Mark>, w: u8, h: u8) -> bool {
    forall|k: int|
        0 <= k < marks.len() ==> (#[trigger] marks[k]).0.0 <= marks[k].1.0 < w && marks[k].0.1
            <= marks[k].1.1 < h
}

/// Paints every mark of `marks` in `color`, one after the other.
pub fn paint_marks<S: Cartesian2d + Space<Target = usize> + Copy>(
    leds: Transformed<LedStrip, S>,
    marks: &Vec<Mark>,
    color: [u8; 3],
    w: Ghost<u8>,
    h: Ghost<u8>,
) -> (r: Transformed<LedStrip, S>)
    requires
        cells_on_strip(leds, w@, h@),
        marks_fit(marks@, w@, h@),
    ensures
        r.spec_projection() == leds.spec_projection(),
        r.spec_data().spec_offset() == leds.spec_data().spec_offset(),
        r.spec_data().spec_len() == leds.spec_data().spec_len(),
        r.spec_leds().len() == leds.spec_leds().len(),
        cells_on_strip(r, w@, h@),
        forall|c: (u8, u8)|
            c.0 < w@ && c.1 < h@ ==> #[trigger] cell_color(r, c) == if covered(marks@, c) {
                color
            } else {
                cell_color(leds, c)
            },
        forall|i: int|
            0 <= i < leds.spec_leds().len() && off_grid(leds, w@, h@, i) ==> #[trigger] r.spec_leds()[i]
                == leds.spec_leds()[i],
{
    let mut cur = leds;
    let mut k: usize = 0;
    while k < marks.len()
        invariant
            k <= marks@.len(),
            marks_fit(marks@, w@, h@),
            cur.spec_projection() == leds.spec_projection(),
            cur.spec_data().spec_offset() == leds.spec_data().spec_offset(),
            cur.spec_data().spec_len() == leds.spec_data().spec_len(),
            cur.spec_leds().len() == leds.spec_leds().len(),
            cells_on_strip(cur, w@, h@),
            forall|c: (u8, u8)|
                c.0 < w@ && c.1 < h@ ==> #[trigger] cell_color(cur, c) == if covered(
                    marks@.take(k as int),
                    c,
                ) {
                    color
                } else {
                    cell_color(leds, c)
                },
            forall|i: int|
                0 <= i < leds.spec_leds().len() && off_grid(leds, w@, h@, i) ==> #[trigger] cur.spec_leds()[i]
                    == leds.spec_leds()[i],
        decreases marks@.len() - k,
    {
        let (a, b) = marks[k];
        assert(marks@[k as int] == (a, b));
        let ghost prev = cur;
        cur = fill_rect(cur, a, b, color, w, h);
        proof {
            assert forall|i: int| 0 <= i < leds.spec_leds().len() && off_grid(leds, w@, h@, i) implies #[trigger] cur.spec_leds()[i]
                == leds.spec_leds()[i] by {
                assert forall|c: (u8, u8)| c.0 < w@ && c.1 < h@ implies #[trigger] prev.spec_locate(c) != Some(i as usize) by {
                    assert(prev.spec_locate(c) == leds.spec_locate(c));
                }
                assert(off_grid(prev, w@, h@, i));
                assert(cur.spec_leds()[i] == prev.spec_leds()[i]);
            }
            assert forall|c: (u8, u8)| c.0 < w@ && c.1 < h@ implies #[trigger] cell_color(cur, c)
                == if covered(marks@.take(k + 1), c) {
                color
            } else {
                cell_color(leds, c)
            } by {
                let before = marks@.take(k as int);
                let after = marks@.take(k + 1);
                assert(cell_color(prev, c) == if covered(before, c) {
                    color
                } else {
                    cell_color(leds, c)
                });
                if in_rect(a, b, c) {
                    assert(after[k as int] == (a, b));
                    assert(in_rect(after[k as int].0, after[k as int].1, c));
                    assert(covered(after, c));
                } else if covered(before, c) {
                    let j = choose|j: int| 0 <= j < before.len() && #[trigger] in_rect(before[j].0, before[j].1, c);
                    assert(after[j] == before[j]);
                    assert(in_rect(after[j].0, after[j].1, c));
                } else {
                    assert forall|j: int| 0 <= j < after.len() implies !#[trigger] in_rect(after[j].0, after[j].1, c) by {
                        if j < k {
                            assert(after[j] == before[j]);
                        }
                    }
                }
            }
        }
        k += 1;
    }
    assert(marks@.take(marks@.len() as int) == marks@);
    cur
}

/// The arrangement the valentine program draws on: a strip seen as rows of eight, thirteen rows
/// high, with the first row at the top.
pub type ValentineLeds = Transformed<LedStrip, FlipY<ConstrainHeight<SwitchbackGrid>>>;

/// Whether `leds` is laid out as the valentine program needs: rows of eight LEDs, thirteen rows
/// high and mirrored, on a strip with an LED for every cell.
pub open spec fn valentine_layout(leds: ValentineLeds) -> bool {
    &&& leds.wf()
    &&& leds.spec_projection().spec_inner().spec_inner().spec_stride() == 8
    &&& leds.spec_projection().spec_width() == Some(8u8)
    &&& leds.spec_projection().spec_height() == Some(13u8)
    &&& leds.spec_data().spec_len() >= 104
}

/// Sees `strip` as the valentine program's grid.
pub fn valentine_leds(strip: LedStrip) -> (r: ValentineLeds)
    ensures
        r.spec_data() == strip,
        r.spec_projection().spec_inner().spec_inner().spec_stride() == 8,
        r.spec_projection().spec_width() == Some(8u8),
        r.spec_projection().spec_height() == Some(13u8),
        strip.window_fits() && strip.spec_len() >= 104 ==> valentine_layout(r),
{
    let grid = SwitchbackGrid::new(8);
    let tall = match grid.constrain_height(13) {
        Some(t) => t,
        None => vstd::pervasive::unreached(),
    };
    let flipped = match tall.flip_y() {
        Some(f) => f,
        None => vstd::pervasive::unreached(),
    };
    strip.project(flipped)
}

/// Every cell of the valentine grid lies on its own LED of the strip.
pub proof fn lemma_valentine_cells(leds: ValentineLeds)
    requires
        valentine_layout(leds),
    ensures
        cells_on_strip(leds, 8, 13),
{
    let grid = leds.spec_projection().spec_inner().spec_inner();
    let strip = leds.spec_data();
    strip.lemma_buffer_fits();
    assert forall|x: u8, y: u8| x < 8 && y < 13 implies ((#[trigger] leds.spec_locate((x, y))) matches Some(i) && i
        < leds.spec_leds().len()) by {
        let fy = (12 - y) as u8;
        law_switchback_layout(grid, (x, fy), (x, fy));
        assert(fy * 8 <= switchback_index(8, x as int, fy as int) < (fy + 1) * 8);
    }
    assert forall|a: (u8, u8), b: (u8, u8)|
        a.0 < 8 && a.1 < 13 && b.0 < 8 && b.1 < 13 && #[trigger] leds.spec_locate(a)
            == #[trigger] leds.spec_locate(b) implies a == b by {
        let fa = (a.0, (12 - a.1) as u8);
        let fb = (b.0, (12 - b.1) as u8);
        law_switchback_layout(grid, fa, fb);
        assert(fa.1 * 8 <= switchback_index(8, fa.0 as int, fa.1 as int) < (fa.1 + 1) * 8);
        assert(fb.1 * 8 <= switchback_index(8, fb.0 as int, fb.1 as int) < (fb.1 + 1) * 8);
    }
}

/// The letters the valentine program spells.
#[derive(Clone, Copy, PartialEq, Eq, Structural)]
pub enum Letter {
    H,
    A,
    P,
    Y,
    V,
    L,
    E,
    N,
    T,
    I,
    S,
    D,
    O,
    Z,
}

/// The strokes of `letter`, five cells wide and six high, at the origin.
pub open spec fn letter_marks(letter: Letter) -> Seq<Mark> {
    match letter {
        Letter::H => seq![((0u8, 2u8), (4u8, 2u8)), ((0u8, 0u8), (0u8, 5u8)), ((4u8, 0u8), (4u8, 5u8))],
        Letter::A => seq![((1u8, 0u8), (3u8, 0u8)), ((0u8, 1u8), (0u8, 5u8)), ((4u8, 1u8), (4u8, 5u8)), ((1u8, 2u8), (3u8, 2u8))],
        Letter::P => seq![((0u8, 0u8), (3u8, 0u8)), ((0u8, 1u8), (0u8, 5u8)), ((1u8, 2u8), (3u8, 2u8)), ((4u8, 1u8), (4u8, 1u8))],
        Letter::Y => seq![((0u8, 0u8), (0u8, 1u8)), ((1u8, 2u8), (1u8, 2u8)), ((3u8, 2u8), (3u8, 2u8)), ((4u8, 0u8), (4u8, 1u8)), ((2u8, 3u8), (2u8, 5u8))],
        Letter::V => seq![((0u8, 0u8), (0u8, 2u8)), ((4u8, 0u8), (4u8, 2u8)), ((1u8, 3u8), (1u8, 4u8)), ((3u8, 3u8), (3u8, 4u8)), ((2u8, 5u8), (2u8, 5u8))],
        Letter::L => seq![((0u8, 0u8), (0u8, 5u8)), ((1u8, 5u8), (4u8, 5u8))],
        Letter::E => seq![((0u8, 0u8), (4u8, 0u8)), ((0u8, 1u8), (0u8, 5u8)), ((1u8, 5u8), (4u8, 5u8)), ((1u8, 2u8), (3u8, 2u8))],
        Letter::N => seq![((0u8, 0u8), (0u8, 5u8)), ((4u8, 0u8), (4u8, 5u8)), ((1u8, 1u8), (1u8, 1u8)), ((2u8, 2u8), (2u8, 2u8)), ((3u8, 3u8), (3u8, 3u8)), ((3u8, 4u8), (3u8, 4u8))],
        Letter::T => seq![((0u8, 0u8), (4u8, 0u8)), ((2u8, 1u8), (2u8, 5u8))],
        Letter::I => seq![((2u8, 0u8), (2u8, 5u8))],
        Letter::S => seq![((1u8, 0u8), (4u8, 0u8)), ((0u8, 1u8), (0u8, 1u8)), ((1u8, 2u8), (3u8, 2u8)), ((4u8, 3u8), (4u8, 4u8)), ((0u8, 5u8), (3u8, 5u8))],
        Letter::D => seq![((0u8, 0u8), (3u8, 0u8)), ((0u8, 1u8), (0u8, 5u8)), ((1u8, 5u8), (3u8, 5u8)), ((4u8, 1u8), (4u8, 4u8))],
        Letter::O => seq![((1u8, 0u8), (3u8, 0u8)), ((0u8, 1u8), (0u8, 4u8)), ((1u8, 5u8), (3u8, 5u8)), ((4u8, 1u8), (4u8, 4u8))],
        Letter::Z => seq![((0u8, 0u8), (4u8, 0u8)), ((4u8, 1u8), (4u8, 1u8)), ((3u8, 2u8), (3u8, 2u8)), ((2u8, 3u8), (2u8, 3u8)), ((1u8, 4u8), (1u8, 4u8)), ((0u8, 5u8), (4u8, 5u8))],
    }
}

/// The strokes of `letter`.
pub fn marks_of(letter: Letter) -> (r: Vec<Mark>)
    ensures
        r@ == letter_marks(letter),
{
    match letter {
        Letter::H => vec![((0, 2), (4, 2)), ((0, 0), (0, 5)), ((4, 0), (4, 5))],
        Letter::A => vec![((1, 0), (3, 0)), ((0, 1), (0, 5)), ((4, 1), (4, 5)), ((1, 2), (3, 2))],
        Letter::P => vec![((0, 0), (3, 0)), ((0, 1), (0, 5)), ((1, 2), (3, 2)), ((4, 1), (4, 1))],
        Letter::Y => vec![((0, 0), (0, 1)), ((1, 2), (1, 2)), ((3, 2), (3, 2)), ((4, 0), (4, 1)), ((2, 3), (2, 5))],
        Letter::V => vec![((0, 0), (0, 2)), ((4, 0), (4, 2)), ((1, 3), (1, 4)), ((3, 3), (3, 4)), ((2, 5), (2, 5))],
        Letter::L => vec![((0, 0), (0, 5)), ((1, 5), (4, 5))],
        Letter::E => vec![((0, 0), (4, 0)), ((0, 1), (0, 5)), ((1, 5), (4, 5)), ((1, 2), (3, 2))],
        Letter::N => vec![((0, 0), (0, 5)), ((4, 0), (4, 5)), ((1, 1), (1, 1)), ((2, 2), (2, 2)), ((3, 3), (3, 3)), ((3, 4), (3, 4))],
        Letter::T => vec![((0, 0), (4, 0)), ((2, 1), (2, 5))],
        Letter::I => vec![((2, 0), (2, 5))],
        Letter::S => vec![((1, 0), (4, 0)), ((0, 1), (0, 1)), ((1, 2), (3, 2)), ((4, 3), (4, 4)), ((0, 5), (3, 5))],
        Letter::D => vec![((0, 0), (3, 0)), ((0, 1), (0, 5)), ((1, 5), (3, 5)), ((4, 1), (4, 4))],
        Letter::O => vec![((1, 0), (3, 0)), ((0, 1), (0, 4)), ((1, 5), (3, 5)), ((4, 1), (4, 4))],
        Letter::Z => vec![((0, 0), (4, 0)), ((4, 1), (4, 1)), ((3, 2), (3, 2)), ((2, 3), (2, 3)), ((1, 4), (1, 4)), ((0, 5), (4, 5))],
    }
}

/// The cells of the heart, below the letters and one column in from the left.
pub open spec fn heart_marks() -> Seq<Mark> {
    seq![((2u8, 7u8), (2u8, 7u8)), ((3u8, 7u8), (3u8, 7u8)), ((4u8, 8u8), (4u8, 8u8)), ((5u8, 7u8), (5u8, 7u8)), ((6u8, 7u8), (6u8, 7u8)), ((1u8, 8u8), (1u8, 8u8)), ((1u8, 9u8), (1u8, 9u8)), ((2u8, 10u8), (2u8, 10u8)), ((3u8, 11u8), (3u8, 11u8)), ((4u8, 12u8), (4u8, 12u8)), ((5u8, 11u8), (5u8, 11u8)), ((6u8, 10u8), (6u8, 10u8)), ((7u8, 9u8), (7u8, 9u8)), ((7u8, 8u8), (7u8, 8u8))]
}

/// The cells of the heart.
pub fn heart() -> (r: Vec<Mark>)
    ensures
        r@ == heart_marks(),
{
    vec![((2, 7), (2, 7)), ((3, 7), (3, 7)), ((4, 8), (4, 8)), ((5, 7), (5, 7)), ((6, 7), (6, 7)), ((1, 8), (1, 8)), ((1, 9), (1, 9)), ((2, 10), (2, 10)), ((3, 11), (3, 11)), ((4, 12), (4, 12)), ((5, 11), (5, 11)), ((6, 10), (6, 10)), ((7, 9), (7, 9)), ((7, 8), (7, 8))]
}

/// What the valentine program spells, letter by letter.
pub open spec fn valentine_text() -> Seq<Letter> {
    seq![Letter::H, Letter::A, Letter::P, Letter::P, Letter::Y, Letter::V, Letter::A, Letter::L, Letter::E, Letter::N, Letter::T, Letter::I, Letter::N, Letter::E, Letter::S, Letter::D, Letter::A, Letter::Y, Letter::L, Letter::O, Letter::V, Letter::E, Letter::I, Letter::Z, Letter::Z, Letter::Y]
}

/// The letter at `pos` of what the valentine program spells.
pub fn letter_at(pos: usize) -> (r: Letter)
    requires
        pos < 26,
    ensures
        r == valentine_text()[pos as int],
{
    let text: Vec<Letter> = vec![Letter::H, Letter::A, Letter::P, Letter::P, Letter::Y, Letter::V, Letter::A, Letter::L, Letter::E, Letter::N, Letter::T, Letter::I, Letter::N, Letter::E, Letter::S, Letter::D, Letter::A, Letter::Y, Letter::L, Letter::O, Letter::V, Letter::E, Letter::I, Letter::Z, Letter::Z, Letter::Y];
    assert(text@ == valentine_text());
    text[pos]
}

/// Every letter lies within the five by six cells at the origin of the grid.
proof fn lemma_letter_fits(letter: Letter)
    ensures
        marks_fit(letter_marks(letter), 5, 6),
        marks_fit(letter_marks(letter), 8, 13),
{
}

/// The heart lies within the grid.
proof fn lemma_heart_fits()
    ensures
        marks_fit(heart_marks(), 8, 13),
{
}

/// The colour the valentine program draws in.
pub const PINK: [u8; 3] = [255, 0, 128];

/// The colour cell `c` of the grid shows after step `step` of the valentine program, where it
/// showed `before`; `started` tells whether the heart is drawn already. Even steps draw the next
/// letter (and, at the very start, the heart); odd steps clear the seven rows of the letters.
pub open spec fn valentine_cell(started: bool, step: int, c: (u8, u8), before: [u8; 3]) -> [u8; 3] {
    if step % 2 == 0 {
        if covered(letter_marks(valentine_text()[step / 2]), c) || (!started && covered(
            heart_marks(),
            c,
        )) {
            PINK
        } else {
            before
        }
    } else if c.1 < 7 {
        [0u8, 0u8, 0u8]
    } else {
        before
    }
}

/// How many ticks the valentine program waits after step `step`: twice as long after the last
/// letter of each of its two phrases.
pub open spec fn valentine_pause(step: int) -> u64 {
    if step % 2 == 1 && (step / 2 == 17 || step / 2 == 25) {
        20
    } else {
        10
    }
}

/// Where the valentine program is: whether it has drawn the heart, and which of the fifty-two
/// steps (a letter drawn, then cleared, for each of the twenty-six letters) comes next.
pub struct Valentine {
    started: bool,
    step: u8,
}

impl Valentine {
    pub closed spec fn spec_started(&self) -> bool {
        self.started
    }

    pub closed spec fn spec_step(&self) -> u8 {
        self.step
    }

    pub open spec fn wf(&self) -> bool {
        self.spec_step() < 52
    }

    /// The program before its first frame.
    pub fn new() -> (r: Valentine)
        ensures
            r.wf(),
            !r.spec_started(),
            r.spec_step() == 0,
    {
        Valentine { started: false, step: 0 }
    }

    /// One step of the valentine program on `leds`; returns the grid and how many ticks to wait
    /// before the next step.
    pub fn frame(&mut self, leds: ValentineLeds) -> (r: (ValentineLeds, u64))
        requires
            old(self).wf(),
            valentine_layout(leds),
        ensures
            final(self).wf(),
            final(self).spec_started(),
            final(self).spec_step() == (old(self).spec_step() + 1) % 52,
            valentine_layout(r.0),
            r.0.spec_projection() == leds.spec_projection(),
            r.0.spec_data().spec_offset() == leds.spec_data().spec_offset(),
            r.0.spec_data().spec_len() == leds.spec_data().spec_len(),
            r.0.spec_leds().len() == leds.spec_leds().len(),
            forall|c: (u8, u8)|
                c.0 < 8 && c.1 < 13 ==> #[trigger] cell_color(r.0, c) == valentine_cell(
                    old(self).spec_started(),
                    old(self).spec_step() as int,
                    c,
                    cell_color(leds, c),
                ),
            forall|i: int|
                0 <= i < leds.spec_leds().len() && off_grid(leds, 8, 13, i) ==> #[trigger] r.0.spec_leds()[i]
                    == leds.spec_leds()[i],
            r.1 == valentine_pause(old(self).spec_step() as int),
    {
        let step = self.step;
        proof {
            lemma_valentine_cells(leds);
            lemma_heart_fits();
        }
        let result = if step % 2 == 0 {
            let mut cur = leds;
            if !self.started {
                let shape = heart();
                let ghost bare = cur;
                cur = paint_marks(cur, &shape, PINK, Ghost(8u8), Ghost(13u8));
                proof {
                    assert forall|c: (u8, u8)| #[trigger] cur.spec_locate(c) == bare.spec_locate(c) by {}
                }
            }
            let letter = letter_at((step / 2) as usize);
            proof {
                lemma_letter_fits(letter);
            }
            let strokes = marks_of(letter);
            paint_marks(cur, &strokes, PINK, Ghost(8u8), Ghost(13u8))
        } else {
            fill_rect(leds, (0, 0), (7, 6), [0u8, 0u8, 0u8], Ghost(8u8), Ghost(13u8))
        };
        let pause: u64 = if step % 2 == 1 && (step / 2 == 17 || step / 2 == 25) {
            20
        } else {
            10
        };
        self.started = true;
        self.step = if step + 1 < 52 {
            step + 1
        } else {
            0
        };
        (result, pause)
    }
}

/// Once the heart is drawn, no step of the valentine program touches the rows below the letters:
/// the heart stays while the letters come and go.
pub proof fn law_valentine_keeps_heart(step: int, c: (u8, u8), before: [u8; 3])
    requires
        0 <= step < 52,
        c.0 < 8,
        7 <= c.1 < 13,
    ensures
        valentine_cell(true, step, c, before) == before,
{
    let letter = valentine_text()[step / 2];
    lemma_letter_fits(letter);
    assert forall|k: int| 0 <= k < letter_marks(letter).len() implies !#[trigger] in_rect(
        letter_marks(letter)[k].0,
        letter_marks(letter)[k].1,
        c,
    ) by {
        assert(letter_marks(letter)[k].1.1 < 6);
    }
}


/// The picture of `letter`: six rows of five cells, the top row first and the left cell first in
/// each row, `1` where the letter is lit.
pub open spec fn glyph(letter: Letter) -> Seq<Seq<u8>> {
    match letter {
        Letter::H => seq![
            seq![1u8, 0u8, 0u8, 0u8, 1u8],
            seq![1u8, 0u8, 0u8, 0u8, 1u8],
            seq![1u8, 1u8, 1u8, 1u8, 1u8],
            seq![1u8, 0u8, 0u8, 0u8, 1u8],
            seq![1u8, 0u8, 0u8, 0u8, 1u8],
            seq![1u8, 0u8, 0u8, 0u8, 1u8],
        ],
        Letter::A => seq![
            seq![0u8, 1u8, 1u8, 1u8, 0u8],
            seq![1u8, 0u8, 0u8, 0u8, 1u8],
            seq![1u8, 1u8, 1u8, 1u8, 1u8],
            seq![1u8, 0u8, 0u8, 0u8, 1u8],
            seq![1u8, 0u8, 0u8, 0u8, 1u8],
            seq![1u8, 0u8, 0u8, 0u8, 1u8],
        ],
        Letter::P => seq![
            seq![1u8, 1u8, 1u8, 1u8, 0u8],
            seq![1u8, 0u8, 0u8, 0u8, 1u8],
            seq![1u8, 1u8, 1u8, 1u8, 0u8],
            seq![1u8, 0u8, 0u8, 0u8, 0u8],
            seq![1u8, 0u8, 0u8, 0u8, 0u8],
            seq![1u8, 0u8, 0u8, 0u8, 0u8],
        ],
        Letter::Y => seq![
            seq![1u8, 0u8, 0u8, 0u8, 1u8],
            seq![1u8, 0u8, 0u8, 0u8, 1u8],
            seq![0u8, 1u8, 0u8, 1u8, 0u8],
            seq![0u8, 0u8, 1u8, 0u8, 0u8],
            seq![0u8, 0u8, 1u8, 0u8, 0u8],
            seq![0u8, 0u8, 1u8, 0u8, 0u8],
        ],
        Letter::V => seq![
            seq![1u8, 0u8, 0u8, 0u8, 1u8],
            seq![1u8, 0u8, 0u8, 0u8, 1u8],
            seq![1u8, 0u8, 0u8, 0u8, 1u8],
            seq![0u8, 1u8, 0u8, 1u8, 0u8],
            seq![0u8, 1u8, 0u8, 1u8, 0u8],
            seq![0u8, 0u8, 1u8, 0u8, 0u8],
        ],
        Letter::L => seq![
            seq![1u8, 0u8, 0u8, 0u8, 0u8],
            seq![1u8, 0u8, 0u8, 0u8, 0u8],
            seq![1u8, 0u8, 0u8, 0u8, 0u8],
            seq![1u8, 0u8, 0u8, 0u8, 0u8],
            seq![1u8, 0u8, 0u8, 0u8, 0u8],
            seq![1u8, 1u8, 1u8, 1u8, 1u8],
        ],
        Letter::E => seq![
            seq![1u8, 1u8, 1u8, 1u8, 1u8],
            seq![1u8, 0u8, 0u8, 0u8, 0u8],
            seq![1u8, 1u8, 1u8, 1u8, 0u8],
            seq![1u8, 0u8, 0u8, 0u8, 0u8],
            seq![1u8, 0u8, 0u8, 0u8, 0u8],
            seq![1u8, 1u8, 1u8, 1u8, 1u8],
        ],
        Letter::N => seq![
            seq![1u8, 0u8, 0u8, 0u8, 1u8],
            seq![1u8, 1u8, 0u8, 0u8, 1u8],
            seq![1u8, 0u8, 1u8, 0u8, 1u8],
            seq![1u8, 0u8, 0u8, 1u8, 1u8],
            seq![1u8, 0u8, 0u8, 1u8, 1u8],
            seq![1u8, 0u8, 0u8, 0u8, 1u8],
        ],
        Letter::T => seq![
            seq![1u8, 1u8, 1u8, 1u8, 1u8],
            seq![0u8, 0u8, 1u8, 0u8, 0u8],
            seq![0u8, 0u8, 1u8, 0u8, 0u8],
            seq![0u8, 0u8, 1u8, 0u8, 0u8],
            seq![0u8, 0u8, 1u8, 0u8, 0u8],
            seq![0u8, 0u8, 1u8, 0u8, 0u8],
        ],
        Letter::I => seq![
            seq![0u8, 0u8, 1u8, 0u8, 0u8],
            seq![0u8, 0u8, 1u8, 0u8, 0u8],
            seq![0u8, 0u8, 1u8, 0u8, 0u8],
            seq![0u8, 0u8, 1u8, 0u8, 0u8],
            seq![0u8, 0u8, 1u8, 0u8, 0u8],
            seq![0u8, 0u8, 1u8, 0u8, 0u8],
        ],
        Letter::S => seq![
            seq![0u8, 1u8, 1u8, 1u8, 1u8],
            seq![1u8, 0u8, 0u8, 0u8, 0u8],
            seq![0u8, 1u8, 1u8, 1u8, 0u8],
            seq![0u8, 0u8, 0u8, 0u8, 1u8],
            seq![0u8, 0u8, 0u8, 0u8, 1u8],
            seq![1u8, 1u8, 1u8, 1u8, 0u8],
        ],
        Letter::D => seq![
            seq![1u8, 1u8, 1u8, 1u8, 0u8],
            seq![1u8, 0u8, 0u8, 0u8, 1u8],
            seq![1u8, 0u8, 0u8, 0u8, 1u8],
            seq![1u8, 0u8, 0u8, 0u8, 1u8],
            seq![1u8, 0u8, 0u8, 0u8, 1u8],
            seq![1u8, 1u8, 1u8, 1u8, 0u8],
        ],
        Letter::O => seq![
            seq![0u8, 1u8, 1u8, 1u8, 0u8],
            seq![1u8, 0u8, 0u8, 0u8, 1u8],
            seq![1u8, 0u8, 0u8, 0u8, 1u8],
            seq![1u8, 0u8, 0u8, 0u8, 1u8],
            seq![1u8, 0u8, 0u8, 0u8, 1u8],
            seq![0u8, 1u8, 1u8, 1u8, 0u8],
        ],
        Letter::Z => seq![
            seq![1u8, 1u8, 1u8, 1u8, 1u8],
            seq![0u8, 0u8, 0u8, 0u8, 1u8],
            seq![0u8, 0u8, 0u8, 1u8, 0u8],
            seq![0u8, 0u8, 1u8, 0u8, 0u8],
            seq![0u8, 1u8, 0u8, 0u8, 0u8],
            seq![1u8, 1u8, 1u8, 1u8, 1u8],
        ],
    }
}

/// Whether cell `(x, y)` of the grid is lit in the picture of `letter`, drawn at the origin.
pub open spec fn glyph_lit(letter: Letter, x: int, y: int) -> bool {
    0 <= x < 5 && 0 <= y < 6 && glyph(letter)[y][x] == 1
}

/// The picture of the heart: the six rows from row seven down, eight cells each, `1` where lit.
pub open spec fn heart_picture() -> Seq<Seq<u8>> {
    seq![
        seq![0u8, 0u8, 1u8, 1u8, 0u8, 1u8, 1u8, 0u8],
        seq![0u8, 1u8, 0u8, 0u8, 1u8, 0u8, 0u8, 1u8],
        seq![0u8, 1u8, 0u8, 0u8, 0u8, 0u8, 0u8, 1u8],
        seq![0u8, 0u8, 1u8, 0u8, 0u8, 0u8, 1u8, 0u8],
        seq![0u8, 0u8, 0u8, 1u8, 0u8, 1u8, 0u8, 0u8],
        seq![0u8, 0u8, 0u8, 0u8, 1u8, 0u8, 0u8, 0u8],
    ]
}

/// Whether cell `(x, y)` of the grid is lit in the picture of the heart.
pub open spec fn heart_lit(x: int, y: int) -> bool {
    0 <= x < 8 && 7 <= y < 13 && heart_picture()[y - 7][x] == 1
}

/// Whether one of the first `n` marks covers cell `c`.
spec fn covered_first(marks: Seq<Mark>, c: (u8, u8), n: nat) -> bool
    decreases n,
{
    if n == 0 {
        false
    } else {
        covered_first(marks, c, (n - 1) as nat) || in_rect(marks[n - 1].0, marks[n - 1].1, c)
    }
}

proof fn lemma_covered_first(marks: Seq<Mark>, c: (u8, u8), n: nat)
    requires
        n <= marks.len(),
    ensures
        covered_first(marks, c, n) <==> exists|k: int| 0 <= k < n && #[trigger] in_rect(marks[k].0, marks[k].1, c),
    decreases n,
{
    if n > 0 {
        lemma_covered_first(marks, c, (n - 1) as nat);
        let k = n - 1;
        if in_rect(marks[k].0, marks[k].1, c) {
            assert(0 <= k < n && in_rect(marks[k].0, marks[k].1, c));
        }
    }
}

proof fn lemma_shape_of_h(x: u8, y: u8)
    requires
        x < 8,
        y < 13,
    ensures
        covered_first(letter_marks(Letter::H), (x, y), letter_marks(Letter::H).len()) <==> glyph_lit(
            Letter::H,
            x as int,
            y as int,
        ),
{
    reveal_with_fuel(covered_first, 7);
}

proof fn lemma_shape_of_a(x: u8, y: u8)
    requires
        x < 8,
        y < 13,
    ensures
        covered_first(letter_marks(Letter::A), (x, y), letter_marks(Letter::A).len()) <==> glyph_lit(
            Letter::A,
            x as int,
            y as int,
        ),
{
    reveal_with_fuel(covered_first, 7);
}

proof fn lemma_shape_of_p(x: u8, y: u8)
    requires
        x < 8,
        y < 13,
    ensures
        covered_first(letter_marks(Letter::P), (x, y), letter_marks(Letter::P).len()) <==> glyph_lit(
            Letter::P,
            x as int,
            y as int,
        ),
{
    reveal_with_fuel(covered_first, 7);
}

proof fn lemma_shape_of_y(x: u8, y: u8)
    requires
        x < 8,
        y < 13,
    ensures
        covered_first(letter_marks(Letter::Y), (x, y), letter_marks(Letter::Y).len()) <==> glyph_lit(
            Letter::Y,
            x as int,
            y as int,
        ),
{
    reveal_with_fuel(covered_first, 7);
}

proof fn lemma_shape_of_v(x: u8, y: u8)
    requires
        x < 8,
        y < 13,
    ensures
        covered_first(letter_marks(Letter::V), (x, y), letter_marks(Letter::V).len()) <==> glyph_lit(
            Letter::V,
            x as int,
            y as int,
        ),
{
    reveal_with_fuel(covered_first, 7);
}

proof fn lemma_shape_of_l(x: u8, y: u8)
    requires
        x < 8,
        y < 13,
    ensures
        covered_first(letter_marks(Letter::L), (x, y), letter_marks(Letter::L).len()) <==> glyph_lit(
            Letter::L,
            x as int,
            y as int,
        ),
{
    reveal_with_fuel(covered_first, 7);
}

proof fn lemma_shape_of_e(x: u8, y: u8)
    requires
        x < 8,
        y < 13,
    ensures
        covered_first(letter_marks(Letter::E), (x, y), letter_marks(Letter::E).len()) <==> glyph_lit(
            Letter::E,
            x as int,
            y as int,
        ),
{
    reveal_with_fuel(covered_first, 7);
}

proof fn lemma_shape_of_n(x: u8, y: u8)
    requires
        x < 8,
        y < 13,
    ensures
        covered_first(letter_marks(Letter::N), (x, y), letter_marks(Letter::N).len()) <==> glyph_lit(
            Letter::N,
            x as int,
            y as int,
        ),
{
    reveal_with_fuel(covered_first, 7);
}

proof fn lemma_shape_of_t(x: u8, y: u8)
    requires
        x < 8,
        y < 13,
    ensures
        covered_first(letter_marks(Letter::T), (x, y), letter_marks(Letter::T).len()) <==> glyph_lit(
            Letter::T,
            x as int,
            y as int,
        ),
{
    reveal_with_fuel(covered_first, 7);
}

proof fn lemma_shape_of_i(x: u8, y: u8)
    requires
        x < 8,
        y < 13,
    ensures
        covered_first(letter_marks(Letter::I), (x, y), letter_marks(Letter::I).len()) <==> glyph_lit(
            Letter::I,
            x as int,
            y as int,
        ),
{
    reveal_with_fuel(covered_first, 7);
}

proof fn lemma_shape_of_s(x: u8, y: u8)
    requires
        x < 8,
        y < 13,
    ensures
        covered_first(letter_marks(Letter::S), (x, y), letter_marks(Letter::S).len()) <==> glyph_lit(
            Letter::S,
            x as int,
            y as int,
        ),
{
    reveal_with_fuel(covered_first, 7);
}

proof fn lemma_shape_of_d(x: u8, y: u8)
    requires
        x < 8,
        y < 13,
    ensures
        covered_first(letter_marks(Letter::D), (x, y), letter_marks(Letter::D).len()) <==> glyph_lit(
            Letter::D,
            x as int,
            y as int,
        ),
{
    reveal_with_fuel(covered_first, 7);
}

proof fn lemma_shape_of_o(x: u8, y: u8)
    requires
        x < 8,
        y < 13,
    ensures
        covered_first(letter_marks(Letter::O), (x, y), letter_marks(Letter::O).len()) <==> glyph_lit(
            Letter::O,
            x as int,
            y as int,
        ),
{
    reveal_with_fuel(covered_first, 7);
}

proof fn lemma_shape_of_z(x: u8, y: u8)
    requires
        x < 8,
        y < 13,
    ensures
        covered_first(letter_marks(Letter::Z), (x, y), letter_marks(Letter::Z).len()) <==> glyph_lit(
            Letter::Z,
            x as int,
            y as int,
        ),
{
    reveal_with_fuel(covered_first, 7);
}

/// Every letter lights exactly the cells of its picture: the strokes the program draws for a
/// letter cover a cell of the grid if and only if the picture of the letter has that cell lit.
pub proof fn law_letter_shapes(letter: Letter, x: u8, y: u8)
    requires
        x < 8,
        y < 13,
    ensures
        covered(letter_marks(letter), (x, y)) <==> glyph_lit(letter, x as int, y as int),
{
    let marks = letter_marks(letter);
    lemma_covered_first(marks, (x, y), marks.len());
    match letter {
        Letter::H => lemma_shape_of_h(x, y),
        Letter::A => lemma_shape_of_a(x, y),
        Letter::P => lemma_shape_of_p(x, y),
        Letter::Y => lemma_shape_of_y(x, y),
        Letter::V => lemma_shape_of_v(x, y),
        Letter::L => lemma_shape_of_l(x, y),
        Letter::E => lemma_shape_of_e(x, y),
        Letter::N => lemma_shape_of_n(x, y),
        Letter::T => lemma_shape_of_t(x, y),
        Letter::I => lemma_shape_of_i(x, y),
        Letter::S => lemma_shape_of_s(x, y),
        Letter::D => lemma_shape_of_d(x, y),
        Letter::O => lemma_shape_of_o(x, y),
        Letter::Z => lemma_shape_of_z(x, y),
    }
}

/// The heart lights exactly the cells of its picture.
pub proof fn law_heart_shape(x: u8, y: u8)
    requires
        x < 8,
        y < 13,
    ensures
        covered(heart_marks(), (x, y)) <==> heart_lit(x as int, y as int),
{
    let marks = heart_marks();
    lemma_covered_first(marks, (x, y), marks.len());
    reveal_with_fuel(covered_first, 15);
}

/// The program spells "HAPPY VALENTINES DAY" and then "LOVE IZZY", one letter per two steps.
pub proof fn law_valentine_spells_the_greeting()
    ensures
        valentine_text() == seq![Letter::H, Letter::A, Letter::P, Letter::P, Letter::Y, Letter::V, Letter::A, Letter::L, Letter::E, Letter::N, Letter::T, Letter::I, Letter::N, Letter::E, Letter::S, Letter::D, Letter::A, Letter::Y, Letter::L, Letter::O, Letter::V, Letter::E, Letter::I, Letter::Z, Letter::Z, Letter::Y],
        valentine_text().len() == 26,
{
}

/// The program waits ten ticks after every step but the two that clear the last letter of each
/// phrase, the final Y of "DAY" and of "IZZY", after which it waits twenty.
pub proof fn law_valentine_pauses(step: int)
    requires
        0 <= step < 52,
    ensures
        valentine_pause(step) == (if step == 35 || step == 51 {
            20u64
        } else {
            10u64
        }),
        step == 35 ==> valentine_text()[step / 2] == Letter::Y,
        step == 51 ==> valentine_text()[step / 2] == Letter::Y,
{
}

} // verus!
