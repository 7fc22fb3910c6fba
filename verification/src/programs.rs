use vstd::prelude::*;

use crate::byte_copy::ByteCopy;
use crate::line::{law_bresenham_endpoints, law_bresenham_in_box, spec_bresenham};
use crate::projection::{
    grid_fill, grid_locs, law_fill_then_get, law_switchback_layout, lemma_paint_untouched,
    line_locs, paint_skipping, switchback_index, Bound, Cartesian2dExt,
    Cartesian2d, CartesianRange, CartesianSpatialExt, CartesianSubspace, ConstrainHeight, LinearRange,
    LinearSpatialExt, LinearSubspace, Space, Spatial, SpatialExt, SwitchbackGrid, Transformed,
};
use crate::receiver::Mailbox;
use crate::{law_strip_fill, law_strip_fill_from, rotated_left, rotated_right, LedStrip};

verus! {

/// Handles what has arrived in `mailbox` for the receiving program: a message that reads as a
/// colour and an LED index sets that LED, where the strip has one at that index.
pub fn receive_step(mailbox: &mut Mailbox, leds: &mut LedStrip)
    requires
        old(mailbox).spec_len() <= old(mailbox).spec_data().len(),
        old(leds).window_fits(),
    ensures
        final(leds).window_fits(),
        final(leds).spec_offset() == old(leds).spec_offset(),
        final(leds).spec_len() == old(leds).spec_len(),
        !final(mailbox).spec_available(),
        ({
            let message = old(mailbox).spec_data().take(old(mailbox).spec_len() as int);
            match <([u8; 3], u8)>::spec_extract(message) {
                Some(((color, idx), _)) => if old(mailbox).spec_available() && idx < old(
                    leds,
                ).spec_len() {
                    final(leds).spec_buffer() == old(leds).spec_buffer().update(
                        old(leds).spec_offset() + idx,
                        color,
                    )
                } else {
                    final(leds).spec_buffer() == old(leds).spec_buffer()
                },
                None => final(leds).spec_buffer() == old(leds).spec_buffer(),
            }
        }),
{
    match mailbox.poll_extract::<([u8; 3], u8)>() {
        Some((color, idx)) => {
            match leds.get_mut(idx as usize) {
                Some(led) => {
                    *led = color;
                },
                None => {},
            }
        },
        None => {},
    }
}

/// The frame the scrolling-stripes program shows at `frame` on a strip of `len` LEDs.
pub open spec fn oops_pattern(len: nat, frame: u8) -> Seq<[u8; 3]> {
    Seq::new(
        len,
        |idx: int|
            [
                100u8,
                ((255 - 2 * idx + frame) % 256) as u8,
                ((2 * idx + frame) % 256) as u8,
            ],
    )
}

/// The stripes: every LED's red is 100; the first LED's green is `255 + frame` and its blue is
/// `frame`, both modulo 256; and along the strip each LED's green is two less, and its blue two
/// more, than the one before, modulo 256.
pub proof fn law_oops_stripes(len: nat, frame: u8, i: int)
    requires
        0 <= i < len,
    ensures
        oops_pattern(len, frame)[i][0] == 100,
        i == 0 ==> oops_pattern(len, frame)[i][1] == (255 + frame) % 256,
        i == 0 ==> oops_pattern(len, frame)[i][2] == frame,
        i + 1 < len ==> oops_pattern(len, frame)[i + 1][1] == (oops_pattern(len, frame)[i][1] + 254) % 256,
        i + 1 < len ==> oops_pattern(len, frame)[i + 1][2] == (oops_pattern(len, frame)[i][2] + 2) % 256,
{
    let g = 255 - 2 * i + frame;
    let b = 2 * i + frame;
    vstd::arithmetic::div_mod::lemma_add_mod_noop(g, 254, 256);
    vstd::arithmetic::div_mod::lemma_small_mod(254, 256);
    vstd::arithmetic::div_mod::lemma_mod_add_multiples_vanish(g - 2, 256);
    vstd::arithmetic::div_mod::lemma_add_mod_noop(b, 2, 256);
    vstd::arithmetic::div_mod::lemma_small_mod(2, 256);
    vstd::arithmetic::div_mod::lemma_small_mod(frame as nat, 256);
    assert(g - 2 + 256 == g + 254);
}


/// Draws the next frame of the scrolling-stripes program: the frame counter moves on by one,
/// wrapping, and the strip shows the pattern for it.
pub fn oops_frame(leds: &mut LedStrip, frame: &mut u8)
    requires
        old(leds).window_fits(),
        old(leds).spec_len() <= 128,
    ensures
        *final(frame) == ((*old(frame) + 1) % 256) as u8,
        final(leds).window_fits(),
        final(leds).spec_offset() == old(leds).spec_offset(),
        final(leds).spec_len() == old(leds).spec_len(),
        final(leds).spec_window() == oops_pattern(old(leds).spec_len() as nat, *final(frame)),
        final(leds).spec_buffer().subrange(0, old(leds).spec_offset() as int) == old(
            leds,
        ).spec_buffer().subrange(0, old(leds).spec_offset() as int),
        final(leds).spec_buffer().subrange(
            old(leds).spec_offset() + old(leds).spec_len(),
            old(leds).spec_buffer().len() as int,
        ) == old(leds).spec_buffer().subrange(
            old(leds).spec_offset() + old(leds).spec_len(),
            old(leds).spec_buffer().len() as int,
        ),
{
    let ghost start = *leds;
    leds.clear();
    proof {
        law_strip_fill(start, [0u8, 0u8, 0u8]);
    }
    *frame = frame.wrapping_add(1);
    let n = leds.len();
    let mut colors: Vec<[u8; 3]> = Vec::new();
    let mut idx: usize = 0;
    while idx < n
        invariant
            idx <= n <= 128,
            colors@ == oops_pattern(n as nat, *frame).take(idx as int),
        decreases n - idx,
    {
        let twice = (idx as u8) * 2;
        colors.push([100, (255 - twice).wrapping_add(*frame), twice.wrapping_add(*frame)]);
        assert(colors@ == oops_pattern(n as nat, *frame).take(idx + 1));
        idx += 1;
    }
    assert(colors@ == oops_pattern(n as nat, *frame));
    let ghost cleared = *leds;
    leds.fill_from(colors.as_slice());
    proof {
        law_strip_fill_from(cleared, colors@);
        assert(colors@.take(n as int) == colors@);
        let o = start.spec_offset() as int;
        let e = o + n;
        let total = start.spec_buffer().len() as int;
        assert(leds.spec_buffer().subrange(0, o) =~= start.spec_buffer().subrange(0, o));
        assert(leds.spec_buffer().subrange(e, total) =~= start.spec_buffer().subrange(e, total));
    }
}

/// Where the tidal program is: which way it scrolls, and how many steps of that way it has made.
pub struct Tides {
    leftward: bool,
    step: usize,
}

impl Tides {
    pub closed spec fn spec_leftward(&self) -> bool {
        self.leftward
    }

    pub closed spec fn spec_step(&self) -> usize {
        self.step
    }

    /// The program at its start: scrolling left, no step made.
    pub fn new() -> (r: Tides)
        ensures
            r.spec_leftward(),
            r.spec_step() == 0,
    {
        Tides { leftward: true, step: 0 }
    }

    /// One frame of the tidal program: the strip scrolls one LED, left for as many frames as it
    /// has LEDs, then right for as many, and so on.
    pub fn frame(&mut self, leds: &mut LedStrip)
        requires
            old(leds).window_fits(),
            old(leds).spec_len() > 0,
            old(self).spec_step() < old(leds).spec_len(),
        ensures
            final(leds).window_fits(),
            final(leds).spec_offset() == old(leds).spec_offset(),
            final(leds).spec_len() == old(leds).spec_len(),
            final(leds).spec_window() == if old(self).spec_leftward() {
                rotated_left(old(leds).spec_window(), 1)
            } else {
                rotated_right(old(leds).spec_window(), 1)
            },
            final(leds).spec_buffer().subrange(0, old(leds).spec_offset() as int) == old(
                leds,
            ).spec_buffer().subrange(0, old(leds).spec_offset() as int),
            final(leds).spec_buffer().subrange(
                old(leds).spec_offset() + old(leds).spec_len(),
                old(leds).spec_buffer().len() as int,
            ) == old(leds).spec_buffer().subrange(
                old(leds).spec_offset() + old(leds).spec_len(),
                old(leds).spec_buffer().len() as int,
            ),
            final(self).spec_step() < old(leds).spec_len(),
            old(self).spec_step() + 1 < old(leds).spec_len() ==> final(self).spec_step()
                == old(self).spec_step() + 1 && final(self).spec_leftward() == old(
                self,
            ).spec_leftward(),
            old(self).spec_step() + 1 == old(leds).spec_len() ==> final(self).spec_step() == 0
                && final(self).spec_leftward() == !old(self).spec_leftward(),
    {
        if self.leftward {
            leds.rotate_left(1);
        } else {
            leds.rotate_right(1);
        }
        self.step = self.step + 1;
        if self.step == leds.len() {
            self.step = 0;
            self.leftward = !self.leftward;
        }
    }
}

} // verus!

verus! {

broadcast use {
    CartesianRange::lemma_spec_new,
    CartesianSubspace::lemma_spec_new,
    Transformed::lemma_spec_new,
};

/// Whether no cell of the `w` by `h` rectangle at the origin of `leds` lies on LED `i`.
pub open spec fn off_grid<S: Cartesian2d + Space<Target = usize>>(
    leds: Transformed<LedStrip, S>,
    w: u8,
    h: u8,
    i: int,
) -> bool {
    forall|c: (u8, u8)| c.0 < w && c.1 < h ==> #[trigger] leds.spec_locate(c) != Some(i as usize)
}

/// The white of the grid program's square.
pub const WHITE: [u8; 3] = [255, 255, 255];

/// The arrangement the grid program draws on: a strip seen as rows of eight, nine rows high.
pub type GridLeds = Transformed<LedStrip, ConstrainHeight<SwitchbackGrid>>;

/// Whether `leds` is laid out as the grid program needs: rows of eight LEDs, nine rows high, on a
/// strip with an LED for every cell.
pub open spec fn grid_program_layout(leds: GridLeds) -> bool {
    &&& leds.wf()
    &&& leds.spec_projection().spec_inner().spec_stride() == 8
    &&& leds.spec_projection().spec_limit() == 9
    &&& leds.spec_data().spec_len() >= 72
}

/// Where on the strip cell `(x, y)` of the grid program's layout lies.
proof fn lemma_grid_cell(leds: GridLeds, x: u8, y: u8)
    requires
        grid_program_layout(leds),
        x < 8,
        y < 9,
    ensures
        0 <= switchback_index(8, x as int, y as int) < 72,
        leds.spec_locate((x, y)) == Some(
            (leds.spec_data().spec_offset() + switchback_index(8, x as int, y as int)) as usize,
        ),
        leds.spec_data().spec_offset() + switchback_index(8, x as int, y as int) < leds.spec_leds().len(),
{
    let grid = leds.spec_projection().spec_inner();
    law_switchback_layout(grid, (x, y), (x, y));
    assert(y * 8 <= switchback_index(8, x as int, y as int) < (y + 1) * 8);
}

/// Cells of the grid program's layout that lie on the same LED are the same cell.
proof fn lemma_grid_cells_distinct(leds: GridLeds, a: (u8, u8), b: (u8, u8))
    requires
        grid_program_layout(leds),
        a.0 < 8,
        a.1 < 9,
        b.0 < 8,
        b.1 < 9,
        leds.spec_locate(a) == leds.spec_locate(b),
    ensures
        a == b,
{
    let grid = leds.spec_projection().spec_inner();
    lemma_grid_cell(leds, a.0, a.1);
    lemma_grid_cell(leds, b.0, b.1);
    leds.spec_data().lemma_buffer_fits();
    law_switchback_layout(grid, a, b);
    assert(switchback_index(8, a.0 as int, a.1 as int) == switchback_index(8, b.0 as int, b.1 as int));
}

/// Whether cell `(cx, cy)` lies in the two by two square whose corner is `(x, y)`.
pub open spec fn in_square(x: u8, y: u8, cx: u8, cy: u8) -> bool {
    x <= cx < x + 2 && y <= cy < y + 2
}

/// Where the grid program's square is: its corner walks down each column, then on to the next.
pub struct GridWalk {
    x: u8,
    y: u8,
}

impl GridWalk {
    pub closed spec fn spec_corner(&self) -> (u8, u8) {
        (self.x, self.y)
    }

    /// The walk at its start, in the first corner.
    pub fn new() -> (r: GridWalk)
        ensures
            r.spec_corner() == (0u8, 0u8),
    {
        GridWalk { x: 0, y: 0 }
    }

    /// One frame of the grid program: the whole grid goes dark but for a white two by two square
    /// at the walk's corner, and the corner moves on.
    #[verifier::rlimit(40)]
    pub fn frame(&mut self, leds: GridLeds) -> (r: GridLeds)
        requires
            grid_program_layout(leds),
            old(self).spec_corner().0 < 7,
            old(self).spec_corner().1 < 8,
        ensures
            grid_program_layout(r),
            r.spec_projection() == leds.spec_projection(),
            r.spec_data().spec_offset() == leds.spec_data().spec_offset(),
            r.spec_data().spec_len() == leds.spec_data().spec_len(),
            forall|cx: u8, cy: u8|
                cx < 8 && cy < 9 ==> ((#[trigger] r.spec_locate((cx, cy))) matches Some(i)
                    && r.spec_leds()[i as int] == if in_square(
                    old(self).spec_corner().0,
                    old(self).spec_corner().1,
                    cx,
                    cy,
                ) {
                    WHITE
                } else {
                    [0u8, 0u8, 0u8]
                }),
            forall|i: int|
                0 <= i < leds.spec_leds().len() && off_grid(leds, 8, 9, i) ==> #[trigger] r.spec_leds()[i]
                    == leds.spec_leds()[i],
            final(self).spec_corner() == if old(self).spec_corner().1 + 1 < 8 {
                (old(self).spec_corner().0, (old(self).spec_corner().1 + 1) as u8)
            } else if old(self).spec_corner().0 + 1 < 7 {
                ((old(self).spec_corner().0 + 1) as u8, 0u8)
            } else {
                (0u8, 0u8)
            },
    {
        let x = self.x;
        let y = self.y;
        let mut leds = leds;
        let space = *leds.space();
        proof {
            assert forall|i: int| 0 <= i < 8 * 9 implies (#[trigger] grid_locs(leds, 8, 9)[i]) is Some by {
                vstd::arithmetic::div_mod::lemma_fundamental_div_mod(i, 9);
                let cx = (i / 9) as u8;
                let cy = (i % 9) as u8;
                lemma_grid_cell(leds, cx, cy);
            }
        }
        let ghost before_clear = leds;
        leds.clear();
        let ghost cleared = leds;
        assert(cleared.spec_leds() == grid_fill(before_clear, [0u8, 0u8, 0u8]));
        let range = match leds.range(Bound::Included((x, y)), Bound::Excluded((x + 2, y + 2))) {
            Ok(range) => range,
            Err(back) => {
                assert(false);
                return back;
            },
        };
        let ghost square = range;
        proof {
            assert forall|i: int| 0 <= i < 2 * 2 implies (#[trigger] grid_locs(square, 2, 2)[i]) is Some by {
                vstd::arithmetic::div_mod::lemma_fundamental_div_mod(i, 2);
                let cx = (x + i / 2) as u8;
                let cy = (y + i % 2) as u8;
                lemma_grid_cell(cleared, cx, cy);
            }
        }
        let mut range = range;
        match range.fill(WHITE) {
            Some(_) => {},
            None => {
                assert(false);
            },
        }
        let painted = range;
        let strip = painted.into_inner();
        let result = strip.project(space);
        proof {
            assert forall|cx: u8, cy: u8| cx < 8 && cy < 9 implies ((#[trigger] result.spec_locate((cx, cy))) matches Some(i)
                && result.spec_leds()[i as int] == if in_square(x, y, cx, cy) {
                WHITE
            } else {
                [0u8, 0u8, 0u8]
            }) by {
                lemma_grid_cell(result, cx, cy);
                lemma_grid_cell(cleared, cx, cy);
                law_fill_then_get(before_clear, [0u8, 0u8, 0u8], cx, cy);
                let i = result.spec_locate((cx, cy)).unwrap();
                if in_square(x, y, cx, cy) {
                    law_fill_then_get(square, WHITE, (cx - x) as u8, (cy - y) as u8);
                    assert(square.spec_locate(((cx - x) as u8, (cy - y) as u8)) == cleared.spec_locate((cx, cy)));
                } else {
                    let locs = grid_locs(square, 2, 2);
                    assert forall|k: int| 0 <= k < locs.len() && locs[k] is Some implies (#[trigger] locs[k]).unwrap() != i
                        && locs[k].unwrap() < cleared.spec_leds().len() by {
                        vstd::arithmetic::div_mod::lemma_fundamental_div_mod(k, 2);
                        let sx = (x + k / 2) as u8;
                        let sy = (y + k % 2) as u8;
                        lemma_grid_cell(cleared, sx, sy);
                        assert(locs[k] == cleared.spec_locate((sx, sy)));
                        if locs[k].unwrap() == i {
                            lemma_grid_cells_distinct(cleared, (sx, sy), (cx, cy));
                        }
                    }
                    lemma_paint_untouched(cleared.spec_leds(), locs, Seq::new(4, |j: int| WHITE), i as int);
                }
            }
        }
        proof {
            assert forall|i: int| 0 <= i < before_clear.spec_leds().len() && off_grid(before_clear, 8, 9, i) implies #[trigger] result.spec_leds()[i]
                == before_clear.spec_leds()[i] by {
                let all = grid_locs(before_clear, 8, 9);
                assert forall|k: int| 0 <= k < all.len() && all[k] is Some implies (#[trigger] all[k]).unwrap() != i
                    && all[k].unwrap() < before_clear.spec_leds().len() by {
                    vstd::arithmetic::div_mod::lemma_fundamental_div_mod(k, 9);
                    let cx = (k / 9) as u8;
                    let cy = (k % 9) as u8;
                    lemma_grid_cell(before_clear, cx, cy);
                    assert(all[k] == before_clear.spec_locate((cx, cy)));
                }
                lemma_paint_untouched(before_clear.spec_leds(), all, Seq::new(72, |j: int| [0u8, 0u8, 0u8]), i);
                let locs = grid_locs(square, 2, 2);
                assert forall|k: int| 0 <= k < locs.len() && locs[k] is Some implies (#[trigger] locs[k]).unwrap() != i
                    && locs[k].unwrap() < cleared.spec_leds().len() by {
                    vstd::arithmetic::div_mod::lemma_fundamental_div_mod(k, 2);
                    let sx = (x + k / 2) as u8;
                    let sy = (y + k % 2) as u8;
                    lemma_grid_cell(cleared, sx, sy);
                    assert(locs[k] == cleared.spec_locate((sx, sy)));
                    assert(cleared.spec_locate((sx, sy)) == before_clear.spec_locate((sx, sy)));
                }
                lemma_paint_untouched(cleared.spec_leds(), locs, Seq::new(4, |j: int| WHITE), i);
            }
        }
        if y + 1 < 8 {
            self.y = y + 1;
        } else if x + 1 < 7 {
            self.x = x + 1;
            self.y = 0;
        } else {
            self.x = 0;
            self.y = 0;
        }
        result
    }
}

/// A counter that climbs from zero to a top and back down, over and over, beside a phase that
/// counts from zero towards a cycle length and starts again; the colour-blending programs keep
/// their place with it.
pub struct Bounce {
    frame: usize,
    rising: bool,
    phase: usize,
}

impl Bounce {
    pub closed spec fn spec_frame(&self) -> usize {
        self.frame
    }

    pub closed spec fn spec_rising(&self) -> bool {
        self.rising
    }

    pub closed spec fn spec_phase(&self) -> usize {
        self.phase
    }

    /// Whether the counter lies in `[0, top]` and heads away from the end it stands on, and the
    /// phase lies below `cycle`.
    pub open spec fn wf(&self, top: usize, cycle: usize) -> bool {
        &&& self.spec_frame() <= top
        &&& self.spec_phase() < cycle
        &&& (self.spec_rising() ==> self.spec_frame() < top)
        &&& (!self.spec_rising() ==> self.spec_frame() > 0)
    }

    /// A counter at zero, climbing, with its phase at zero.
    pub fn new() -> (r: Bounce)
        ensures
            r.spec_frame() == 0,
            r.spec_rising(),
            r.spec_phase() == 0,
    {
        Bounce { frame: 0, rising: true, phase: 0 }
    }

    pub fn frame(&self) -> (r: usize)
        ensures
            r == self.spec_frame(),
    {
        self.frame
    }

    pub fn phase(&self) -> (r: usize)
        ensures
            r == self.spec_phase(),
    {
        self.phase
    }

    /// Moves the phase on by one, back to zero on reaching `cycle`, and the counter one step
    /// in its direction, turning it round on reaching `top` or zero.
    pub fn step(&mut self, top: usize, cycle: usize)
        requires
            old(self).wf(top, cycle),
        ensures
            final(self).wf(top, cycle),
            final(self).spec_phase() == if old(self).spec_phase() + 1 == cycle {
                0
            } else {
                old(self).spec_phase() + 1
            },
            final(self).spec_frame() == if old(self).spec_rising() {
                old(self).spec_frame() + 1
            } else {
                old(self).spec_frame() - 1
            },
            final(self).spec_rising() == if final(self).spec_frame() == top
                || final(self).spec_frame() == 0 {
                !old(self).spec_rising()
            } else {
                old(self).spec_rising()
            },
    {
        self.phase = self.phase + 1;
        if self.rising {
            self.frame = self.frame + 1;
        } else {
            self.frame = self.frame - 1;
        }
        if self.phase == cycle {
            self.phase = 0;
        }
        if self.frame == top || self.frame == 0 {
            self.rising = !self.rising;
        }
    }
}

/// The LEDs of the line that the lines program draws, from cell `(1, 1)` to cell `(5, 7)` of a
/// grid of rows of eight laid on `strip`, in order along the line.
pub open spec fn lines_locs(strip: LedStrip) -> Seq<Option<usize>> {
    let points = spec_bresenham((1u8, 1u8), (5u8, 7u8));
    Seq::new(
        points.len(),
        |j: int|
            Some(
                (strip.spec_offset() + switchback_index(8, points[j].0 as int, points[j].1 as int)) as usize,
            ),
    )
}

/// One frame of the lines program: the strip goes dark, then the colours are written in turn
/// along the line from cell `(1, 1)` to cell `(5, 7)` of the grid of rows of eight.
pub fn lines_frame(strip: LedStrip, colours: &[[u8; 3]]) -> (r: LedStrip)
    requires
        strip.window_fits(),
        strip.spec_len() >= 72,
    ensures
        r.window_fits(),
        r.spec_offset() == strip.spec_offset(),
        r.spec_len() == strip.spec_len(),
        r.spec_buffer() == paint_skipping(
            strip.spec_fill([0u8, 0u8, 0u8]),
            lines_locs(strip),
            colours@,
        ),
{
    broadcast use LinearRange::lemma_spec_new, LinearSubspace::lemma_spec_new;

    let mut strip = strip;
    strip.clear();
    let space = match SwitchbackGrid::new(8).constrain_height(9) {
        Some(g) => g,
        None => vstd::pervasive::unreached(),
    };
    let grid = strip.project(space);
    let mut line = match grid.into_line((1, 1), (5, 7)) {
        Some(l) => l,
        None => vstd::pervasive::unreached(),
    };
    proof {
        let points = spec_bresenham((1u8, 1u8), (5u8, 7u8));
        let locs = line_locs(grid, line.spec_line());
        law_bresenham_endpoints((1u8, 1u8), (5u8, 7u8));
        grid.spec_data().lemma_buffer_fits();
        assert forall|j: int| 0 <= j < locs.len() implies #[trigger] locs[j] == lines_locs(strip)[j] by {
            law_bresenham_in_box((1u8, 1u8), (5u8, 7u8), j);
            let p = points[j];
            law_switchback_layout(space.spec_inner(), p, p);
            assert(p.1 * 8 <= switchback_index(8, p.0 as int, p.1 as int) < (p.1 + 1) * 8);
        }
        assert(locs =~= lines_locs(strip));
    }
    line.fill_from(colours);
    match line.range(Bound::Unbounded, Bound::Unbounded) {
        Ok(range) => range.into_inner().into_inner(),
        Err(_) => vstd::pervasive::unreached(),
    }
}

/// Pure red.
pub const RED: [u8; 3] = [255, 0, 0];

/// Pure green.
pub const GREEN: [u8; 3] = [0, 255, 0];

/// Pure blue.
pub const BLUE: [u8; 3] = [0, 0, 255];

/// The fade that the easing program makes as its `step`-th, counting from zero: its target
/// colour, and whether it eases sinusoidally rather than linearly. Each round of twelve fades goes
/// three times to red and back to blue, linearly, then three times to green and back, sinusoidally.
pub fn nonlinear_fade(step: usize) -> (r: ([u8; 3], bool))
    ensures
        r.0 == if (step % 12) % 2 == 1 {
            BLUE
        } else if step % 12 < 6 {
            RED
        } else {
            GREEN
        },
        r.1 == (step % 12 >= 6),
{
    let cycle = step % 12;
    let colour = if cycle % 2 == 1 {
        BLUE
    } else if cycle < 6 {
        RED
    } else {
        GREEN
    };
    (colour, cycle >= 6)
}

/// The `take` colours that follow the first `skip` of `pattern` repeated without end; nothing
/// where the pattern is empty.
pub fn cycle_window(pattern: &[[u8; 3]], skip: usize, take: usize) -> (r: Vec<[u8; 3]>)
    ensures
        pattern@.len() == 0 ==> r@.len() == 0,
        pattern@.len() > 0 ==> r@.len() == take && forall|k: int|
            0 <= k < take ==> #[trigger] r@[k] == pattern@[(skip + k) % (pattern@.len() as int)],
{
    let n = pattern.len();
    let mut out: Vec<[u8; 3]> = Vec::new();
    if n == 0 {
        return out;
    }
    let mut idx: usize = skip % n;
    let mut k: usize = 0;
    while k < take
        invariant
            n == pattern@.len(),
            n > 0,
            k <= take,
            idx < n,
            idx == (skip + k) % (n as int),
            out@.len() == k,
            forall|j: int| 0 <= j < k ==> #[trigger] out@[j] == pattern@[(skip + j) % (n as int)],
        decreases take - k,
    {
        out.push(pattern[idx]);
        proof {
            let q = (skip + k) / (n as int);
            vstd::arithmetic::div_mod::lemma_fundamental_div_mod(skip + k, n as int);
            vstd::arithmetic::div_mod::lemma_mod_multiples_vanish(q, idx + 1, n as int);
            assert(skip + k + 1 == n * q + (idx + 1));
            if idx + 1 < n {
                vstd::arithmetic::div_mod::lemma_small_mod((idx + 1) as nat, n as nat);
            } else {
                vstd::arithmetic::div_mod::lemma_mod_self_0(n as int);
            }
        }
        idx = if idx + 1 == n {
            0
        } else {
            idx + 1
        };
        k += 1;
    }
    out
}

} // verus!
