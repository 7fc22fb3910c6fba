use lights::line::bresenham;
use lights::projection::switchback_cell;
use lights::projection::{
    Bound, Cartesian2d, Cartesian2dExt, CartesianSpatialExt, ConstrainHeight, ExtractSign, FlipX,
    FlipY, Linear, LinearSpatialExt, MapSpace, Sign, Space, Spatial, SpatialExt, StripSpace,
    SwitchbackGrid, Transformed,
};
use lights::{leds, LedStrip, LED_COUNT};

const WHITE: [u8; 3] = [255, 255, 255];
const RED: [u8; 3] = [255, 0, 0];
const BLACK: [u8; 3] = [0, 0, 0];

fn grid() -> Transformed<LedStrip, ConstrainHeight<SwitchbackGrid>> {
    leds().project(SwitchbackGrid::new(8).constrain_height(9).unwrap())
}

#[test]
fn strip_space_is_identity() {
    let space = StripSpace(10);
    assert_eq!(space.transform(3), Some(3));
    assert_eq!(space.transform(42), Some(42));
    assert_eq!(space.len(), 10);
}

#[test]
fn switchback_grid_snakes() {
    let g = SwitchbackGrid::new(8);
    assert_eq!(g.transform((0, 0)), Some(0));
    assert_eq!(g.transform((7, 0)), Some(7));
    assert_eq!(g.transform((7, 1)), Some(8));
    assert_eq!(g.transform((0, 1)), Some(15));
    assert_eq!(g.transform((3, 2)), Some(19));
    assert_eq!(g.transform((8, 0)), None);
    assert_eq!(g.width(), Some(8));
    assert_eq!(g.height(), None);
}

#[test]
fn switchback_cells_are_distinct() {
    let g = SwitchbackGrid::new(8);
    let mut seen = vec![false; 8 * 11];
    for y in 0..11u8 {
        for x in 0..8u8 {
            let i = g.transform((x, y)).unwrap();
            assert!(i >= y as usize * 8 && i < (y as usize + 1) * 8);
            assert!(!seen[i]);
            seen[i] = true;
        }
    }
}

#[test]
fn flips_mirror_and_undo_themselves() {
    let g = SwitchbackGrid::new(8).constrain_height(9).unwrap();
    let fx = g.flip_x().unwrap();
    assert_eq!(fx.transform((0, 0)), Some(7));
    assert_eq!(fx.transform((8, 0)), None);
    assert_eq!(fx.width(), Some(8));
    assert_eq!(fx.height(), Some(9));
    let fy = g.flip_y().unwrap();
    assert_eq!(fy.transform((0, 0)), g.transform((0, 8)));
    assert_eq!(fy.transform((0, 9)), None);
    let twice = FlipX::new(FlipX::new(g).unwrap()).unwrap();
    let twice_y = FlipY::new(FlipY::new(g).unwrap()).unwrap();
    for x in 0..8u8 {
        for y in 0..9u8 {
            assert_eq!(twice.transform((x, y)), g.transform((x, y)));
            assert_eq!(twice_y.transform((x, y)), g.transform((x, y)));
        }
    }
}

#[test]
fn flips_need_a_known_extent() {
    assert!(SwitchbackGrid::new(8).flip_y().is_none());
    assert!(SwitchbackGrid::new(8).flip_x().is_some());
    assert!(SwitchbackGrid::new(8).into_torus().is_none());
}

#[test]
fn constrain_height_refuses_growth() {
    let nine = SwitchbackGrid::new(8).constrain_height(9).unwrap();
    assert!(nine.constrain_height(10).is_none());
    let five = nine.constrain_height(5).unwrap();
    assert_eq!(five.height(), Some(5));
    assert_eq!(five.width(), Some(8));
    assert_eq!(five.transform((1, 1)), Some(14));
}

#[test]
fn torus_wraps_around() {
    let t = SwitchbackGrid::new(8).constrain_height(9).unwrap().into_torus().unwrap();
    assert_eq!(t.transform((9, 0)), Some(1));
    assert_eq!(t.transform((0, 10)), Some(15));
    assert_eq!(t.width(), None);
    assert_eq!(t.height(), None);
    let empty = SwitchbackGrid::new(0).constrain_height(3).unwrap().into_torus().unwrap();
    assert_eq!(empty.transform((1, 1)), None);
}

#[test]
fn extract_sign_splits_magnitude_and_direction() {
    assert_eq!(5i8.extract_sign().0, 5u8);
    assert!(5i8.extract_sign().1 == Sign::Positive);
    assert_eq!((-5i8).extract_sign().0, 5u8);
    assert!((-5i8).extract_sign().1 == Sign::Negative);
    assert!(0i8.extract_sign().1 == Sign::Negative);
    assert_eq!((-128i8).extract_sign().0, 128u8);
    assert_eq!((-7isize).extract_sign().0, 7usize);
    assert_eq!(i64::MIN.extract_sign().0, 1u64 << 63);
    assert_eq!(300i32.extract_sign().0, 300u32);
    assert_eq!((-2i16).extract_sign().0, 2u16);
}

#[test]
fn strip_starts_dark() {
    let strip = leds();
    assert_eq!(strip.len(), LED_COUNT);
    assert_eq!(strip.len(), 88);
    assert!(strip.buffer().iter().all(|c| *c == BLACK));
    assert_eq!(strip.get(87), Some(&BLACK));
    assert_eq!(strip.get(88), None);
}

#[test]
fn strip_get_mut_writes_one_led() {
    let mut strip = leds();
    *strip.get_mut(5).unwrap() = RED;
    assert_eq!(strip.buffer()[5], RED);
    assert_eq!(strip.buffer()[4], BLACK);
    assert!(strip.get_mut(88).is_none());
}

#[test]
fn strip_range_is_a_window() {
    let strip = leds();
    let mut part = strip.range(Bound::Included(10), Bound::Excluded(20)).ok().unwrap();
    assert_eq!(part.len(), 10);
    part.fill(RED);
    let b = part.buffer();
    assert_eq!(b[9], BLACK);
    assert!(b[10..20].iter().all(|c| *c == RED));
    assert_eq!(b[20], BLACK);
    let back = part.range(Bound::Excluded(2), Bound::Included(4)).ok().unwrap();
    assert_eq!(back.len(), 2);
    let strip = leds();
    let whole = strip.range(Bound::Unbounded, Bound::Unbounded).ok().unwrap();
    assert_eq!(whole.len(), 88);
}

#[test]
fn strip_range_refuses_bad_bounds() {
    let strip = leds();
    let strip = strip.range(Bound::Included(5), Bound::Excluded(4)).err().unwrap();
    let strip = strip.range(Bound::Included(0), Bound::Included(88)).err().unwrap();
    assert_eq!(strip.len(), 88);
}

#[test]
fn strip_fill_from_writes_in_order() {
    let mut strip = leds();
    strip.fill_from(&[RED, WHITE, RED]);
    assert_eq!(strip.buffer()[0], RED);
    assert_eq!(strip.buffer()[1], WHITE);
    assert_eq!(strip.buffer()[2], RED);
    assert_eq!(strip.buffer()[3], BLACK);
    let long = vec![WHITE; 100];
    strip.fill_from(&long);
    assert!(strip.buffer().iter().all(|c| *c == WHITE));
    strip.clear();
    assert!(strip.buffer().iter().all(|c| *c == BLACK));
}

#[test]
fn strip_rotates_both_ways() {
    let mut strip = leds();
    strip.fill_from(&[RED, WHITE]);
    strip.rotate_left(1);
    assert_eq!(strip.buffer()[0], WHITE);
    assert_eq!(strip.buffer()[87], RED);
    strip.rotate_right(1);
    assert_eq!(strip.buffer()[0], RED);
    assert_eq!(strip.buffer()[1], WHITE);
    strip.rotate_left(5);
    strip.rotate_right(5);
    assert_eq!(strip.buffer()[0], RED);
    assert_eq!(strip.buffer()[1], WHITE);
    assert_eq!(strip.buffer()[2], BLACK);
}

#[test]
fn projected_get_follows_the_grid() {
    let mut g = grid();
    *g.get_mut((0, 1)).unwrap() = RED;
    assert_eq!(g.get((0, 1)), Some(&RED));
    assert!(g.get_mut((8, 0)).is_none());
    let strip = g.into_inner();
    assert_eq!(strip.buffer()[15], RED);
}

#[test]
fn cartesian_fill_covers_the_rectangle() {
    let mut g = grid();
    assert_eq!(g.fill(WHITE), Some(()));
    for x in 0..8u8 {
        for y in 0..9u8 {
            assert_eq!(g.get((x, y)), Some(&WHITE));
        }
    }
    let strip = g.into_inner();
    assert_eq!(strip.buffer()[71], WHITE);
    assert_eq!(strip.buffer()[72], BLACK);
    let mut g = grid();
    assert_eq!(g.clear(), Some(()));
}

#[test]
fn cartesian_fill_stops_off_the_strip() {
    let mut tall = leds().project(SwitchbackGrid::new(8).constrain_height(12).unwrap());
    assert_eq!(tall.fill(RED), None);
    let strip = tall.into_inner();
    assert_eq!(strip.buffer()[0], RED);
    assert_eq!(strip.buffer()[15], RED);
    assert_eq!(strip.buffer()[80], RED);
    assert_eq!(strip.buffer()[1], BLACK);
    assert_eq!(strip.buffer().iter().filter(|c| **c == RED).count(), 11);
    let mut open = leds().project(SwitchbackGrid::new(8));
    assert_eq!(open.fill(RED), None);
    assert!(open.into_inner().buffer().iter().all(|c| *c == BLACK));
}

#[test]
fn cartesian_range_fills_its_rectangle() {
    let g = grid();
    let mut r = g.range(Bound::Included((1, 1)), Bound::Excluded((3, 3))).ok().unwrap();
    assert_eq!(r.space().width(), Some(2));
    assert_eq!(r.space().height(), Some(2));
    assert_eq!(r.fill(WHITE), Some(()));
    let strip = r.into_inner();
    let g = strip.project(SwitchbackGrid::new(8).constrain_height(9).unwrap());
    for x in 0..8u8 {
        for y in 0..9u8 {
            let inside = (1..3).contains(&x) && (1..3).contains(&y);
            let expected = if inside { WHITE } else { BLACK };
            assert_eq!(g.get((x, y)), Some(&expected));
        }
    }
}

#[test]
fn cartesian_range_bounds() {
    let g = grid();
    let r = g.range(Bound::Included((0, 2)), Bound::Included((4, 2))).ok().unwrap();
    assert_eq!(r.space().width(), Some(5));
    assert_eq!(r.space().height(), Some(1));
    let g = grid();
    let g = g.range(Bound::Included((0, 0)), Bound::Excluded((9, 1))).err().unwrap();
    let g = g.range(Bound::Included((3, 3)), Bound::Excluded((2, 4))).err().unwrap();
    let r = g.range(Bound::Excluded((0, 0)), Bound::Unbounded).ok().unwrap();
    assert_eq!(r.space().width(), Some(7));
    assert_eq!(r.space().height(), Some(8));
    let open = leds().project(SwitchbackGrid::new(8));
    assert!(open.range(Bound::Unbounded, Bound::Unbounded).is_err());
}

#[test]
fn nested_range_accumulates_its_start() {
    let g = grid();
    let r = g.range(Bound::Included((1, 1)), Bound::Unbounded).ok().unwrap();
    let mut inner = r.range(Bound::Included((1, 1)), Bound::Excluded((3, 3))).ok().unwrap();
    *inner.get_mut((0, 0)).unwrap() = RED;
    let strip = inner.into_inner();
    let g = strip.project(SwitchbackGrid::new(8).constrain_height(9).unwrap());
    assert_eq!(g.get((2, 2)), Some(&RED));
}

#[test]
fn cartesian_shifts_move_the_rectangle() {
    let g = grid();
    let r = g.range(Bound::Included((1, 1)), Bound::Excluded((3, 3))).ok().unwrap();
    let moved = r.shift_add((2, 1)).unwrap();
    let mut back = moved.shift_sub((2, 1)).unwrap();
    *back.get_mut((0, 0)).unwrap() = RED;
    let strip = back.into_inner();
    let g = strip.project(SwitchbackGrid::new(8).constrain_height(9).unwrap());
    assert_eq!(g.get((1, 1)), Some(&RED));
    let r = g.range(Bound::Included((1, 1)), Bound::Excluded((3, 3))).ok().unwrap();
    assert!(r.shift_add((6, 0)).is_none());
    let g = grid();
    let r = g.range(Bound::Included((1, 1)), Bound::Excluded((3, 3))).ok().unwrap();
    assert!(r.shift_sub((2, 0)).is_none());
    let g = grid();
    let r = g.range(Bound::Included((2, 2)), Bound::Excluded((4, 4))).ok().unwrap();
    let mut s = r.shift((-1i8, 2i8)).unwrap();
    *s.get_mut((0, 0)).unwrap() = WHITE;
    let g = s.into_inner().project(SwitchbackGrid::new(8).constrain_height(9).unwrap());
    assert_eq!(g.get((1, 4)), Some(&WHITE));
}

#[test]
fn map_space_swaps_the_view() {
    let g = grid();
    let flipped = g.map_space(|space| space.flip_x()).unwrap();
    let mut flipped = flipped;
    *flipped.get_mut((0, 0)).unwrap() = RED;
    assert_eq!(flipped.into_inner().buffer()[7], RED);
    let g = grid();
    assert!(g.map_space(|space| space.constrain_height(20)).is_none());
}

#[test]
fn bresenham_plots_a_connected_line() {
    assert_eq!(
        bresenham((0, 0), (5, 2)),
        vec![(0, 0), (1, 0), (2, 1), (3, 1), (4, 2), (5, 2)]
    );
    assert_eq!(bresenham((3, 3), (3, 3)), vec![(3, 3)]);
    assert_eq!(bresenham((2, 5), (2, 1)), vec![(2, 5), (2, 4), (2, 3), (2, 2), (2, 1)]);
    let pts = bresenham((7, 0), (0, 3));
    assert_eq!(pts.len(), 8);
    assert_eq!(pts[0], (7, 0));
    assert_eq!(*pts.last().unwrap(), (0, 3));
    for w in pts.windows(2) {
        let dx = (w[1].0 as i32 - w[0].0 as i32).abs();
        let dy = (w[1].1 as i32 - w[0].1 as i32).abs();
        assert!(dx <= 1 && dy <= 1 && dx + dy >= 1);
    }
    let far = bresenham((0, 0), (255, 255));
    assert_eq!(far.len(), 256);
    assert!(far.iter().enumerate().all(|(i, p)| p.0 as usize == i && p.1 as usize == i));
}

#[test]
fn line_fills_its_points() {
    let g = grid();
    let mut line = g.into_line((1, 1), (5, 7)).unwrap();
    assert_eq!(line.space().len(), 7);
    line.fill(RED);
    let pts = bresenham((1, 1), (5, 7));
    let strip = line_into_strip(line);
    let g = strip.project(SwitchbackGrid::new(8).constrain_height(9).unwrap());
    for p in pts {
        assert_eq!(g.get(p), Some(&RED));
    }
    assert_eq!(g.get((0, 0)), Some(&BLACK));
}

fn line_into_strip(
    line: lights::projection::BresenhamLine<Transformed<LedStrip, ConstrainHeight<SwitchbackGrid>>>,
) -> LedStrip {
    let range = line.range(Bound::Unbounded, Bound::Unbounded).ok().unwrap();
    range.into_inner().into_inner()
}

#[test]
fn line_fill_from_uses_colors_in_turn() {
    let g = grid();
    let mut line = g.into_line((0, 0), (3, 0)).unwrap();
    line.fill_from(&[RED, WHITE]);
    let strip = line_into_strip(line);
    assert_eq!(strip.buffer()[0], RED);
    assert_eq!(strip.buffer()[1], WHITE);
    assert_eq!(strip.buffer()[2], BLACK);
}

#[test]
fn line_skips_points_off_the_strip() {
    let tall = leds().project(SwitchbackGrid::new(8).constrain_height(20).unwrap());
    let mut line = tall.into_line((0, 9), (0, 12)).unwrap();
    line.fill_from(&[RED, WHITE, RED, WHITE]);
    let strip = line.range(Bound::Unbounded, Bound::Unbounded).ok().unwrap().into_inner().into_inner();
    assert_eq!(strip.buffer()[79], RED);
    assert_eq!(strip.buffer()[80], WHITE);
    assert!(strip.buffer()[..79].iter().all(|c| *c == BLACK));
}

#[test]
fn into_line_checks_the_extent() {
    assert!(grid().into_line((8, 0), (0, 0)).is_some());
    assert!(grid().into_line((9, 0), (0, 0)).is_none());
    assert!(grid().into_line((0, 0), (0, 10)).is_none());
}

#[test]
fn linear_range_of_a_line_and_its_shifts() {
    let g = grid();
    let line = g.into_line((0, 0), (7, 0)).unwrap();
    let part = line.range(Bound::Included(2), Bound::Excluded(4)).ok().unwrap();
    assert_eq!(part.space().len(), 2);
    let mut moved = part.shift_add(3).unwrap();
    moved.fill(RED);
    let strip = moved.into_inner().into_inner();
    assert_eq!(strip.buffer()[4], BLACK);
    assert_eq!(strip.buffer()[5], RED);
    assert_eq!(strip.buffer()[6], RED);
    assert_eq!(strip.buffer()[7], BLACK);
    let g = grid();
    let line = g.into_line((0, 0), (7, 0)).unwrap();
    let part = line.range(Bound::Included(2), Bound::Excluded(4)).ok().unwrap();
    assert!(part.shift_add(5).is_none());
    let g = grid();
    let line = g.into_line((0, 0), (7, 0)).unwrap();
    let part = line.range(Bound::Included(2), Bound::Excluded(4)).ok().unwrap();
    let back = part.shift(-2isize).unwrap();
    let mut back = back.shift_add(0).unwrap();
    back.fill(WHITE);
    let strip = back.into_inner().into_inner();
    assert_eq!(strip.buffer()[0], WHITE);
    assert_eq!(strip.buffer()[1], WHITE);
    assert_eq!(strip.buffer()[2], BLACK);
}

#[test]
fn switchback_cell_inverts_the_layout() {
    assert_eq!(switchback_cell(0, 8), (0, 0));
    assert_eq!(switchback_cell(7, 8), (7, 0));
    assert_eq!(switchback_cell(8, 8), (7, 1));
    assert_eq!(switchback_cell(15, 8), (0, 1));
    assert_eq!(switchback_cell(16, 8), (0, 2));
    let g = SwitchbackGrid::new(8);
    for idx in 0..88usize {
        let (x, y) = switchback_cell(idx, 8);
        assert_eq!(g.transform((x as u8, y as u8)), Some(idx));
    }
}
