use lights::leds;
use lights::line::bresenham;
use lights::programs::{
    cycle_window, lines_frame, nonlinear_fade, oops_frame, receive_step, Bounce, GridWalk, Tides, BLUE, GREEN, RED,
    WHITE,
};
use lights::projection::{Cartesian2dExt, SpatialExt, SwitchbackGrid};
use lights::projection::LinearSpatialExt;
use lights::receiver::Mailbox;

#[test]
fn mailbox_accepts_one_message_at_a_time() {
    let mut m = Mailbox::new(4);
    assert!(m.poll_next().is_none());
    assert!(m.handle_input(&[1, 2]));
    assert!(!m.handle_input(&[3]));
    assert_eq!(m.poll_next(), Some((vec![1, 2, 0, 0], 2)));
    assert!(m.poll_next().is_none());
    assert!(!m.handle_input(&[1, 2, 3, 4, 5]));
    assert!(m.handle_input(&[9]));
    assert_eq!(m.poll_next(), Some((vec![9, 2, 0, 0], 1)));
}

#[test]
fn mailbox_exact_wants_a_full_message() {
    let mut m = Mailbox::new(2);
    assert!(m.handle_input(&[1]));
    assert_eq!(m.poll_exact(), None);
    assert!(m.handle_input(&[5, 6]));
    assert_eq!(m.poll_exact(), Some(vec![5, 6]));
    assert_eq!(m.poll_exact(), None);
}

#[test]
fn mailbox_extracts_values() {
    let mut m = Mailbox::new(4);
    assert!(m.handle_input(&[1, 2, 3, 4]));
    assert_eq!(m.poll_extract::<([u8; 3], u8)>(), Some(([1, 2, 3], 4)));
    assert!(m.handle_input(&[1, 2]));
    assert_eq!(m.poll_extract::<([u8; 3], u8)>(), None);
    assert_eq!(m.poll_extract::<u8>(), None);
}

#[test]
fn receive_sets_the_named_led() {
    let mut m = Mailbox::new(4);
    let mut strip = leds();
    assert!(m.handle_input(&[9, 8, 7, 3]));
    receive_step(&mut m, &mut strip);
    assert_eq!(strip.buffer()[3], [9, 8, 7]);
    assert!(m.handle_input(&[9, 8, 7, 200]));
    receive_step(&mut m, &mut strip);
    assert!(strip.buffer().iter().filter(|c| **c != [0, 0, 0]).count() == 1);
    receive_step(&mut m, &mut strip);
}

#[test]
fn oops_scrolls_its_stripes() {
    let mut strip = leds();
    let mut frame: u8 = 0;
    oops_frame(&mut strip, &mut frame);
    assert_eq!(frame, 1);
    assert_eq!(strip.buffer()[0], [100, 0, 1]);
    assert_eq!(strip.buffer()[1], [100, 254, 3]);
    assert_eq!(strip.buffer()[87], [100, 82, 175]);
    let mut frame: u8 = 255;
    oops_frame(&mut strip, &mut frame);
    assert_eq!(frame, 0);
    assert_eq!(strip.buffer()[0], [100, 255, 0]);
}

#[test]
fn tides_scroll_back_and_forth() {
    let mut strip = leds();
    strip.fill_from(&[[1, 1, 1]]);
    let mut t = Tides::new();
    for _ in 0..88 {
        t.frame(&mut strip);
    }
    assert_eq!(strip.buffer()[0], [1, 1, 1]);
    t.frame(&mut strip);
    assert_eq!(strip.buffer()[1], [1, 1, 1]);
    for _ in 0..87 {
        t.frame(&mut strip);
    }
    assert_eq!(strip.buffer()[0], [1, 1, 1]);
}

#[test]
fn grid_walk_moves_a_white_square() {
    let mut walk = GridWalk::new();
    let mut grid = leds().project(SwitchbackGrid::new(8).constrain_height(9).unwrap());
    grid = walk.frame(grid);
    let strip = grid.into_inner();
    let b = strip.buffer();
    // Cells (0, 0), (1, 0), (0, 1), (1, 1) on the switchback layout.
    assert_eq!(b[0], WHITE);
    assert_eq!(b[1], WHITE);
    assert_eq!(b[15], WHITE);
    assert_eq!(b[14], WHITE);
    assert_eq!(b.iter().filter(|c| **c == WHITE).count(), 4);
    let mut grid = strip.project(SwitchbackGrid::new(8).constrain_height(9).unwrap());
    grid = walk.frame(grid);
    let strip = grid.into_inner();
    let b = strip.buffer();
    // The square moved one row down: cells (0, 1), (1, 1), (0, 2), (1, 2).
    assert_eq!(b[0], [0, 0, 0]);
    assert_eq!(b[15], WHITE);
    assert_eq!(b[16], WHITE);
    assert_eq!(b.iter().filter(|c| **c == WHITE).count(), 4);
}

#[test]
fn bounce_climbs_and_falls() {
    let mut b = Bounce::new();
    let mut frames = Vec::new();
    let mut phases = Vec::new();
    for _ in 0..8 {
        b.step(3, 2);
        frames.push(b.frame());
        phases.push(b.phase());
    }
    assert_eq!(frames, vec![1, 2, 3, 2, 1, 0, 1, 2]);
    assert_eq!(phases, vec![1, 0, 1, 0, 1, 0, 1, 0]);
}

#[test]
fn lines_frame_draws_the_line_on_a_dark_strip() {
    let mut strip = leds();
    strip.fill([9, 9, 9]);
    let colours: Vec<[u8; 3]> = (0..7u8).map(|i| [i + 1, 0, 0]).collect();
    let strip = lines_frame(strip, &colours);
    let b = strip.buffer();
    // The line from (1, 1) to (5, 7) has seven points, one per row.
    let points = bresenham((1, 1), (5, 7));
    assert_eq!(points.len(), 7);
    for (j, p) in points.iter().enumerate() {
        let (x, y) = (p.0 as usize, p.1 as usize);
        let idx = if y % 2 == 0 { y * 8 + x } else { (y + 1) * 8 - (1 + x) };
        assert_eq!(b[idx], [j as u8 + 1, 0, 0]);
    }
    assert_eq!(b.iter().filter(|c| **c == [0, 0, 0]).count(), 88 - 7);
}

#[test]
fn nonlinear_fades_red_then_green() {
    let expected = [
        (RED, false), (BLUE, false), (RED, false), (BLUE, false), (RED, false), (BLUE, false),
        (GREEN, true), (BLUE, true), (GREEN, true), (BLUE, true), (GREEN, true), (BLUE, true),
    ];
    for step in 0..36usize {
        assert_eq!(nonlinear_fade(step), expected[step % 12], "step {}", step);
    }
}

#[test]
fn cycle_window_repeats_the_pattern() {
    let a = [1, 0, 0];
    let b = [2, 0, 0];
    let c = [3, 0, 0];
    assert_eq!(cycle_window(&[a, b, c], 4, 5), vec![b, c, a, b, c]);
    assert_eq!(cycle_window(&[a, b, c], 0, 2), vec![a, b]);
    assert_eq!(cycle_window(&[], 3, 4), Vec::<[u8; 3]>::new());
}
