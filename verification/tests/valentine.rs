use lights::valentine::{letter_at, marks_of, valentine_leds, Letter, Valentine, PINK};
use lights::LedStrip;

const BLACK: [u8; 3] = [0, 0, 0];

/// The strip index of cell `(x, y)` of the valentine grid: rows of eight, mirrored, thirteen high.
fn index_of(x: usize, y: usize) -> usize {
    let row = 12 - y;
    if row % 2 == 0 {
        row * 8 + x
    } else {
        (row + 1) * 8 - (1 + x)
    }
}

#[test]
fn dark_strip_has_the_asked_length() {
    let strip = LedStrip::dark(104);
    assert_eq!(strip.len(), 104);
    assert!(strip.buffer().iter().all(|c| *c == BLACK));
}

#[test]
fn valentine_spells_its_text() {
    let text = "HAPPYVALENTINESDAYLOVEIZZY";
    let letters = [
        Letter::H, Letter::A, Letter::P, Letter::Y, Letter::V, Letter::L, Letter::E,
        Letter::N, Letter::T, Letter::I, Letter::S, Letter::D, Letter::O, Letter::Z,
    ];
    let names = "HAPYVLENTISDOZ";
    for (pos, ch) in text.chars().enumerate() {
        let at = letter_at(pos);
        let k = names.find(ch).unwrap();
        assert!(at == letters[k]);
    }
}

#[test]
fn letter_strokes_follow_the_glyphs() {
    assert_eq!(marks_of(Letter::I), vec![((2, 0), (2, 5))]);
    assert_eq!(
        marks_of(Letter::H),
        vec![((0, 2), (4, 2)), ((0, 0), (0, 5)), ((4, 0), (4, 5))]
    );
    assert_eq!(marks_of(Letter::T), vec![((0, 0), (4, 0)), ((2, 1), (2, 5))]);
}

#[test]
fn valentine_draws_heart_and_letters() {
    let mut leds = valentine_leds(LedStrip::dark(104));
    let mut v = Valentine::new();

    let (drawn, pause) = v.frame(leds);
    leds = drawn;
    assert_eq!(pause, 10);
    {
        let strip = leds.into_inner();
        let b = strip.buffer();
        // The H: its left stroke, its bar and its right stroke.
        for y in 0..6 {
            assert_eq!(b[index_of(0, y)], PINK);
            assert_eq!(b[index_of(4, y)], PINK);
        }
        for x in 0..5 {
            assert_eq!(b[index_of(x, 2)], PINK);
        }
        assert_eq!(b[index_of(1, 0)], BLACK);
        assert_eq!(b[index_of(2, 5)], BLACK);
        // The heart, one column in.
        assert_eq!(b[index_of(2, 7)], PINK);
        assert_eq!(b[index_of(4, 12)], PINK);
        assert_eq!(b[index_of(7, 9)], PINK);
        assert_eq!(b[index_of(1, 7)], BLACK);
        assert_eq!(b.iter().filter(|c| **c == PINK).count(), 6 + 6 + 3 + 14);
        leds = valentine_leds(strip);
    }

    let (cleared, pause) = v.frame(leds);
    leds = cleared;
    assert_eq!(pause, 10);
    {
        let strip = leds.into_inner();
        let b = strip.buffer();
        assert_eq!(b[index_of(0, 0)], BLACK);
        assert_eq!(b[index_of(2, 2)], BLACK);
        assert_eq!(b[index_of(2, 7)], PINK);
        assert_eq!(b.iter().filter(|c| **c == PINK).count(), 14);
        leds = valentine_leds(strip);
    }

    // The A comes next, and the heart is not drawn again.
    let (drawn, _) = v.frame(leds);
    let strip = drawn.into_inner();
    let b = strip.buffer();
    assert_eq!(b[index_of(0, 0)], BLACK);
    assert_eq!(b[index_of(1, 0)], PINK);
    assert_eq!(b[index_of(0, 1)], PINK);
    assert_eq!(b.iter().filter(|c| **c == PINK).count(), 3 + 5 + 5 + 3 + 14);
}

#[test]
fn valentine_pauses_after_each_phrase() {
    let mut leds = valentine_leds(LedStrip::dark(104));
    let mut v = Valentine::new();
    let mut pauses = Vec::new();
    for _ in 0..104 {
        let (next, pause) = v.frame(leds);
        leds = next;
        pauses.push(pause);
    }
    for (step, pause) in pauses.iter().enumerate() {
        let s = step % 52;
        let long = s == 35 || s == 51;
        assert_eq!(*pause, if long { 20 } else { 10 }, "step {}", step);
    }
    // After whole rounds only the heart is lit.
    let strip = leds.into_inner();
    assert_eq!(strip.buffer().iter().filter(|c| **c == PINK).count(), 14);
}
