use lights::rand::{rand, rand_coin, Seed};
use lights::util::{delay, next_tick, select, Clock, Poll, Wait};

#[test]
fn clock_ticks() {
    let mut c = Clock::new();
    assert!(!c.current_tick());
    assert_eq!(c.ticks_elapsed(), 0);
    c.tick();
    assert!(c.current_tick());
    assert_eq!(c.ticks_elapsed(), 1);
    c.tick();
    assert!(!c.current_tick());
    assert_eq!(c.ticks_elapsed(), 2);
}

#[test]
fn delay_waits_its_ticks() {
    let mut c = Clock::new();
    let mut d = delay(&c, 2);
    assert!(d.poll(&c) == Poll::Pending);
    c.tick();
    assert!(d.poll(&c) == Poll::Pending);
    c.tick();
    assert!(d.poll(&c) == Poll::Ready);
    c.tick();
    assert!(d.poll(&c) == Poll::Ready);
    let mut z = delay(&c, 0);
    assert!(z.poll(&c) == Poll::Ready);
}

#[test]
fn next_tick_waits_one_tick_and_stays_ready() {
    let mut c = Clock::new();
    let mut n = next_tick(&c);
    assert!(n.poll(&c) == Poll::Pending);
    c.tick();
    assert!(n.poll(&c) == Poll::Ready);
    c.tick();
    assert!(n.poll(&c) == Poll::Ready);
}

#[test]
fn select_waits_for_both() {
    let mut c = Clock::new();
    let mut s = select(next_tick(&c), delay(&c, 3));
    assert!(s.poll(&c) == Poll::Pending);
    c.tick();
    assert!(s.poll(&c) == Poll::Pending);
    c.tick();
    c.tick();
    assert!(s.poll(&c) == Poll::Ready);
}

#[test]
fn generator_follows_the_recurrence() {
    let mut seed = Seed::new();
    let mut expected: u64 = 123456789;
    for _ in 0..5 {
        expected = ((1103515245u64 * expected + 12345) % (1u64 << 32)) % (u32::MAX as u64);
        assert_eq!(rand(&mut seed) as u64, expected);
    }
    let mut seed = Seed::new();
    assert_eq!(rand(&mut seed), 231794730);
}

#[test]
fn coin_compares_the_next_value_with_half_the_range() {
    let mut a = Seed::new();
    let mut b = Seed::new();
    for _ in 0..20 {
        let value = rand(&mut a);
        assert_eq!(rand_coin(&mut b), value > u32::MAX / 2);
    }
}
