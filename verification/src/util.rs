use vstd::prelude::*;

verus! {

/// The frame clock: the tick flag flips and the count of elapsed ticks grows once per frame.
#[derive(Clone, Copy)]
pub struct Clock {
    current_tick: bool,
    ticks_elapsed: u64,
}

impl Clock {
    pub closed spec fn spec_current_tick(&self) -> bool {
        self.current_tick
    }

    pub closed spec fn spec_ticks_elapsed(&self) -> u64 {
        self.ticks_elapsed
    }

    /// The clock before the first frame.
    pub fn new() -> (r: Clock)
        ensures
            r.spec_current_tick() == false,
            r.spec_ticks_elapsed() == 0,
    {
        Clock { current_tick: false, ticks_elapsed: 0 }
    }

    /// Advances the clock by one frame.
    pub fn tick(&mut self)
        requires
            old(self).spec_ticks_elapsed() < u64::MAX,
        ensures
            final(self).spec_current_tick() == !old(self).spec_current_tick(),
            final(self).spec_ticks_elapsed() == old(self).spec_ticks_elapsed() + 1,
    {
        self.current_tick = !self.current_tick;
        self.ticks_elapsed = self.ticks_elapsed + 1;
    }

    pub fn current_tick(&self) -> (r: bool)
        ensures
            r == self.spec_current_tick(),
    {
        self.current_tick
    }

    pub fn ticks_elapsed(&self) -> (r: u64)
        ensures
            r == self.spec_ticks_elapsed(),
    {
        self.ticks_elapsed
    }
}

/// Whether a wait is over.
#[derive(Clone, Copy, PartialEq, Eq, Structural)]
pub enum Poll {
    Ready,
    Pending,
}

/// A wait that is polled against the frame clock.
pub trait Wait: Sized {
    /// What a poll at `clock` answers.
    spec fn spec_poll(&self, clock: Clock) -> Poll;

    /// The wait after a poll at `clock`.
    spec fn spec_after_poll(&self, clock: Clock) -> Self;

    fn poll(&mut self, clock: &Clock) -> (r: Poll)
        ensures
            r == old(self).spec_poll(*clock),
            *final(self) == old(self).spec_after_poll(*clock),
    ;
}

/// Waits until a number of ticks have elapsed.
#[derive(Clone, Copy)]
pub struct Delay {
    end: u64,
}

impl Delay {
    /// The tick count at which the wait is over.
    pub closed spec fn spec_end(&self) -> u64 {
        self.end
    }

    fn new(clock: &Clock, duration: u64) -> (r: Delay)
        requires
            clock.spec_ticks_elapsed() + duration <= u64::MAX,
        ensures
            r.spec_end() == clock.spec_ticks_elapsed() + duration,
    {
        Delay { end: clock.ticks_elapsed + duration }
    }
}

impl Wait for Delay {
    open spec fn spec_poll(&self, clock: Clock) -> Poll {
        if self.spec_end() > clock.spec_ticks_elapsed() {
            Poll::Pending
        } else {
            Poll::Ready
        }
    }

    open spec fn spec_after_poll(&self, clock: Clock) -> Delay {
        *self
    }

    fn poll(&mut self, clock: &Clock) -> (r: Poll) {
        if self.end > clock.ticks_elapsed {
            Poll::Pending
        } else {
            Poll::Ready
        }
    }
}

/// Waits for the next tick of the clock.
#[derive(Clone, Copy)]
pub struct NextTick {
    initial: bool,
    complete: bool,
}

impl NextTick {
    /// The tick flag when the wait began.
    pub closed spec fn spec_initial(&self) -> bool {
        self.initial
    }

    /// Whether the wait has been seen to be over.
    pub closed spec fn spec_complete(&self) -> bool {
        self.complete
    }

    fn new(clock: &Clock) -> (r: NextTick)
        ensures
            r.spec_initial() == clock.spec_current_tick(),
            !r.spec_complete(),
    {
        NextTick { initial: clock.current_tick, complete: false }
    }
}

impl Wait for NextTick {
    open spec fn spec_poll(&self, clock: Clock) -> Poll {
        if self.spec_complete() || self.spec_initial() != clock.spec_current_tick() {
            Poll::Ready
        } else {
            Poll::Pending
        }
    }

    open spec fn spec_after_poll(&self, clock: Clock) -> NextTick {
        NextTick::spec_with(self.spec_initial(), self.spec_poll(clock) == Poll::Ready)
    }

    fn poll(&mut self, clock: &Clock) -> (r: Poll) {
        if self.complete {
            Poll::Ready
        } else {
            if self.initial == clock.current_tick {
                Poll::Pending
            } else {
                self.complete = true;
                Poll::Ready
            }
        }
    }
}

impl NextTick {
    pub closed spec fn spec_with(initial: bool, complete: bool) -> NextTick {
        NextTick { initial, complete }
    }

    pub broadcast proof fn lemma_spec_with(initial: bool, complete: bool)
        ensures
            #![trigger NextTick::spec_with(initial, complete)]
            NextTick::spec_with(initial, complete).spec_initial() == initial,
            NextTick::spec_with(initial, complete).spec_complete() == complete,
    {
    }
}

/// Waits for both of two waits.
pub struct Select<T, U>(T, U);

impl<T, U> Select<T, U> {
    pub closed spec fn spec_parts(&self) -> (T, U) {
        (self.0, self.1)
    }
}

impl<T: Wait, U: Wait> Wait for Select<T, U> {
    /// Over once both parts are; both are polled every time.
    open spec fn spec_poll(&self, clock: Clock) -> Poll {
        if self.spec_parts().0.spec_poll(clock) == Poll::Ready && self.spec_parts().1.spec_poll(
            clock,
        ) == Poll::Ready {
            Poll::Ready
        } else {
            Poll::Pending
        }
    }

    open spec fn spec_after_poll(&self, clock: Clock) -> Select<T, U> {
        Select::spec_of(
            self.spec_parts().0.spec_after_poll(clock),
            self.spec_parts().1.spec_after_poll(clock),
        )
    }

    fn poll(&mut self, clock: &Clock) -> (r: Poll) {
        let mut pending = false;
        if let Poll::Pending = self.0.poll(clock) {
            pending = true;
        }
        if let Poll::Pending = self.1.poll(clock) {
            pending = true;
        }
        if pending {
            Poll::Pending
        } else {
            Poll::Ready
        }
    }
}

impl<T, U> Select<T, U> {
    pub closed spec fn spec_of(a: T, b: U) -> Select<T, U> {
        Select(a, b)
    }

    pub broadcast proof fn lemma_spec_of(a: T, b: U)
        ensures
            #[trigger] Select::spec_of(a, b).spec_parts() == (a, b),
    {
    }
}

/// A wait for the next tick of `clock`.
pub fn next_tick(clock: &Clock) -> (r: NextTick)
    ensures
        r.spec_initial() == clock.spec_current_tick(),
        !r.spec_complete(),
{
    NextTick::new(clock)
}

/// A wait for `ticks` more ticks of `clock`.
pub fn delay(clock: &Clock, ticks: u64) -> (r: Delay)
    requires
        clock.spec_ticks_elapsed() + ticks <= u64::MAX,
    ensures
        r.spec_end() == clock.spec_ticks_elapsed() + ticks,
{
    Delay::new(clock, ticks)
}

/// A wait for both `a` and `b`.
pub fn select<T: Wait, U: Wait>(a: T, b: U) -> (r: Select<T, U>)
    ensures
        r.spec_parts() == (a, b),
{
    Select(a, b)
}

/// A delay of `d` ticks is over exactly when `d` ticks have passed since it began.
pub proof fn law_delay_ready(start: Clock, d: u64, now: Clock, wait: Delay)
    requires
        wait.spec_end() == start.spec_ticks_elapsed() + d,
        now.spec_ticks_elapsed() >= start.spec_ticks_elapsed(),
    ensures
        (wait.spec_poll(now) == Poll::Ready) <==> now.spec_ticks_elapsed() - start.spec_ticks_elapsed() >= d,
{
}

/// A wait for the next tick is not over on the tick it began, is over once the clock has
/// ticked once, and stays over when polled again.
pub proof fn law_next_tick(start: Clock, wait: NextTick, later: Clock)
    requires
        wait.spec_initial() == start.spec_current_tick(),
        !wait.spec_complete(),
        later.spec_current_tick() == !start.spec_current_tick(),
    ensures
        wait.spec_poll(start) == Poll::Pending,
        wait.spec_poll(later) == Poll::Ready,
        wait.spec_after_poll(later).spec_poll(start) == Poll::Ready,
{
}

} // verus!
