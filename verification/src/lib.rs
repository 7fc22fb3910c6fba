use vstd::prelude::*;

pub mod byte_copy;
pub mod line;
pub mod programs;
pub mod projection;
pub mod rand;
pub mod sealed;
pub mod receiver;
pub mod util;
pub mod valentine;

use crate::projection::{
    cut_stretch, fill_linear, fill_linear_with, lemma_paint_run, linear_end_fits, linear_locs,
    linear_start_fits, paint, resolve_linear_end, resolve_linear_start, Bound, Linear,
    LinearSpatialExt, Space, Spatial, StripSpace,
};

verus! {

/// The number of LEDs of the strip that `leds` hands out.
pub const LED_COUNT: usize = 88;

/// A run of LEDs: a window of `space.len()` LEDs starting at `offset` in a buffer of colours.
pub struct LedStrip {
    leds: Vec<[u8; 3]>,
    offset: usize,
    space: StripSpace,
}

impl LedStrip {
    /// The whole buffer that this strip is a window of.
    pub closed spec fn spec_buffer(&self) -> Seq<[u8; 3]> {
        self.leds@
    }

    pub closed spec fn spec_offset(&self) -> usize {
        self.offset
    }

    pub closed spec fn spec_len(&self) -> usize {
        self.space.0
    }

    pub open spec fn window_fits(&self) -> bool {
        self.spec_offset() + self.spec_len() <= self.spec_buffer().len()
    }

    /// The colours of the LEDs of this strip, in order.
    pub open spec fn spec_window(&self) -> Seq<[u8; 3]> {
        self.spec_buffer().subrange(
            self.spec_offset() as int,
            self.spec_offset() + self.spec_len(),
        )
    }

    pub fn len(&self) -> (r: usize)
        ensures
            r == self.spec_len(),
    {
        self.space.0
    }

    pub fn get_mut(&mut self, idx: usize) -> (r: Option<&mut [u8; 3]>)
        requires
            old(self).window_fits(),
        ensures
            final(self).spec_offset() == old(self).spec_offset(),
            final(self).spec_len() == old(self).spec_len(),
            idx < old(self).spec_len() ==> r is Some && *r.unwrap() == old(self).spec_buffer()[old(
                self,
            ).spec_offset() + idx] && final(self).spec_buffer() == old(self).spec_buffer().update(
                old(self).spec_offset() + idx,
                *final(r.unwrap()),
            ),
            idx >= old(self).spec_len() ==> r is None && final(self).spec_buffer() == old(
                self,
            ).spec_buffer(),
    {
        let _ = self.leds.len();
        if idx < self.space.0 {
            Some(&mut self.leds[self.offset + idx])
        } else {
            None
        }
    }
}

impl Spatial for LedStrip {
    type Space = StripSpace;

    open spec fn wf(&self) -> bool {
        self.window_fits()
    }

    /// A strip's space is the run of indices of its own length.
    open spec fn spec_space(&self) -> StripSpace {
        StripSpace(self.spec_len())
    }

    open spec fn spec_leds(&self) -> Seq<[u8; 3]> {
        self.spec_buffer()
    }

    open spec fn spec_strip_window(&self) -> (usize, usize) {
        (self.spec_offset(), self.spec_len())
    }

    open spec fn spec_locate(&self, index: usize) -> Option<usize> {
        if index < self.spec_len() {
            Some((self.spec_offset() + index) as usize)
        } else {
            None
        }
    }

    fn space(&self) -> (r: &StripSpace) {
        &self.space
    }

    fn get(&self, index: usize) -> (r: Option<&[u8; 3]>) {
        let _ = self.leds.len();
        if index < self.space.0 {
            Some(&self.leds[self.offset + index])
        } else {
            None
        }
    }

    fn get_mut(&mut self, index: usize) -> (r: Option<&mut [u8; 3]>) {
        let _ = self.leds.len();
        if index < self.space.0 {
            Some(&mut self.leds[self.offset + index])
        } else {
            None
        }
    }
}


impl LedStrip {
    /// The LEDs of the stretch `[start, end)` of this strip, as a strip of their own; hands
    /// `self` back when the stretch does not fit.
    pub fn range(self, start: Bound<usize>, end: Bound<usize>) -> (r: Result<LedStrip, LedStrip>)
        requires
            self.window_fits(),
            linear_start_fits(start),
            linear_end_fits(end),
        ensures
            ({
                let s = resolve_linear_start(start, 0);
                let e = resolve_linear_end(end, self.spec_len());
                &&& r is Ok <==> s <= e <= self.spec_len()
                &&& r matches Ok(strip) ==> strip.spec_buffer() == self.spec_buffer()
                    && strip.spec_offset() == self.spec_offset() + s && strip.spec_len() == e - s
                &&& r matches Err(back) ==> back == self
            }),
    {
        let _ = self.leds.len();
        match cut_stretch(self.space.0, start, end, 0) {
            Some((s, n)) => Ok(
                LedStrip { leds: self.leds, offset: self.offset + s, space: StripSpace(n) },
            ),
            None => Err(self),
        }
    }
}

impl LedStrip {
    /// A strip of `len` LEDs, all dark, on a buffer of its own.
    pub fn dark(len: usize) -> (r: LedStrip)
        ensures
            r.window_fits(),
            r.spec_offset() == 0,
            r.spec_len() == len,
            r.spec_buffer() == Seq::new(len as nat, |i: int| [0u8, 0u8, 0u8]),
    {
        let mut buffer: Vec<[u8; 3]> = Vec::new();
        let mut i: usize = 0;
        while i < len
            invariant
                i <= len,
                buffer@ == Seq::new(i as nat, |j: int| [0u8, 0u8, 0u8]),
            decreases len - i,
        {
            buffer.push([0u8, 0u8, 0u8]);
            i += 1;
        }
        LedStrip { leds: buffer, offset: 0, space: StripSpace(len) }
    }
}

/// A strip of `LED_COUNT` LEDs, all dark.
pub fn leds() -> (r: LedStrip)
    ensures
        r.window_fits(),
        r.spec_offset() == 0,
        r.spec_len() == LED_COUNT,
        r.spec_buffer() == Seq::new(LED_COUNT as nat, |i: int| [0u8, 0u8, 0u8]),
{
    LedStrip::dark(LED_COUNT)
}


impl LinearSpatialExt for LedStrip {
    open spec fn spec_fill_from(&self, colors: Seq<[u8; 3]>) -> Seq<[u8; 3]> {
        paint(
            self.spec_leds(),
            linear_locs(*self, vstd::math::min(colors.len() as int, self.spec_len() as int) as nat),
            colors,
        )
    }

    open spec fn spec_fill(&self, color: [u8; 3]) -> Seq<[u8; 3]> {
        paint(
            self.spec_leds(),
            linear_locs(*self, self.spec_len() as nat),
            Seq::new(self.spec_len() as nat, |j: int| color),
        )
    }

    fn fill_from(&mut self, colors: &[[u8; 3]]) {
        fill_linear(self, colors)
    }

    fn fill(&mut self, color: [u8; 3]) {
        fill_linear_with(self, color)
    }
}


/// `s` with its first `mid` items moved to its end.
pub open spec fn rotated_left(s: Seq<[u8; 3]>, mid: int) -> Seq<[u8; 3]> {
    s.subrange(mid, s.len() as int) + s.subrange(0, mid)
}

/// `s` with its last `k` items moved to its front.
pub open spec fn rotated_right(s: Seq<[u8; 3]>, k: int) -> Seq<[u8; 3]> {
    rotated_left(s, s.len() - k)
}

impl LedStrip {
    /// The whole buffer that this strip is a window of.
    pub fn buffer(&self) -> (r: &[[u8; 3]])
        ensures
            r@ == self.spec_buffer(),
    {
        self.leds.as_slice()
    }

    /// Replaces the LEDs of the window, leaving the rest of the buffer as it was.
    fn write_window(&mut self, content: &Vec<[u8; 3]>)
        requires
            old(self).window_fits(),
            content@.len() == old(self).spec_len(),
        ensures
            final(self).window_fits(),
            final(self).spec_offset() == old(self).spec_offset(),
            final(self).spec_len() == old(self).spec_len(),
            final(self).spec_buffer() == old(self).spec_buffer().subrange(0, old(self).spec_offset() as int)
                + content@ + old(self).spec_buffer().subrange(
                old(self).spec_offset() + old(self).spec_len(),
                old(self).spec_buffer().len() as int,
            ),
    {
        let n = self.space.0;
        let total = self.leds.len();
        let mut i: usize = 0;
        let ghost before = self.leds@;
        while i < n
            invariant
                total == before.len(),
                i <= n,
                n == self.space.0,
                n == content@.len(),
                self.offset == old(self).offset,
                self.space == old(self).space,
                self.offset + n <= before.len(),
                before == old(self).leds@,
                self.leds@.len() == before.len(),
                forall|j: int| 0 <= j < self.offset ==> self.leds@[j] == before[j],
                forall|j: int| self.offset + n <= j < before.len() ==> self.leds@[j] == before[j],
                forall|j: int| 0 <= j < i ==> self.leds@[self.offset + j] == content@[j],
            decreases n - i,
        {
            self.leds.set(self.offset + i, content[i]);
            i += 1;
        }
        assert(self.leds@ == before.subrange(0, self.offset as int) + content@ + before.subrange(
            self.offset + n,
            before.len() as int,
        ));
    }

    /// The LEDs of the window, in order.
    fn window(&self) -> (r: Vec<[u8; 3]>)
        requires
            self.window_fits(),
        ensures
            r@ == self.spec_window(),
    {
        let n = self.space.0;
        let total = self.leds.len();
        let mut out: Vec<[u8; 3]> = Vec::new();
        let mut i: usize = 0;
        while i < n
            invariant
                total == self.leds@.len(),
                i <= n,
                n == self.space.0,
                self.offset + n <= self.leds@.len(),
                out@ == self.spec_window().take(i as int),
            decreases n - i,
        {
            out.push(self.leds[self.offset + i]);
            assert(out@ == self.spec_window().take(i + 1));
            i += 1;
        }
        assert(out@ == self.spec_window());
        out
    }

    /// Rotates the LEDs of this strip so that the first `by` of them move to its end.
    pub fn rotate_left(&mut self, by: usize)
        requires
            old(self).window_fits(),
            by <= old(self).spec_len(),
        ensures
            final(self).window_fits(),
            final(self).spec_offset() == old(self).spec_offset(),
            final(self).spec_len() == old(self).spec_len(),
            final(self).spec_window() == rotated_left(old(self).spec_window(), by as int),
            final(self).spec_buffer().subrange(0, old(self).spec_offset() as int) == old(
                self,
            ).spec_buffer().subrange(0, old(self).spec_offset() as int),
            final(self).spec_buffer().subrange(
                old(self).spec_offset() + old(self).spec_len(),
                old(self).spec_buffer().len() as int,
            ) == old(self).spec_buffer().subrange(
                old(self).spec_offset() + old(self).spec_len(),
                old(self).spec_buffer().len() as int,
            ),
    {
        let current = self.window();
        let n = current.len();
        let mut moved: Vec<[u8; 3]> = Vec::new();
        let mut i: usize = by;
        while i < n
            invariant
                by <= i <= n,
                n == current@.len(),
                moved@ == current@.subrange(by as int, i as int),
            decreases n - i,
        {
            moved.push(current[i]);
            i += 1;
        }
        let mut i: usize = 0;
        while i < by
            invariant
                i <= by <= n,
                n == current@.len(),
                moved@ == current@.subrange(by as int, n as int) + current@.subrange(0, i as int),
            decreases by - i,
        {
            moved.push(current[i]);
            assert(current@.subrange(0, i + 1) == current@.subrange(0, i as int).push(current@[i as int]));
            i += 1;
        }
        let ghost old_buffer = self.spec_buffer();
        self.write_window(&moved);
        assert(self.spec_window() == moved@);
        assert(self.spec_buffer().subrange(0, self.offset as int) == old_buffer.subrange(0, self.offset as int));
        assert(self.spec_buffer().subrange(self.offset + n, old_buffer.len() as int) == old_buffer.subrange(self.offset + n, old_buffer.len() as int));
    }

    /// Rotates the LEDs of this strip so that the last `by` of them move to its front.
    pub fn rotate_right(&mut self, by: usize)
        requires
            old(self).window_fits(),
            by <= old(self).spec_len(),
        ensures
            final(self).window_fits(),
            final(self).spec_offset() == old(self).spec_offset(),
            final(self).spec_len() == old(self).spec_len(),
            final(self).spec_window() == rotated_right(old(self).spec_window(), by as int),
            final(self).spec_buffer().subrange(0, old(self).spec_offset() as int) == old(
                self,
            ).spec_buffer().subrange(0, old(self).spec_offset() as int),
            final(self).spec_buffer().subrange(
                old(self).spec_offset() + old(self).spec_len(),
                old(self).spec_buffer().len() as int,
            ) == old(self).spec_buffer().subrange(
                old(self).spec_offset() + old(self).spec_len(),
                old(self).spec_buffer().len() as int,
            ),
    {
        let n = self.space.0;
        self.rotate_left(n - by);
    }
}

/// Rotating a strip right by as many LEDs as it was rotated left restores it.
pub proof fn law_rotate_left_then_right(s: Seq<[u8; 3]>, k: int)
    requires
        0 <= k <= s.len(),
    ensures
        rotated_right(rotated_left(s, k), k) == s,
{
    let r = rotated_left(s, k);
    assert(r.len() == s.len());
    assert(rotated_right(r, k) =~= s);
}


/// `s` scrolled left one LED at a time, `j` times.
pub open spec fn scrolled_left(s: Seq<[u8; 3]>, j: nat) -> Seq<[u8; 3]>
    decreases j,
{
    if j == 0 {
        s
    } else {
        rotated_left(scrolled_left(s, (j - 1) as nat), 1)
    }
}

/// `s` scrolled right one LED at a time, `j` times.
pub open spec fn scrolled_right(s: Seq<[u8; 3]>, j: nat) -> Seq<[u8; 3]>
    decreases j,
{
    if j == 0 {
        s
    } else {
        rotated_right(scrolled_right(s, (j - 1) as nat), 1)
    }
}

/// Scrolling left `j` times moves each colour `j` places towards the front, wrapping round.
proof fn lemma_scrolled_left(s: Seq<[u8; 3]>, j: nat)
    requires
        s.len() > 0,
    ensures
        scrolled_left(s, j).len() == s.len(),
        forall|i: int| 0 <= i < s.len() ==> #[trigger] scrolled_left(s, j)[i] == s[(i + j) % (s.len() as int)],
    decreases j,
{
    let n = s.len() as int;
    if j == 0 {
        assert forall|i: int| 0 <= i < n implies #[trigger] scrolled_left(s, j)[i] == s[(i + j) % n] by {
            vstd::arithmetic::div_mod::lemma_small_mod(i as nat, n as nat);
        }
    } else {
        lemma_scrolled_left(s, (j - 1) as nat);
        let t = scrolled_left(s, (j - 1) as nat);
        assert forall|i: int| 0 <= i < n implies #[trigger] scrolled_left(s, j)[i] == s[(i + j) % n] by {
            if i < n - 1 {
                assert(scrolled_left(s, j)[i] == t[i + 1]);
            } else {
                assert(scrolled_left(s, j)[i] == t[0]);
                vstd::arithmetic::div_mod::lemma_mod_add_multiples_vanish(j - 1, n);
                vstd::arithmetic::div_mod::lemma_small_mod(0, n as nat);
            }
        }
    }
}

/// Scrolling right `j` times, no more than the length, moves each colour `j` places towards the
/// back, wrapping round.
proof fn lemma_scrolled_right(s: Seq<[u8; 3]>, j: nat)
    requires
        s.len() > 0,
        j <= s.len(),
    ensures
        scrolled_right(s, j).len() == s.len(),
        forall|i: int| 0 <= i < s.len() ==> #[trigger] scrolled_right(s, j)[i] == s[(i + s.len() - j) % (s.len() as int)],
    decreases j,
{
    let n = s.len() as int;
    if j == 0 {
        assert forall|i: int| 0 <= i < n implies #[trigger] scrolled_right(s, j)[i] == s[(i + n - j) % n] by {
            vstd::arithmetic::div_mod::lemma_mod_add_multiples_vanish(i, n);
            vstd::arithmetic::div_mod::lemma_small_mod(i as nat, n as nat);
        }
    } else {
        lemma_scrolled_right(s, (j - 1) as nat);
        let t = scrolled_right(s, (j - 1) as nat);
        assert forall|i: int| 0 <= i < n implies #[trigger] scrolled_right(s, j)[i] == s[(i + n - j) % n] by {
            if i == 0 {
                assert(scrolled_right(s, j)[i] == t[n - 1]);
                vstd::arithmetic::div_mod::lemma_mod_add_multiples_vanish(n - j, n);
            } else {
                assert(scrolled_right(s, j)[i] == t[i - 1]);
            }
        }
    }
}

/// The tides program scrolls a strip of `n` LEDs left one LED per frame for `n` frames, then right
/// for `n` frames: after `j` frames of the left phase LED `i` shows what LED `(i + j) mod n`
/// showed, after `j` frames of the right phase it shows what LED `(i + n - j) mod n` showed, and
/// at the end of each phase the strip is as it started.
pub proof fn law_tides_phases(s: Seq<[u8; 3]>, j: nat)
    requires
        s.len() > 0,
        j <= s.len(),
    ensures
        forall|i: int| 0 <= i < s.len() ==> #[trigger] scrolled_left(s, j)[i] == s[(i + j) % (s.len() as int)],
        forall|i: int|
            0 <= i < s.len() ==> #[trigger] scrolled_right(scrolled_left(s, s.len()), j)[i] == s[(i + s.len() - j)
                % (s.len() as int)],
        scrolled_left(s, s.len()) == s,
        scrolled_right(s, s.len()) == s,
{
    let n = s.len() as int;
    lemma_scrolled_left(s, j);
    lemma_scrolled_left(s, s.len());
    assert forall|i: int| 0 <= i < n implies #[trigger] scrolled_left(s, s.len())[i] == s[i] by {
        vstd::arithmetic::div_mod::lemma_mod_add_multiples_vanish(i, n);
        vstd::arithmetic::div_mod::lemma_small_mod(i as nat, n as nat);
    }
    assert(scrolled_left(s, s.len()) =~= s);
    lemma_scrolled_right(s, j);
    lemma_scrolled_right(s, s.len());
    assert forall|i: int| 0 <= i < n implies #[trigger] scrolled_right(s, s.len())[i] == s[i] by {
        vstd::arithmetic::div_mod::lemma_small_mod(i as nat, n as nat);
    }
    assert(scrolled_right(s, s.len()) =~= s);
}

impl LedStrip {
    /// A buffer never holds more LEDs than `usize` counts.
    pub proof fn lemma_buffer_fits(&self)
        ensures
            self.spec_buffer().len() <= usize::MAX,
    {
        broadcast use vstd::std_specs::vec::axiom_spec_len;

        assert(self.leds@.len() == self.leds.len());
    }
}

/// `fill_from` writes the colours, in order, to the first LEDs of the strip, as many as there
/// are of both, and leaves the rest of the buffer as it was.
pub proof fn law_strip_fill_from(strip: LedStrip, colors: Seq<[u8; 3]>)
    requires
        strip.window_fits(),
    ensures
        ({
            let n = vstd::math::min(colors.len() as int, strip.spec_len() as int);
            let b = strip.spec_buffer();
            let o = strip.spec_offset() as int;
            strip.spec_fill_from(colors) == b.subrange(0, o) + colors.take(n) + b.subrange(
                o + n,
                b.len() as int,
            )
        }),
{
    let n = vstd::math::min(colors.len() as int, strip.spec_len() as int) as nat;
    strip.lemma_buffer_fits();
    assert(linear_locs(strip, n) == Seq::new(
        n,
        |j: int| Some((strip.spec_offset() + j) as usize),
    ));
    lemma_paint_run(strip.spec_buffer(), strip.spec_offset() as int, n, colors);
}

/// `fill` gives every LED of the strip the colour and leaves the rest of the buffer as it was.
pub proof fn law_strip_fill(strip: LedStrip, color: [u8; 3])
    requires
        strip.window_fits(),
    ensures
        ({
            let n = strip.spec_len() as int;
            let b = strip.spec_buffer();
            let o = strip.spec_offset() as int;
            strip.spec_fill(color) == b.subrange(0, o) + Seq::new(n as nat, |j: int| color)
                + b.subrange(o + n, b.len() as int)
        }),
{
    let n = strip.spec_len() as nat;
    let colors = Seq::new(n, |j: int| color);
    strip.lemma_buffer_fits();
    assert(linear_locs(strip, n) == Seq::new(
        n,
        |j: int| Some((strip.spec_offset() + j) as usize),
    ));
    lemma_paint_run(strip.spec_buffer(), strip.spec_offset() as int, n, colors);
    assert(colors.take(n as int) == colors);
}

} // verus!
