use vstd::prelude::*;

use crate::line::{bresenham, law_bresenham_endpoints, line_steps, spec_bresenham};

verus! {

/// A coordinate system whose points map, where they exist, to points of a target space.
pub trait Space {
    type Coordinate;
    type Target;

    /// Where `coord` lands in the target space, if anywhere.
    spec fn spec_transform(&self, coord: Self::Coordinate) -> Option<Self::Target>;

    fn transform(&self, coord: Self::Coordinate) -> (r: Option<Self::Target>)
        ensures
            r == self.spec_transform(coord),
    ;
}

/// A one-dimensional space of a known length.
pub trait Linear: Space<Coordinate = usize> {
    spec fn spec_len(&self) -> usize;

    fn len(&self) -> (r: usize)
        ensures
            r == self.spec_len(),
    ;
}

/// The space of a strip of LEDs: index `i` is LED `i`.
#[derive(Clone, Copy)]
pub struct StripSpace(pub usize);

impl Space for StripSpace {
    type Coordinate = usize;
    type Target = usize;

    open spec fn spec_transform(&self, coord: usize) -> Option<usize> {
        Some(coord)
    }

    fn transform(&self, coord: usize) -> (r: Option<usize>) {
        Some(coord)
    }
}

impl Linear for StripSpace {
    open spec fn spec_len(&self) -> usize {
        self.0
    }

    fn len(&self) -> (r: usize) {
        self.0
    }
}

} // verus!

verus! {

/// A two-dimensional space, whose extent along each axis may be unknown.
pub trait Cartesian2d: Space<Coordinate = (u8, u8)> {
    spec fn spec_width(&self) -> Option<u8>;

    spec fn spec_height(&self) -> Option<u8>;

    fn width(&self) -> (r: Option<u8>)
        ensures
            r == self.spec_width(),
    ;

    fn height(&self) -> (r: Option<u8>)
        ensures
            r == self.spec_height(),
    ;
}

/// Mirrors a space along the x axis.
#[derive(Copy)]
pub struct FlipX<T: Cartesian2d> {
    space: T,
    width: u8,
    height: Option<u8>,
}

impl<T: Cartesian2d + Copy> Clone for FlipX<T> {
    fn clone(&self) -> (r: Self)
        ensures
            r == *self,
    {
        *self
    }
}

impl<T: Cartesian2d> FlipX<T> {
    pub closed spec fn spec_inner(&self) -> T {
        self.space
    }

    pub closed spec fn spec_flip_width(&self) -> u8 {
        self.width
    }

    pub closed spec fn spec_other_extent(&self) -> Option<u8> {
        self.height
    }

    /// Mirrors `space`; a space of unknown width cannot be mirrored.
    pub fn new(space: T) -> (r: Option<Self>)
        ensures
            r is Some <==> space.spec_width() is Some,
            r matches Some(f) ==> f.spec_inner() == space && f.spec_width() == space.spec_width()
                && f.spec_height() == space.spec_height(),
    {
        let width = match space.width() {
            Some(w) => w,
            None => return None,
        };
        let height = space.height();
        Some(FlipX { width, height, space })
    }
}

impl<T: Cartesian2d> Space for FlipX<T> {
    type Coordinate = (u8, u8);
    type Target = T::Target;

    open spec fn spec_transform(&self, coord: (u8, u8)) -> Option<T::Target> {
        if coord.0 < self.spec_flip_width() {
            self.spec_inner().spec_transform(((self.spec_flip_width() - coord.0 - 1) as u8, coord.1))
        } else {
            None
        }
    }

    fn transform(&self, coord: (u8, u8)) -> (r: Option<T::Target>) {
        if coord.0 < self.width {
            self.space.transform((self.width - coord.0 - 1, coord.1))
        } else {
            None
        }
    }
}

impl<T: Cartesian2d> Cartesian2d for FlipX<T> {
    open spec fn spec_width(&self) -> Option<u8> {
        Some(self.spec_flip_width())
    }

    open spec fn spec_height(&self) -> Option<u8> {
        self.spec_other_extent()
    }

    fn width(&self) -> (r: Option<u8>) {
        Some(self.width)
    }

    fn height(&self) -> (r: Option<u8>) {
        self.height
    }
}


/// Mirrors a space along the y axis.
#[derive(Copy)]
pub struct FlipY<T: Cartesian2d> {
    space: T,
    height: u8,
    width: Option<u8>,
}

impl<T: Cartesian2d + Copy> Clone for FlipY<T> {
    fn clone(&self) -> (r: Self)
        ensures
            r == *self,
    {
        *self
    }
}

impl<T: Cartesian2d> FlipY<T> {
    pub closed spec fn spec_inner(&self) -> T {
        self.space
    }

    pub closed spec fn spec_flip_height(&self) -> u8 {
        self.height
    }

    pub closed spec fn spec_other_extent(&self) -> Option<u8> {
        self.width
    }

    /// Mirrors `space`; a space of unknown height cannot be mirrored.
    pub fn new(space: T) -> (r: Option<Self>)
        ensures
            r is Some <==> space.spec_height() is Some,
            r matches Some(f) ==> f.spec_inner() == space && f.spec_width() == space.spec_width()
                && f.spec_height() == space.spec_height(),
    {
        let width = space.width();
        let height = match space.height() {
            Some(h) => h,
            None => return None,
        };
        Some(FlipY { width, height, space })
    }
}

impl<T: Cartesian2d> Space for FlipY<T> {
    type Coordinate = (u8, u8);
    type Target = T::Target;

    open spec fn spec_transform(&self, coord: (u8, u8)) -> Option<T::Target> {
        if coord.1 < self.spec_flip_height() {
            self.spec_inner().spec_transform((coord.0, (self.spec_flip_height() - coord.1 - 1) as u8))
        } else {
            None
        }
    }

    fn transform(&self, coord: (u8, u8)) -> (r: Option<T::Target>) {
        if coord.1 < self.height {
            self.space.transform((coord.0, self.height - coord.1 - 1))
        } else {
            None
        }
    }
}

impl<T: Cartesian2d> Cartesian2d for FlipY<T> {
    open spec fn spec_width(&self) -> Option<u8> {
        self.spec_other_extent()
    }

    open spec fn spec_height(&self) -> Option<u8> {
        Some(self.spec_flip_height())
    }

    fn width(&self) -> (r: Option<u8>) {
        self.width
    }

    fn height(&self) -> (r: Option<u8>) {
        Some(self.height)
    }
}

/// Wraps a space around both axes, so that it repeats without end.
#[derive(Copy)]
pub struct Torus<T: Cartesian2d> {
    space: T,
    width: u8,
    height: u8,
}

impl<T: Cartesian2d + Copy> Clone for Torus<T> {
    fn clone(&self) -> (r: Self)
        ensures
            r == *self,
    {
        *self
    }
}

impl<T: Cartesian2d> Torus<T> {
    pub closed spec fn spec_inner(&self) -> T {
        self.space
    }

    pub closed spec fn spec_period(&self) -> (u8, u8) {
        (self.width, self.height)
    }
}

impl<T: Cartesian2d> Space for Torus<T> {
    type Coordinate = (u8, u8);
    type Target = T::Target;

    /// A torus with an empty period maps nothing.
    open spec fn spec_transform(&self, coord: (u8, u8)) -> Option<T::Target> {
        let (w, h) = self.spec_period();
        if w == 0 || h == 0 {
            None
        } else {
            self.spec_inner().spec_transform(((coord.0 % w) as u8, (coord.1 % h) as u8))
        }
    }

    fn transform(&self, coord: (u8, u8)) -> (r: Option<T::Target>) {
        if self.width == 0 || self.height == 0 {
            None
        } else {
            self.space.transform((coord.0 % self.width, coord.1 % self.height))
        }
    }
}

impl<T: Cartesian2d> Cartesian2d for Torus<T> {
    open spec fn spec_width(&self) -> Option<u8> {
        None
    }

    open spec fn spec_height(&self) -> Option<u8> {
        None
    }

    fn width(&self) -> (r: Option<u8>) {
        None
    }

    fn height(&self) -> (r: Option<u8>) {
        None
    }
}

/// A grid laid out on a strip in rows of `stride` LEDs, every other row running backwards.
#[derive(Clone, Copy)]
pub struct SwitchbackGrid {
    stride: u8,
}

/// The strip index of cell `(x, y)` of a switchback grid of `stride` columns.
pub open spec fn switchback_index(stride: int, x: int, y: int) -> int {
    if y % 2 == 0 {
        y * stride + x
    } else {
        (y + 1) * stride - (1 + x)
    }
}

impl SwitchbackGrid {
    pub closed spec fn spec_stride(&self) -> u8 {
        self.stride
    }

    pub fn new(stride: u8) -> (r: Self)
        ensures
            r.spec_stride() == stride,
    {
        SwitchbackGrid { stride }
    }
}

impl Space for SwitchbackGrid {
    type Coordinate = (u8, u8);
    type Target = usize;

    open spec fn spec_transform(&self, coord: (u8, u8)) -> Option<usize> {
        if coord.0 < self.spec_stride() {
            Some(switchback_index(self.spec_stride() as int, coord.0 as int, coord.1 as int) as usize)
        } else {
            None
        }
    }

    fn transform(&self, coord: (u8, u8)) -> (r: Option<usize>) {
        let x = coord.0 as usize;
        let y = coord.1 as usize;
        let stride = self.stride as usize;
        if x >= stride {
            return None;
        }
        assert(y * stride <= 255 * 255) by (nonlinear_arith)
            requires
                y <= 255,
                stride <= 255,
        ;
        assert((y + 1) * stride == y * stride + stride) by (nonlinear_arith);
        if y % 2 == 0 {
            Some(y * stride + x)
        } else {
            Some((y + 1) * stride - (1 + x))
        }
    }
}

impl Cartesian2d for SwitchbackGrid {
    open spec fn spec_width(&self) -> Option<u8> {
        Some(self.spec_stride())
    }

    open spec fn spec_height(&self) -> Option<u8> {
        None
    }

    fn width(&self) -> (r: Option<u8>) {
        Some(self.stride)
    }

    fn height(&self) -> (r: Option<u8>) {
        None
    }
}

/// Gives a space a height, no greater than the one it had.
#[derive(Copy)]
pub struct ConstrainHeight<T: Cartesian2d> {
    inner: T,
    height: u8,
}

impl<T: Cartesian2d + Copy> Clone for ConstrainHeight<T> {
    fn clone(&self) -> (r: Self)
        ensures
            r == *self,
    {
        *self
    }
}

impl<T: Cartesian2d> ConstrainHeight<T> {
    pub closed spec fn spec_inner(&self) -> T {
        self.inner
    }

    pub closed spec fn spec_limit(&self) -> u8 {
        self.height
    }

    /// Refuses a height greater than the known height of `inner`.
    pub fn new(inner: T, height: u8) -> (r: Option<Self>)
        ensures
            r is Some <==> !(inner.spec_height() matches Some(h) && h < height),
            r matches Some(c) ==> c.spec_inner() == inner && c.spec_limit() == height,
    {
        match inner.height() {
            Some(known_height) => {
                if known_height < height {
                    return None;
                }
            },
            None => {},
        }
        Some(ConstrainHeight { inner, height })
    }
}

impl<T: Cartesian2d> Space for ConstrainHeight<T> {
    type Coordinate = (u8, u8);
    type Target = T::Target;

    open spec fn spec_transform(&self, coord: (u8, u8)) -> Option<T::Target> {
        self.spec_inner().spec_transform(coord)
    }

    fn transform(&self, coord: (u8, u8)) -> (r: Option<T::Target>) {
        self.inner.transform(coord)
    }
}

impl<T: Cartesian2d> Cartesian2d for ConstrainHeight<T> {
    open spec fn spec_width(&self) -> Option<u8> {
        self.spec_inner().spec_width()
    }

    open spec fn spec_height(&self) -> Option<u8> {
        Some(self.spec_limit())
    }

    fn width(&self) -> (r: Option<u8>) {
        self.inner.width()
    }

    fn height(&self) -> (r: Option<u8>) {
        Some(self.height)
    }
}

/// Builders of two-dimensional spaces out of others.
pub trait Cartesian2dExt: Cartesian2d + Sized {
    fn flip_x(self) -> (r: Option<FlipX<Self>>)
        ensures
            r is Some <==> self.spec_width() is Some,
            r matches Some(f) ==> f.spec_inner() == self && f.spec_width() == self.spec_width()
                && f.spec_height() == self.spec_height(),
    {
        FlipX::new(self)
    }

    fn flip_y(self) -> (r: Option<FlipY<Self>>)
        ensures
            r is Some <==> self.spec_height() is Some,
            r matches Some(f) ==> f.spec_inner() == self && f.spec_width() == self.spec_width()
                && f.spec_height() == self.spec_height(),
    {
        FlipY::new(self)
    }

    fn constrain_height(self, height: u8) -> (r: Option<ConstrainHeight<Self>>)
        ensures
            r is Some <==> !(self.spec_height() matches Some(h) && h < height),
            r matches Some(c) ==> c.spec_inner() == self && c.spec_limit() == height,
    {
        ConstrainHeight::new(self, height)
    }

    /// Wraps the space around both axes; it must have a known width and height.
    fn into_torus(self) -> (r: Option<Torus<Self>>)
        ensures
            r is Some <==> self.spec_width() is Some && self.spec_height() is Some,
            r matches Some(t) ==> t.spec_inner() == self && t.spec_period() == (
            self.spec_width().unwrap(),
            self.spec_height().unwrap(),
            ),
    {
        let height = match self.height() {
            Some(h) => h,
            None => return None,
        };
        let width = match self.width() {
            Some(w) => w,
            None => return None,
        };
        Some(Torus { height, width, space: self })
    }
}

impl<T: Cartesian2d> Cartesian2dExt for T {

}

/// A space carved out of a parent space, at an offset within it.
pub trait Subspace: Space {
    type Parent: Space;

    spec fn spec_parent(&self) -> Self::Parent;

    spec fn spec_offset(&self) -> <Self::Parent as Space>::Coordinate;

    fn parent(&self) -> (r: &Self::Parent)
        ensures
            *r == self.spec_parent(),
    ;

    fn offset(&self) -> (r: <Self::Parent as Space>::Coordinate)
        ensures
            r == self.spec_offset(),
    ;
}

/// A rectangle of a two-dimensional space, at an offset within it.
#[derive(Copy)]
pub struct CartesianSubspace<T: Cartesian2d> {
    space: T,
    offset: (u8, u8),
    size: (u8, u8),
}

impl<T: Cartesian2d + Copy> Clone for CartesianSubspace<T> {
    fn clone(&self) -> (r: Self)
        ensures
            r == *self,
    {
        *self
    }
}

impl<T: Cartesian2d> CartesianSubspace<T> {
    pub closed spec fn spec_size(&self) -> (u8, u8) {
        self.size
    }

    pub closed spec fn spec_within(&self) -> T {
        self.space
    }

    pub closed spec fn spec_shift(&self) -> (u8, u8) {
        self.offset
    }

    pub closed spec fn spec_new(space: T, offset: (u8, u8), size: (u8, u8)) -> Self {
        CartesianSubspace { space, offset, size }
    }

    pub broadcast proof fn lemma_spec_new(space: T, offset: (u8, u8), size: (u8, u8))
        ensures
            #![trigger Self::spec_new(space, offset, size)]
            Self::spec_new(space, offset, size).spec_within() == space,
            Self::spec_new(space, offset, size).spec_shift() == offset,
            Self::spec_new(space, offset, size).spec_size() == size,
    {
    }
}

impl<T: Cartesian2d> Subspace for CartesianSubspace<T> {
    type Parent = T;

    open spec fn spec_parent(&self) -> T {
        self.spec_within()
    }

    open spec fn spec_offset(&self) -> (u8, u8) {
        self.spec_shift()
    }

    fn parent(&self) -> (r: &T) {
        &self.space
    }

    fn offset(&self) -> (r: (u8, u8)) {
        self.offset
    }
}

impl<T: Cartesian2d> Space for CartesianSubspace<T> {
    type Coordinate = (u8, u8);
    type Target = T::Target;

    /// A coordinate whose shifted value leaves the axis type maps nothing.
    open spec fn spec_transform(&self, coord: (u8, u8)) -> Option<T::Target> {
        let x = coord.0 + self.spec_shift().0;
        let y = coord.1 + self.spec_shift().1;
        if x <= 255 && y <= 255 {
            self.spec_within().spec_transform((x as u8, y as u8))
        } else {
            None
        }
    }

    fn transform(&self, coord: (u8, u8)) -> (r: Option<T::Target>) {
        match (coord.0.checked_add(self.offset.0), coord.1.checked_add(self.offset.1)) {
            (Some(x), Some(y)) => self.space.transform((x, y)),
            _ => None,
        }
    }
}

impl<T: Cartesian2d> Cartesian2d for CartesianSubspace<T> {
    open spec fn spec_width(&self) -> Option<u8> {
        Some(self.spec_size().0)
    }

    open spec fn spec_height(&self) -> Option<u8> {
        Some(self.spec_size().1)
    }

    fn width(&self) -> (r: Option<u8>) {
        Some(self.size.0)
    }

    fn height(&self) -> (r: Option<u8>) {
        Some(self.size.1)
    }
}

/// A stretch of a one-dimensional space, at an offset within it.
#[derive(Copy)]
pub struct LinearSubspace<T: Linear> {
    space: T,
    offset: usize,
    length: usize,
}

impl<T: Linear + Copy> Clone for LinearSubspace<T> {
    fn clone(&self) -> (r: Self)
        ensures
            r == *self,
    {
        *self
    }
}

impl<T: Linear> LinearSubspace<T> {
    pub closed spec fn spec_within(&self) -> T {
        self.space
    }

    pub closed spec fn spec_length(&self) -> usize {
        self.length
    }

    pub closed spec fn spec_shift(&self) -> usize {
        self.offset
    }

    pub closed spec fn spec_new(space: T, offset: usize, length: usize) -> Self {
        LinearSubspace { space, offset, length }
    }

    pub broadcast proof fn lemma_spec_new(space: T, offset: usize, length: usize)
        ensures
            #![trigger Self::spec_new(space, offset, length)]
            Self::spec_new(space, offset, length).spec_within() == space,
            Self::spec_new(space, offset, length).spec_shift() == offset,
            Self::spec_new(space, offset, length).spec_length() == length,
    {
    }
}

impl<T: Linear> Subspace for LinearSubspace<T> {
    type Parent = T;

    open spec fn spec_parent(&self) -> T {
        self.spec_within()
    }

    open spec fn spec_offset(&self) -> usize {
        self.spec_shift()
    }

    fn parent(&self) -> (r: &T) {
        &self.space
    }

    fn offset(&self) -> (r: usize) {
        self.offset
    }
}

impl<T: Linear> Space for LinearSubspace<T> {
    type Coordinate = usize;
    type Target = T::Target;

    /// A coordinate whose shifted value leaves `usize` maps nothing.
    open spec fn spec_transform(&self, coord: usize) -> Option<T::Target> {
        if coord + self.spec_shift() <= usize::MAX {
            self.spec_within().spec_transform((coord + self.spec_shift()) as usize)
        } else {
            None
        }
    }

    fn transform(&self, coord: usize) -> (r: Option<T::Target>) {
        match coord.checked_add(self.offset) {
            Some(c) => self.space.transform(c),
            None => None,
        }
    }
}

impl<T: Linear> Linear for LinearSubspace<T> {
    open spec fn spec_len(&self) -> usize {
        self.spec_length()
    }

    fn len(&self) -> (r: usize) {
        self.length
    }
}

/// The direction of a shift.
#[derive(Clone, Copy, PartialEq, Eq, Structural)]
pub enum Sign {
    Positive,
    Negative,
}

/// Splits a signed amount into a magnitude and a direction; zero counts as negative.
pub trait ExtractSign {
    type Output;

    spec fn spec_magnitude(self) -> Self::Output;

    spec fn spec_is_positive(self) -> bool;

    fn extract_sign(self) -> (r: (Self::Output, Sign))
        ensures
            r.0 == self.spec_magnitude(),
            (r.1 == Sign::Positive) == self.spec_is_positive(),
    ;
}

} // verus!

verus! {

impl ExtractSign for i8 {
    type Output = u8;

    open spec fn spec_magnitude(self) -> u8 {
        (if self > 0 {
            self as int
        } else {
            -(self as int)
        }) as u8
    }

    open spec fn spec_is_positive(self) -> bool {
        self > 0
    }

    fn extract_sign(self) -> (r: (u8, Sign)) {
        if self > 0 {
            (self as u8, Sign::Positive)
        } else {
            ((-(self as i16)) as u8, Sign::Negative)
        }
    }
}

} // verus!

verus! {

impl ExtractSign for i16 {
    type Output = u16;

    open spec fn spec_magnitude(self) -> u16 {
        (if self > 0 {
            self as int
        } else {
            -(self as int)
        }) as u16
    }

    open spec fn spec_is_positive(self) -> bool {
        self > 0
    }

    fn extract_sign(self) -> (r: (u16, Sign)) {
        if self > 0 {
            (self as u16, Sign::Positive)
        } else {
            ((-(self as i32)) as u16, Sign::Negative)
        }
    }
}

} // verus!

verus! {

impl ExtractSign for i32 {
    type Output = u32;

    open spec fn spec_magnitude(self) -> u32 {
        (if self > 0 {
            self as int
        } else {
            -(self as int)
        }) as u32
    }

    open spec fn spec_is_positive(self) -> bool {
        self > 0
    }

    fn extract_sign(self) -> (r: (u32, Sign)) {
        if self > 0 {
            (self as u32, Sign::Positive)
        } else {
            ((-(self as i64)) as u32, Sign::Negative)
        }
    }
}

} // verus!

verus! {

impl ExtractSign for i64 {
    type Output = u64;

    open spec fn spec_magnitude(self) -> u64 {
        (if self > 0 {
            self as int
        } else {
            -(self as int)
        }) as u64
    }

    open spec fn spec_is_positive(self) -> bool {
        self > 0
    }

    fn extract_sign(self) -> (r: (u64, Sign)) {
        if self > 0 {
            (self as u64, Sign::Positive)
        } else {
            ((-(self as i128)) as u64, Sign::Negative)
        }
    }
}

} // verus!

verus! {

impl ExtractSign for isize {
    type Output = usize;

    open spec fn spec_magnitude(self) -> usize {
        (if self > 0 {
            self as int
        } else {
            -(self as int)
        }) as usize
    }

    open spec fn spec_is_positive(self) -> bool {
        self > 0
    }

    fn extract_sign(self) -> (r: (usize, Sign)) {
        if self > 0 {
            (self as usize, Sign::Positive)
        } else {
            ((-(self as i128)) as usize, Sign::Negative)
        }
    }
}

} // verus!

verus! {

/// One end of a range of coordinates.
#[derive(Copy)]
pub enum Bound<T> {
    Included(T),
    Excluded(T),
    Unbounded,
}

impl<T: Copy> Clone for Bound<T> {
    fn clone(&self) -> (r: Self)
        ensures
            r == *self,
    {
        *self
    }
}

/// LEDs laid out in a space: each coordinate addresses at most one LED of an underlying strip.
pub trait Spatial {
    type Space: Space;

    /// The internal consistency that every value built by this library has.
    spec fn wf(&self) -> bool;

    spec fn spec_space(&self) -> Self::Space;

    /// The colours of the whole underlying strip.
    spec fn spec_leds(&self) -> Seq<[u8; 3]>;

    /// The LED of the underlying strip that `index` addresses, if any.
    spec fn spec_locate(&self, index: <Self::Space as Space>::Coordinate) -> Option<usize>;

    /// Where the underlying strip begins in its buffer, and how many LEDs it has.
    spec fn spec_strip_window(&self) -> (usize, usize);

    fn space(&self) -> (r: &Self::Space)
        ensures
            *r == self.spec_space(),
    ;

    fn get(&self, index: <Self::Space as Space>::Coordinate) -> (r: Option<&[u8; 3]>)
        requires
            self.wf(),
        ensures
            match self.spec_locate(index) {
                Some(i) => i < self.spec_leds().len() && r is Some && *r.unwrap()
                    == self.spec_leds()[i as int],
                None => r is None,
            },
    ;

    fn get_mut(&mut self, index: <Self::Space as Space>::Coordinate) -> (r: Option<&mut [u8; 3]>)
        requires
            old(self).wf(),
        ensures
            final(self).wf(),
            final(self).spec_space() == old(self).spec_space(),
            final(self).spec_strip_window() == old(self).spec_strip_window(),
            forall|c| #[trigger] final(self).spec_locate(c) == old(self).spec_locate(c),
            match old(self).spec_locate(index) {
                Some(i) => i < old(self).spec_leds().len() && r is Some && *r.unwrap()
                    == old(self).spec_leds()[i as int] && final(self).spec_leds() == old(
                    self,
                ).spec_leds().update(i as int, *final(r.unwrap())),
                None => r is None && final(self).spec_leds() == old(self).spec_leds(),
            },
    ;
}

} // verus!

verus! {

/// LEDs seen through a space that maps onto the space of `data`.
pub struct Transformed<T, U> {
    data: T,
    space: U,
}

impl<T, U> Transformed<T, U> {
    pub closed spec fn spec_data(&self) -> T {
        self.data
    }

    pub closed spec fn spec_projection(&self) -> U {
        self.space
    }

    pub closed spec fn spec_new(data: T, space: U) -> Self {
        Transformed { data, space }
    }

    pub broadcast proof fn lemma_spec_new(data: T, space: U)
        ensures
            #![trigger Self::spec_new(data, space)]
            Self::spec_new(data, space).spec_data() == data,
            Self::spec_new(data, space).spec_projection() == space,
    {
    }

    pub fn into_inner(self) -> (r: T)
        ensures
            r == self.spec_data(),
    {
        self.data
    }
}

impl<T: Spatial, U: Cartesian2d + Space<Target = <T::Space as Space>::Coordinate>> Spatial for Transformed<T, U> {
    type Space = U;

    open spec fn wf(&self) -> bool {
        self.spec_data().wf()
    }

    open spec fn spec_space(&self) -> U {
        self.spec_projection()
    }

    open spec fn spec_leds(&self) -> Seq<[u8; 3]> {
        self.spec_data().spec_leds()
    }

    open spec fn spec_strip_window(&self) -> (usize, usize) {
        self.spec_data().spec_strip_window()
    }

    open spec fn spec_locate(&self, index: (u8, u8)) -> Option<usize> {
        match self.spec_projection().spec_transform(index) {
            Some(t) => self.spec_data().spec_locate(t),
            None => None,
        }
    }

    fn space(&self) -> (r: &U) {
        &self.space
    }

    fn get(&self, index: (u8, u8)) -> (r: Option<&[u8; 3]>) {
        match self.space.transform(index) {
            Some(t) => self.data.get(t),
            None => None,
        }
    }

    fn get_mut(&mut self, index: (u8, u8)) -> (r: Option<&mut [u8; 3]>) {
        match self.space.transform(index) {
            Some(t) => self.data.get_mut(t),
            None => None,
        }
    }
}

} // verus!

verus! {

/// A rectangle of LEDs cut out of a two-dimensional arrangement; `start` is where it begins.
pub struct CartesianRange<T, U: Cartesian2d> {
    data: T,
    space: U,
    start: (u8, u8),
}

impl<T, U: Cartesian2d> CartesianRange<T, U> {
    pub closed spec fn spec_data(&self) -> T {
        self.data
    }

    pub closed spec fn spec_projection(&self) -> U {
        self.space
    }

    pub closed spec fn spec_start(&self) -> (u8, u8) {
        self.start
    }

    pub closed spec fn spec_new(data: T, space: U, start: (u8, u8)) -> Self {
        CartesianRange { data, space, start }
    }

    pub broadcast proof fn lemma_spec_new(data: T, space: U, start: (u8, u8))
        ensures
            #![trigger Self::spec_new(data, space, start)]
            Self::spec_new(data, space, start).spec_data() == data,
            Self::spec_new(data, space, start).spec_projection() == space,
            Self::spec_new(data, space, start).spec_start() == start,
    {
    }

    pub fn into_inner(self) -> (r: T)
        ensures
            r == self.spec_data(),
    {
        self.data
    }
}

impl<T: Spatial, U: Cartesian2d + Space<Target = <T::Space as Space>::Coordinate>> Spatial for CartesianRange<T, U> {
    type Space = U;

    open spec fn wf(&self) -> bool {
        self.spec_data().wf()
    }

    open spec fn spec_space(&self) -> U {
        self.spec_projection()
    }

    open spec fn spec_leds(&self) -> Seq<[u8; 3]> {
        self.spec_data().spec_leds()
    }

    open spec fn spec_strip_window(&self) -> (usize, usize) {
        self.spec_data().spec_strip_window()
    }

    open spec fn spec_locate(&self, index: (u8, u8)) -> Option<usize> {
        match self.spec_projection().spec_transform(index) {
            Some(t) => self.spec_data().spec_locate(t),
            None => None,
        }
    }

    fn space(&self) -> (r: &U) {
        &self.space
    }

    fn get(&self, index: (u8, u8)) -> (r: Option<&[u8; 3]>) {
        match self.space.transform(index) {
            Some(t) => self.data.get(t),
            None => None,
        }
    }

    fn get_mut(&mut self, index: (u8, u8)) -> (r: Option<&mut [u8; 3]>) {
        match self.space.transform(index) {
            Some(t) => self.data.get_mut(t),
            None => None,
        }
    }
}

/// A stretch of LEDs cut out of a one-dimensional arrangement; `start` is where it begins.
pub struct LinearRange<T, U: Linear> {
    data: T,
    space: U,
    start: usize,
}

impl<T, U: Linear> LinearRange<T, U> {
    pub closed spec fn spec_data(&self) -> T {
        self.data
    }

    pub closed spec fn spec_projection(&self) -> U {
        self.space
    }

    pub closed spec fn spec_start(&self) -> usize {
        self.start
    }

    pub closed spec fn spec_new(data: T, space: U, start: usize) -> Self {
        LinearRange { data, space, start }
    }

    pub broadcast proof fn lemma_spec_new(data: T, space: U, start: usize)
        ensures
            #![trigger Self::spec_new(data, space, start)]
            Self::spec_new(data, space, start).spec_data() == data,
            Self::spec_new(data, space, start).spec_projection() == space,
            Self::spec_new(data, space, start).spec_start() == start,
    {
    }

    pub fn into_inner(self) -> (r: T)
        ensures
            r == self.spec_data(),
    {
        self.data
    }
}

impl<T: Spatial, U: Linear + Space<Target = <T::Space as Space>::Coordinate>> Spatial for LinearRange<T, U> {
    type Space = U;

    open spec fn wf(&self) -> bool {
        self.spec_data().wf()
    }

    open spec fn spec_space(&self) -> U {
        self.spec_projection()
    }

    open spec fn spec_leds(&self) -> Seq<[u8; 3]> {
        self.spec_data().spec_leds()
    }

    open spec fn spec_strip_window(&self) -> (usize, usize) {
        self.spec_data().spec_strip_window()
    }

    open spec fn spec_locate(&self, index: usize) -> Option<usize> {
        match self.spec_projection().spec_transform(index) {
            Some(t) => self.spec_data().spec_locate(t),
            None => None,
        }
    }

    fn space(&self) -> (r: &U) {
        &self.space
    }

    fn get(&self, index: usize) -> (r: Option<&[u8; 3]>) {
        match self.space.transform(index) {
            Some(t) => self.data.get(t),
            None => None,
        }
    }

    fn get_mut(&mut self, index: usize) -> (r: Option<&mut [u8; 3]>) {
        match self.space.transform(index) {
            Some(t) => self.data.get_mut(t),
            None => None,
        }
    }
}

/// Seeing LEDs through another space.
pub trait SpatialExt: Spatial + Sized {
    fn project<U: Space<Target = <Self::Space as Space>::Coordinate>>(self, space: U) -> (r: Transformed<Self, U>)
        ensures
            r.spec_data() == self && r.spec_projection() == space,
    {
        Transformed { data: self, space }
    }
}

impl<T: Spatial> SpatialExt for T {

}

} // verus!

verus! {

/// Whether the first coordinate after a start bound fits the axis type.
pub open spec fn start_bound_fits(bound: Bound<(u8, u8)>) -> bool {
    bound matches Bound::Excluded(p) ==> p.0 < 255 && p.1 < 255
}

/// Whether the coordinate just past an end bound fits the axis type.
pub open spec fn end_bound_fits(bound: Bound<(u8, u8)>) -> bool {
    bound matches Bound::Included(p) ==> p.0 < 255 && p.1 < 255
}

/// The first coordinate of a range that starts at `bound`; `unbounded` when there is none.
pub open spec fn resolve_start(bound: Bound<(u8, u8)>, unbounded: (u8, u8)) -> (u8, u8) {
    match bound {
        Bound::Included(p) => p,
        Bound::Excluded(p) => ((p.0 + 1) as u8, (p.1 + 1) as u8),
        Bound::Unbounded => unbounded,
    }
}

/// The coordinate just past a range that ends at `bound`, in a space of the given extent;
/// an unbounded end needs a known extent.
pub open spec fn resolve_end(bound: Bound<(u8, u8)>, width: Option<u8>, height: Option<u8>) -> Option<
    (u8, u8),
> {
    match bound {
        Bound::Included(p) => Some(((p.0 + 1) as u8, (p.1 + 1) as u8)),
        Bound::Excluded(p) => Some(p),
        Bound::Unbounded => match (width, height) {
            (Some(w), Some(h)) => Some((w, h)),
            _ => None,
        },
    }
}

/// Whether `[start, end)` is a rectangle inside a space of the given extent.
pub open spec fn rectangle_fits(
    start: (u8, u8),
    end: Option<(u8, u8)>,
    width: Option<u8>,
    height: Option<u8>,
) -> bool {
    &&& end is Some
    &&& start.0 <= end.unwrap().0
    &&& start.1 <= end.unwrap().1
    &&& (width matches Some(w) ==> end.unwrap().0 <= w)
    &&& (height matches Some(h) ==> end.unwrap().1 <= h)
}

/// Resolves a start bound.
fn start_of(bound: Bound<(u8, u8)>, unbounded: (u8, u8)) -> (r: (u8, u8))
    requires
        start_bound_fits(bound),
    ensures
        r == resolve_start(bound, unbounded),
{
    match bound {
        Bound::Included(p) => p,
        Bound::Excluded(p) => (p.0 + 1, p.1 + 1),
        Bound::Unbounded => unbounded,
    }
}

/// Cuts the rectangle `[start, end)` out of `space`: the space of a range, and its first coordinate.
fn cut_rectangle<U: Cartesian2d>(space: &U, start: Bound<(u8, u8)>, end: Bound<(u8, u8)>, unbounded: (u8, u8)) -> (r: Option<((u8, u8), (u8, u8))>)
    requires
        start_bound_fits(start),
        end_bound_fits(end),
    ensures
        ({
            let s = resolve_start(start, unbounded);
            let e = resolve_end(end, space.spec_width(), space.spec_height());
            &&& r is Some <==> rectangle_fits(s, e, space.spec_width(), space.spec_height())
            &&& r matches Some((rs, size)) ==> rs == s && size == ((e.unwrap().0 - s.0) as u8, (e.unwrap().1 - s.1) as u8)
        }),
{
    let s = start_of(start, unbounded);
    let e = match end {
        Bound::Included(p) => (p.0 + 1, p.1 + 1),
        Bound::Excluded(p) => p,
        Bound::Unbounded => {
            let w = match space.width() {
                Some(w) => w,
                None => return None,
            };
            let h = match space.height() {
                Some(h) => h,
                None => return None,
            };
            (w, h)
        },
    };
    if e.0 < s.0 || e.1 < s.1 {
        return None;
    }
    match space.width() {
        Some(width) => {
            if e.0 > width {
                return None;
            }
        },
        None => {},
    }
    match space.height() {
        Some(height) => {
            if e.1 > height {
                return None;
            }
        },
        None => {},
    }
    Some((s, (e.0 - s.0, e.1 - s.1)))
}

impl<T: Spatial, U: Cartesian2d + Space<Target = <T::Space as Space>::Coordinate>> Transformed<T, U> {
    /// The LEDs of the rectangle `[start, end)`, as a range of their own; hands `self` back
    /// when the rectangle does not fit in the space.
    pub fn range(self, start: Bound<(u8, u8)>, end: Bound<(u8, u8)>) -> (r: Result<
        CartesianRange<T, CartesianSubspace<U>>,
        Self,
    >)
        requires
            start_bound_fits(start),
            end_bound_fits(end),
        ensures
            ({
                let w = self.spec_projection().spec_width();
                let h = self.spec_projection().spec_height();
                let s = resolve_start(start, (0, 0));
                let e = resolve_end(end, w, h);
                &&& r is Ok <==> rectangle_fits(s, e, w, h)
                &&& r matches Ok(range) ==> ({
                    let rw = range.spec_projection().spec_width().unwrap();
                    let rh = range.spec_projection().spec_height().unwrap();
                    &&& (w matches Some(wv) ==> s.0 + rw <= wv)
                    &&& (h matches Some(hv) ==> s.1 + rh <= hv)
                })
                &&& r matches Ok(range) ==> range == CartesianRange::spec_new(
                    self.spec_data(),
                    CartesianSubspace::spec_new(
                        self.spec_projection(),
                        s,
                        ((e.unwrap().0 - s.0) as u8, (e.unwrap().1 - s.1) as u8),
                    ),
                    s,
                )
                &&& r matches Err(back) ==> back == self
            }),
    {
        match cut_rectangle(&self.space, start, end, (0, 0)) {
            Some((s, size)) => Ok(
                CartesianRange {
                    start: s,
                    data: self.data,
                    space: CartesianSubspace { space: self.space, offset: s, size },
                },
            ),
            None => Err(self),
        }
    }
}

impl<T: Spatial, U: Cartesian2d + Space<Target = <T::Space as Space>::Coordinate>> CartesianRange<T, U> {
    /// Whether a range cut out of this one, between these bounds, has a start that fits the axis type.
    pub open spec fn nested_start_fits(&self, start: Bound<(u8, u8)>, end: Bound<(u8, u8)>) -> bool {
        let w = self.spec_projection().spec_width();
        let h = self.spec_projection().spec_height();
        let s = resolve_start(start, self.spec_start());
        let e = resolve_end(end, w, h);
        rectangle_fits(s, e, w, h) ==> self.spec_start().0 + s.0 <= 255 && self.spec_start().1 + s.1
            <= 255
    }

    /// The LEDs of the rectangle `[start, end)` of this range, as a range of their own; an
    /// unbounded start stands for this range's own start. Hands `self` back when the rectangle
    /// does not fit.
    pub fn range(self, start: Bound<(u8, u8)>, end: Bound<(u8, u8)>) -> (r: Result<
        CartesianRange<T, CartesianSubspace<U>>,
        Self,
    >)
        requires
            start_bound_fits(start),
            end_bound_fits(end),
            self.nested_start_fits(start, end),
        ensures
            ({
                let w = self.spec_projection().spec_width();
                let h = self.spec_projection().spec_height();
                let s = resolve_start(start, self.spec_start());
                let e = resolve_end(end, w, h);
                &&& r is Ok <==> rectangle_fits(s, e, w, h)
                &&& r matches Ok(range) ==> ({
                    let rw = range.spec_projection().spec_width().unwrap();
                    let rh = range.spec_projection().spec_height().unwrap();
                    &&& (w matches Some(wv) ==> s.0 + rw <= wv)
                    &&& (h matches Some(hv) ==> s.1 + rh <= hv)
                })
                &&& r matches Ok(range) ==> range == CartesianRange::spec_new(
                    self.spec_data(),
                    CartesianSubspace::spec_new(
                        self.spec_projection(),
                        s,
                        ((e.unwrap().0 - s.0) as u8, (e.unwrap().1 - s.1) as u8),
                    ),
                    ((self.spec_start().0 + s.0) as u8, (self.spec_start().1 + s.1) as u8),
                )
                &&& r matches Err(back) ==> back == self
            }),
    {
        match cut_rectangle(&self.space, start, end, self.start) {
            Some((s, size)) => Ok(
                CartesianRange {
                    start: (self.start.0 + s.0, self.start.1 + s.1),
                    data: self.data,
                    space: CartesianSubspace { space: self.space, offset: s, size },
                },
            ),
            None => Err(self),
        }
    }
}

} // verus!

verus! {

/// Whether the first index after a start bound fits `usize`.
pub open spec fn linear_start_fits(bound: Bound<usize>) -> bool {
    bound matches Bound::Excluded(p) ==> p < usize::MAX
}

/// Whether the index just past an end bound fits `usize`.
pub open spec fn linear_end_fits(bound: Bound<usize>) -> bool {
    bound matches Bound::Included(p) ==> p < usize::MAX
}

/// The first index of a stretch that starts at `bound`; `unbounded` when there is none.
pub open spec fn resolve_linear_start(bound: Bound<usize>, unbounded: usize) -> usize {
    match bound {
        Bound::Included(p) => p,
        Bound::Excluded(p) => (p + 1) as usize,
        Bound::Unbounded => unbounded,
    }
}

/// The index just past a stretch that ends at `bound`, in a space of length `len`.
pub open spec fn resolve_linear_end(bound: Bound<usize>, len: usize) -> usize {
    match bound {
        Bound::Included(p) => (p + 1) as usize,
        Bound::Excluded(p) => p,
        Bound::Unbounded => len,
    }
}

/// Cuts the stretch `[start, end)` out of a space of length `len`: its first index and length.
pub(crate) fn cut_stretch(len: usize, start: Bound<usize>, end: Bound<usize>, unbounded: usize) -> (r: Option<(usize, usize)>)
    requires
        linear_start_fits(start),
        linear_end_fits(end),
    ensures
        ({
            let s = resolve_linear_start(start, unbounded);
            let e = resolve_linear_end(end, len);
            &&& r is Some <==> s <= e <= len
            &&& r matches Some((rs, n)) ==> rs == s && n == e - s
        }),
{
    let s = match start {
        Bound::Included(p) => p,
        Bound::Excluded(p) => p + 1,
        Bound::Unbounded => unbounded,
    };
    let e = match end {
        Bound::Included(p) => p + 1,
        Bound::Excluded(p) => p,
        Bound::Unbounded => len,
    };
    if e < s {
        return None;
    }
    if e > len {
        return None;
    }
    Some((s, e - s))
}

impl<T: Spatial, U: Linear + Space<Target = <T::Space as Space>::Coordinate>> LinearRange<T, U> {
    /// Whether a stretch cut out of this one, between these bounds, has a start that fits `usize`.
    pub open spec fn nested_start_fits(&self, start: Bound<usize>, end: Bound<usize>) -> bool {
        let s = resolve_linear_start(start, self.spec_start());
        let e = resolve_linear_end(end, self.spec_projection().spec_len());
        s <= e <= self.spec_projection().spec_len() ==> self.spec_start() + s <= usize::MAX
    }

    /// The LEDs of the stretch `[start, end)` of this range, as a range of their own; an
    /// unbounded start stands for this range's own start. Hands `self` back when the stretch
    /// does not fit.
    pub fn range(self, start: Bound<usize>, end: Bound<usize>) -> (r: Result<
        LinearRange<T, LinearSubspace<U>>,
        Self,
    >)
        requires
            linear_start_fits(start),
            linear_end_fits(end),
            self.nested_start_fits(start, end),
        ensures
            ({
                let len = self.spec_projection().spec_len();
                let s = resolve_linear_start(start, self.spec_start());
                let e = resolve_linear_end(end, len);
                &&& r is Ok <==> s <= e <= len
                &&& r matches Ok(range) ==> range == LinearRange::spec_new(
                    self.spec_data(),
                    LinearSubspace::spec_new(self.spec_projection(), s, (e - s) as usize),
                    (self.spec_start() + s) as usize,
                )
                &&& r matches Err(back) ==> back == self
            }),
    {
        let len = self.space.len();
        match cut_stretch(len, start, end, self.start) {
            Some((s, n)) => Ok(
                LinearRange {
                    start: self.start + s,
                    data: self.data,
                    space: LinearSubspace { space: self.space, offset: s, length: n },
                },
            ),
            None => Err(self),
        }
    }
}

} // verus!

verus! {

impl<T, U: Cartesian2d + Subspace> CartesianRange<T, U> where U::Parent: Cartesian2d + Copy {
    /// Whether this range, moved forward by `by`, still lies within the known extents of the
    /// parent of its space.
    pub open spec fn shift_add_in_bounds(&self, by: (u8, u8)) -> bool {
        let sp = self.spec_projection();
        let parent = sp.spec_parent();
        let offset = sp.spec_offset();
        &&& match (sp.spec_width(), parent.spec_width()) {
            (Some(tw), Some(w)) => tw + by.0 + offset.0 <= w,
            _ => true,
        }
        &&& match (sp.spec_height(), parent.spec_height()) {
            (Some(th), Some(h)) => th + by.1 + offset.1 <= h,
            _ => true,
        }
    }

    /// Whether a move forward by `by` that stays within the parent keeps the start and the offset
    /// within the axis type; a move that leaves the parent is refused before either is computed.
    pub open spec fn shift_add_fits(&self, by: (u8, u8)) -> bool {
        self.shift_add_in_bounds(by) ==> {
            &&& self.spec_start().0 + by.0 <= 255
            &&& self.spec_start().1 + by.1 <= 255
            &&& self.spec_projection().spec_offset().0 + by.0 <= 255
            &&& self.spec_projection().spec_offset().1 + by.1 <= 255
        }
    }

    /// Whether moving this range back by `by`, where its start allows it, keeps its offset
    /// within the axis type.
    pub open spec fn shift_sub_fits(&self, by: (u8, u8)) -> bool {
        self.spec_start().0 >= by.0 && self.spec_start().1 >= by.1 ==> self.spec_projection().spec_offset().0
            >= by.0 && self.spec_projection().spec_offset().1 >= by.1
    }

    /// This range moved forward by `by` within the parent of its space, if it still fits there.
    pub open spec fn spec_shift_add(self, by: (u8, u8)) -> Option<
        CartesianRange<T, CartesianSubspace<U::Parent>>,
    > {
        let sp = self.spec_projection();
        let parent = sp.spec_parent();
        let offset = sp.spec_offset();
        let wide_ok = match (sp.spec_width(), parent.spec_width()) {
            (Some(tw), Some(w)) => tw + by.0 + offset.0 <= w,
            _ => true,
        };
        let tall_ok = match (sp.spec_height(), parent.spec_height()) {
            (Some(th), Some(h)) => th + by.1 + offset.1 <= h,
            _ => true,
        };
        if wide_ok && tall_ok && sp.spec_width() is Some && sp.spec_height() is Some {
            Some(
                CartesianRange::spec_new(
                    self.spec_data(),
                    CartesianSubspace::spec_new(
                        parent,
                        ((offset.0 + by.0) as u8, (offset.1 + by.1) as u8),
                        (sp.spec_width().unwrap(), sp.spec_height().unwrap()),
                    ),
                    ((self.spec_start().0 + by.0) as u8, (self.spec_start().1 + by.1) as u8),
                ),
            )
        } else {
            None
        }
    }

    /// This range moved back by `by` within the parent of its space, if its start allows it.
    pub open spec fn spec_shift_sub(self, by: (u8, u8)) -> Option<
        CartesianRange<T, CartesianSubspace<U::Parent>>,
    > {
        let sp = self.spec_projection();
        let offset = sp.spec_offset();
        if self.spec_start().0 >= by.0 && self.spec_start().1 >= by.1 && sp.spec_width() is Some
            && sp.spec_height() is Some {
            Some(
                CartesianRange::spec_new(
                    self.spec_data(),
                    CartesianSubspace::spec_new(
                        sp.spec_parent(),
                        ((offset.0 - by.0) as u8, (offset.1 - by.1) as u8),
                        (sp.spec_width().unwrap(), sp.spec_height().unwrap()),
                    ),
                    ((self.spec_start().0 - by.0) as u8, (self.spec_start().1 - by.1) as u8),
                ),
            )
        } else {
            None
        }
    }

    pub fn shift_add(self, by: (u8, u8)) -> (r: Option<CartesianRange<T, CartesianSubspace<U::Parent>>>)
        requires
            self.shift_add_fits(by),
        ensures
            r == self.spec_shift_add(by),
    {
        let parent = *self.space.parent();
        let offset = self.space.offset();
        match (self.space.width(), parent.width()) {
            (Some(this_width), Some(width)) => {
                if this_width as u16 + by.0 as u16 + offset.0 as u16 > width as u16 {
                    return None;
                }
            },
            _ => {},
        }
        match (self.space.height(), parent.height()) {
            (Some(this_height), Some(height)) => {
                if this_height as u16 + by.1 as u16 + offset.1 as u16 > height as u16 {
                    return None;
                }
            },
            _ => {},
        }
        let w = match self.space.width() {
            Some(w) => w,
            None => return None,
        };
        let h = match self.space.height() {
            Some(h) => h,
            None => return None,
        };
        Some(
            CartesianRange {
                start: (self.start.0 + by.0, self.start.1 + by.1),
                space: CartesianSubspace {
                    space: parent,
                    offset: (offset.0 + by.0, offset.1 + by.1),
                    size: (w, h),
                },
                data: self.data,
            },
        )
    }

    pub fn shift_sub(self, by: (u8, u8)) -> (r: Option<CartesianRange<T, CartesianSubspace<U::Parent>>>)
        requires
            self.shift_sub_fits(by),
        ensures
            r == self.spec_shift_sub(by),
    {
        let parent = *self.space.parent();
        let offset = self.space.offset();
        if self.start.0 < by.0 || self.start.1 < by.1 {
            return None;
        }
        let w = match self.space.width() {
            Some(w) => w,
            None => return None,
        };
        let h = match self.space.height() {
            Some(h) => h,
            None => return None,
        };
        Some(
            CartesianRange {
                start: (self.start.0 - by.0, self.start.1 - by.1),
                space: CartesianSubspace {
                    space: parent,
                    offset: (offset.0 - by.0, offset.1 - by.1),
                    size: (w, h),
                },
                data: self.data,
            },
        )
    }
}

impl<T, U: Linear + Subspace> LinearRange<T, U> where U::Parent: Linear + Copy {
    /// Whether a move forward by `by` that stays within the parent keeps the start within
    /// `usize`; a move that leaves the parent is refused before the start is computed.
    pub open spec fn shift_add_fits(&self, by: usize) -> bool {
        let sp = self.spec_projection();
        sp.spec_len() + by + sp.spec_offset() <= sp.spec_parent().spec_len() ==> self.spec_start()
            + by <= usize::MAX
    }

    pub open spec fn shift_sub_fits(&self, by: usize) -> bool {
        self.spec_start() >= by ==> self.spec_projection().spec_offset() >= by
    }

    /// This range moved forward by `by` within the parent of its space, if it still fits there.
    pub open spec fn spec_shift_add(self, by: usize) -> Option<LinearRange<T, LinearSubspace<U::Parent>>> {
        let sp = self.spec_projection();
        if sp.spec_len() + by + sp.spec_offset() > sp.spec_parent().spec_len() {
            None
        } else {
            Some(
                LinearRange::spec_new(
                    self.spec_data(),
                    LinearSubspace::spec_new(
                        sp.spec_parent(),
                        (sp.spec_offset() + by) as usize,
                        sp.spec_len(),
                    ),
                    (self.spec_start() + by) as usize,
                ),
            )
        }
    }

    /// This range moved back by `by` within the parent of its space, if its start allows it.
    pub open spec fn spec_shift_sub(self, by: usize) -> Option<LinearRange<T, LinearSubspace<U::Parent>>> {
        let sp = self.spec_projection();
        if self.spec_start() < by {
            None
        } else {
            Some(
                LinearRange::spec_new(
                    self.spec_data(),
                    LinearSubspace::spec_new(
                        sp.spec_parent(),
                        (sp.spec_offset() - by) as usize,
                        sp.spec_len(),
                    ),
                    (self.spec_start() - by) as usize,
                ),
            )
        }
    }

    pub fn shift_add(self, by: usize) -> (r: Option<LinearRange<T, LinearSubspace<U::Parent>>>)
        requires
            self.shift_add_fits(by),
        ensures
            r == self.spec_shift_add(by),
    {
        let parent = *self.space.parent();
        let offset = self.space.offset();
        let len = self.space.len();
        if len as u128 + by as u128 + offset as u128 > parent.len() as u128 {
            return None;
        }
        Some(
            LinearRange {
                start: self.start + by,
                space: LinearSubspace { space: parent, offset: offset + by, length: len },
                data: self.data,
            },
        )
    }

    pub fn shift_sub(self, by: usize) -> (r: Option<LinearRange<T, LinearSubspace<U::Parent>>>)
        requires
            self.shift_sub_fits(by),
        ensures
            r == self.spec_shift_sub(by),
    {
        let parent = *self.space.parent();
        let offset = self.space.offset();
        if self.start < by {
            return None;
        }
        Some(
            LinearRange {
                start: self.start - by,
                space: LinearSubspace { space: parent, offset: offset - by, length: self.space.len() },
                data: self.data,
            },
        )
    }
}

} // verus!

verus! {

impl<T, U: Cartesian2d + Subspace> CartesianRange<T, U> where U::Parent: Cartesian2d + Copy {
    /// Whether both steps of a signed shift by `by` keep starts and offsets within the axis type.
    pub open spec fn shift_fits<V: ExtractSign<Output = u8>>(self, by: (V, V)) -> bool {
        let x = by.0.spec_magnitude();
        let y = by.1.spec_magnitude();
        &&& if by.0.spec_is_positive() {
            self.shift_add_fits((x, 0))
        } else {
            self.shift_sub_fits((x, 0))
        }
        &&& match (if by.0.spec_is_positive() {
            self.spec_shift_add((x, 0))
        } else {
            self.spec_shift_sub((x, 0))
        }) {
            Some(moved) => if by.1.spec_is_positive() {
                moved.shift_add_fits((0, y))
            } else {
                moved.shift_sub_fits((0, y))
            },
            None => true,
        }
    }

    /// This range moved by a signed amount along x, then along y.
    pub open spec fn spec_shift<V: ExtractSign<Output = u8>>(self, by: (V, V)) -> Option<
        CartesianRange<T, CartesianSubspace<U::Parent>>,
    > {
        let x = by.0.spec_magnitude();
        let y = by.1.spec_magnitude();
        match (if by.0.spec_is_positive() {
            self.spec_shift_add((x, 0))
        } else {
            self.spec_shift_sub((x, 0))
        }) {
            Some(moved) => if by.1.spec_is_positive() {
                moved.spec_shift_add((0, y))
            } else {
                moved.spec_shift_sub((0, y))
            },
            None => None,
        }
    }

    /// Moves this range by a signed amount along each axis; a zero amount counts as a move back
    /// by nothing.
    pub fn shift<V: ExtractSign<Output = u8>>(self, by: (V, V)) -> (r: Option<
        CartesianRange<T, CartesianSubspace<U::Parent>>,
    >)
        requires
            self.shift_fits(by),
        ensures
            r == self.spec_shift(by),
    {
        let (bx, by_) = by;
        let (x, sign_x) = bx.extract_sign();
        let (y, sign_y) = by_.extract_sign();
        let moved = match sign_x {
            Sign::Positive => self.shift_add((x, 0)),
            Sign::Negative => self.shift_sub((x, 0)),
        };
        match moved {
            Some(moved) => match sign_y {
                Sign::Positive => moved.shift_add((0, y)),
                Sign::Negative => moved.shift_sub((0, y)),
            },
            None => None,
        }
    }
}

impl<T, U: Linear + Subspace> LinearRange<T, U> where U::Parent: Linear + Copy {
    pub open spec fn shift_fits<V: ExtractSign<Output = usize>>(self, by: V) -> bool {
        if by.spec_is_positive() {
            self.shift_add_fits(by.spec_magnitude())
        } else {
            self.shift_sub_fits(by.spec_magnitude())
        }
    }

    pub open spec fn spec_shift<V: ExtractSign<Output = usize>>(self, by: V) -> Option<
        LinearRange<T, LinearSubspace<U::Parent>>,
    > {
        if by.spec_is_positive() {
            self.spec_shift_add(by.spec_magnitude())
        } else {
            self.spec_shift_sub(by.spec_magnitude())
        }
    }

    /// Moves this range by a signed amount; a zero amount counts as a move back by nothing.
    pub fn shift<V: ExtractSign<Output = usize>>(self, by: V) -> (r: Option<
        LinearRange<T, LinearSubspace<U::Parent>>,
    >)
        requires
            self.shift_fits(by),
        ensures
            r == self.spec_shift(by),
    {
        let (value, sign) = by.extract_sign();
        match sign {
            Sign::Positive => self.shift_add(value),
            Sign::Negative => self.shift_sub(value),
        }
    }
}

} // verus!

verus! {

/// The points of a line between two cells of a two-dimensional space, numbered from its start.
#[derive(Clone, Copy)]
pub struct BresenhamSpace {
    start: (u8, u8),
    end: (u8, u8),
    length: usize,
}

impl BresenhamSpace {
    pub closed spec fn spec_ends(&self) -> ((u8, u8), (u8, u8)) {
        (self.start, self.end)
    }

    pub closed spec fn spec_length(&self) -> usize {
        self.length
    }
}

impl Space for BresenhamSpace {
    type Coordinate = usize;
    type Target = (u8, u8);

    open spec fn spec_transform(&self, coord: usize) -> Option<(u8, u8)> {
        let points = spec_bresenham(self.spec_ends().0, self.spec_ends().1);
        if coord < points.len() {
            Some(points[coord as int])
        } else {
            None
        }
    }

    fn transform(&self, coord: usize) -> (r: Option<(u8, u8)>) {
        let points = bresenham(self.start, self.end);
        if coord < points.len() {
            Some(points[coord])
        } else {
            None
        }
    }
}

impl Linear for BresenhamSpace {
    open spec fn spec_len(&self) -> usize {
        self.spec_length()
    }

    fn len(&self) -> (r: usize) {
        self.length
    }
}

/// The LEDs along a line drawn across a two-dimensional arrangement.
pub struct BresenhamLine<T: Spatial> {
    data: T,
    space: BresenhamSpace,
}

impl<T: Spatial> BresenhamLine<T> {
    pub closed spec fn spec_data(&self) -> T {
        self.data
    }

    pub closed spec fn spec_line(&self) -> BresenhamSpace {
        self.space
    }
}

impl<T: Spatial> Spatial for BresenhamLine<T> where T::Space: Cartesian2d {
    type Space = BresenhamSpace;

    open spec fn wf(&self) -> bool {
        self.spec_data().wf()
    }

    open spec fn spec_space(&self) -> BresenhamSpace {
        self.spec_line()
    }

    open spec fn spec_leds(&self) -> Seq<[u8; 3]> {
        self.spec_data().spec_leds()
    }

    open spec fn spec_strip_window(&self) -> (usize, usize) {
        self.spec_data().spec_strip_window()
    }

    open spec fn spec_locate(&self, index: usize) -> Option<usize> {
        match self.spec_line().spec_transform(index) {
            Some(t) => self.spec_data().spec_locate(t),
            None => None,
        }
    }

    fn space(&self) -> (r: &BresenhamSpace) {
        &self.space
    }

    fn get(&self, index: usize) -> (r: Option<&[u8; 3]>) {
        match self.space.transform(index) {
            Some(t) => self.data.get(t),
            None => None,
        }
    }

    fn get_mut(&mut self, index: usize) -> (r: Option<&mut [u8; 3]>) {
        match self.space.transform(index) {
            Some(t) => self.data.get_mut(t),
            None => None,
        }
    }
}

impl<T: Spatial> BresenhamLine<T> where T::Space: Cartesian2d {
    /// The LEDs of the points `[start, end)` of this line, as a range of their own; hands `self`
    /// back when the stretch does not fit.
    pub fn range(self, start: Bound<usize>, end: Bound<usize>) -> (r: Result<
        LinearRange<T, LinearSubspace<BresenhamSpace>>,
        Self,
    >)
        requires
            linear_start_fits(start),
            linear_end_fits(end),
        ensures
            ({
                let len = self.spec_line().spec_len();
                let s = resolve_linear_start(start, 0);
                let e = resolve_linear_end(end, len);
                &&& r is Ok <==> s <= e <= len
                &&& r matches Ok(range) ==> range == LinearRange::spec_new(
                    self.spec_data(),
                    LinearSubspace::spec_new(self.spec_line(), s, (e - s) as usize),
                    s,
                )
                &&& r matches Err(back) ==> back == self
            }),
    {
        let len = self.space.len();
        match cut_stretch(len, start, end, 0) {
            Some((s, n)) => Ok(
                LinearRange {
                    start: s,
                    data: self.data,
                    space: LinearSubspace { space: self.space, offset: s, length: n },
                },
            ),
            None => Err(self),
        }
    }
}

} // verus!

verus! {

/// Writes `colors[j]` to the LED `locs[j]` names, for each `j` in order, stopping at the first
/// `j` that names no LED.
pub open spec fn paint(leds: Seq<[u8; 3]>, locs: Seq<Option<usize>>, colors: Seq<[u8; 3]>) -> Seq<
    [u8; 3],
>
    decreases locs.len(),
{
    if locs.len() == 0 {
        leds
    } else {
        match locs[0] {
            None => leds,
            Some(i) => paint(leds.update(i as int, colors[0]), locs.drop_first(), colors.drop_first()),
        }
    }
}

/// Writes the colours in turn to the LEDs `locs` names, passing over entries that name no LED,
/// and stopping when the colours run out.
pub open spec fn paint_skipping(
    leds: Seq<[u8; 3]>,
    locs: Seq<Option<usize>>,
    colors: Seq<[u8; 3]>,
) -> Seq<[u8; 3]>
    decreases locs.len(),
{
    if locs.len() == 0 {
        leds
    } else {
        match locs[0] {
            None => paint_skipping(leds, locs.drop_first(), colors),
            Some(i) => if colors.len() == 0 {
                leds
            } else {
                paint_skipping(leds.update(i as int, colors[0]), locs.drop_first(), colors.drop_first())
            },
        }
    }
}

/// The LEDs that the first `count` indices of a one-dimensional arrangement address.
pub open spec fn linear_locs<S: Spatial>(s: S, count: nat) -> Seq<Option<usize>> where S::Space: Linear {
    Seq::new(count, |j: int| s.spec_locate(j as usize))
}

/// Writes `colors` to the LEDs of `s` from index 0 on, until either runs out or an index
/// addresses no LED.
pub(crate) fn fill_linear<S: Spatial>(s: &mut S, colors: &[[u8; 3]]) where S::Space: Linear
    requires
        old(s).wf(),
    ensures
        final(s).wf(),
        final(s).spec_space() == old(s).spec_space(),
            final(s).spec_strip_window() == old(s).spec_strip_window(),
        forall|c| #[trigger] final(s).spec_locate(c) == old(s).spec_locate(c),
        final(s).spec_leds() == paint(
            old(s).spec_leds(),
            linear_locs(*old(s), vstd::math::min(colors@.len() as int, old(s).spec_space().spec_len() as int) as nat),
            colors@,
        ),
{
    let len = s.space().len();
    let n = if colors.len() < len {
        colors.len()
    } else {
        len
    };
    let ghost locs = linear_locs(*old(s), n as nat);
    let ghost target = paint(old(s).spec_leds(), locs, colors@);
    let mut j: usize = 0;
    assert(locs.skip(0) == locs);
    assert(colors@.skip(0) == colors@);
    while j < n
        invariant_except_break
            j <= n,
            paint(s.spec_leds(), locs.skip(j as int), colors@.skip(j as int)) == target,
        invariant
            n <= colors@.len(),
            locs == linear_locs(*old(s), n as nat),
            target == paint(old(s).spec_leds(), locs, colors@),
            s.wf(),
            s.spec_space() == old(s).spec_space(),
            s.spec_strip_window() == old(s).spec_strip_window(),
            forall|c| #[trigger] s.spec_locate(c) == old(s).spec_locate(c),
        ensures
            s.spec_leds() == target,
        decreases n - j,
    {
        assert(locs.skip(j as int)[0] == locs[j as int]);
        match s.get_mut(j) {
            Some(led) => {
                *led = colors[j];
            },
            None => {
                break;
            },
        }
        assert(locs.skip(j as int).drop_first() == locs.skip(j + 1));
        assert(colors@.skip(j as int).drop_first() == colors@.skip(j + 1));
        j += 1;
    }
}

} // verus!

verus! {

/// Writes `count` copies of `color` to the LEDs of `s` from index 0 on, until an index
/// addresses no LED.
pub(crate) fn fill_linear_with<S: Spatial>(s: &mut S, color: [u8; 3]) where S::Space: Linear
    requires
        old(s).wf(),
    ensures
        final(s).wf(),
        final(s).spec_space() == old(s).spec_space(),
            final(s).spec_strip_window() == old(s).spec_strip_window(),
        forall|c| #[trigger] final(s).spec_locate(c) == old(s).spec_locate(c),
        final(s).spec_leds() == paint(
            old(s).spec_leds(),
            linear_locs(*old(s), old(s).spec_space().spec_len() as nat),
            Seq::new(old(s).spec_space().spec_len() as nat, |j: int| color),
        ),
{
    let len = s.space().len();
    let mut colors: Vec<[u8; 3]> = Vec::new();
    let mut i: usize = 0;
    while i < len
        invariant
            i <= len,
            colors@ == Seq::new(i as nat, |j: int| color),
        decreases len - i,
    {
        colors.push(color);
        i += 1;
    }
    fill_linear(s, colors.as_slice());
}

/// Colouring one-dimensional arrangements of LEDs.
pub trait LinearSpatialExt: Spatial + Sized {
    /// The strip's colours after `fill_from(colors)`.
    spec fn spec_fill_from(&self, colors: Seq<[u8; 3]>) -> Seq<[u8; 3]>;

    /// The strip's colours after `fill(color)`.
    spec fn spec_fill(&self, color: [u8; 3]) -> Seq<[u8; 3]>;

    /// Writes `colors`, in order, to the LEDs of this arrangement.
    fn fill_from(&mut self, colors: &[[u8; 3]])
        requires
            old(self).wf(),
        ensures
            final(self).wf(),
            final(self).spec_space() == old(self).spec_space(),
            final(self).spec_strip_window() == old(self).spec_strip_window(),
            forall|c| #[trigger] final(self).spec_locate(c) == old(self).spec_locate(c),
            final(self).spec_leds() == old(self).spec_fill_from(colors@),
    ;

    /// Writes `color` to every LED of this arrangement.
    fn fill(&mut self, color: [u8; 3])
        requires
            old(self).wf(),
        ensures
            final(self).wf(),
            final(self).spec_space() == old(self).spec_space(),
            final(self).spec_strip_window() == old(self).spec_strip_window(),
            forall|c| #[trigger] final(self).spec_locate(c) == old(self).spec_locate(c),
            final(self).spec_leds() == old(self).spec_fill(color),
    ;

    /// Turns every LED of this arrangement off.
    fn clear(&mut self)
        requires
            old(self).wf(),
        ensures
            final(self).wf(),
            final(self).spec_space() == old(self).spec_space(),
            final(self).spec_strip_window() == old(self).spec_strip_window(),
            forall|c| #[trigger] final(self).spec_locate(c) == old(self).spec_locate(c),
            final(self).spec_leds() == old(self).spec_fill([0u8, 0u8, 0u8]),
    {
        self.fill([0, 0, 0])
    }
}

impl<T: Spatial, U: Linear + Space<Target = <T::Space as Space>::Coordinate>> LinearSpatialExt for LinearRange<T, U> {
    open spec fn spec_fill_from(&self, colors: Seq<[u8; 3]>) -> Seq<[u8; 3]> {
        paint(
            self.spec_leds(),
            linear_locs(*self, vstd::math::min(colors.len() as int, self.spec_projection().spec_len() as int) as nat),
            colors,
        )
    }

    open spec fn spec_fill(&self, color: [u8; 3]) -> Seq<[u8; 3]> {
        paint(
            self.spec_leds(),
            linear_locs(*self, self.spec_projection().spec_len() as nat),
            Seq::new(self.spec_projection().spec_len() as nat, |j: int| color),
        )
    }

    fn fill_from(&mut self, colors: &[[u8; 3]]) {
        fill_linear(self, colors)
    }

    fn fill(&mut self, color: [u8; 3]) {
        fill_linear_with(self, color)
    }
}

/// The LEDs along a line, in order: what each point of the line addresses.
pub open spec fn line_locs<T: Spatial>(data: T, line: BresenhamSpace) -> Seq<Option<usize>> where T::Space: Cartesian2d {
    let points = spec_bresenham(line.spec_ends().0, line.spec_ends().1);
    Seq::new(points.len(), |j: int| data.spec_locate(points[j]))
}

impl<T: Spatial> LinearSpatialExt for BresenhamLine<T> where T::Space: Cartesian2d {
    /// Points of the line that address no LED are passed over and use up no colour.
    open spec fn spec_fill_from(&self, colors: Seq<[u8; 3]>) -> Seq<[u8; 3]> {
        paint_skipping(self.spec_leds(), line_locs(self.spec_data(), self.spec_line()), colors)
    }

    open spec fn spec_fill(&self, color: [u8; 3]) -> Seq<[u8; 3]> {
        let locs = line_locs(self.spec_data(), self.spec_line());
        paint_skipping(self.spec_leds(), locs, Seq::new(locs.len(), |j: int| color))
    }

    fn fill_from(&mut self, colors: &[[u8; 3]]) {
        let points = bresenham(self.space.start, self.space.end);
        let ghost locs = line_locs(self.data, self.space);
        let ghost target = paint_skipping(old(self).spec_leds(), locs, colors@);
        let mut j: usize = 0;
        let mut used: usize = 0;
        assert(locs.skip(0) == locs);
        assert(colors@.skip(0) == colors@);
        while j < points.len()
            invariant_except_break
                j <= points@.len(),
                used <= colors@.len(),
                paint_skipping(self.spec_leds(), locs.skip(j as int), colors@.skip(used as int))
                    == target,
            invariant
                points@ == spec_bresenham(self.space.start, self.space.end),
                locs == line_locs(old(self).spec_data(), old(self).spec_line()),
                target == paint_skipping(old(self).spec_leds(), locs, colors@),
                self.wf(),
                self.space == old(self).space,
                self.data.spec_strip_window() == old(self).data.spec_strip_window(),
                forall|c| #[trigger] self.data.spec_locate(c) == old(self).data.spec_locate(c),
            ensures
                self.spec_leds() == target,
            decreases points@.len() - j,
        {
            assert(locs.skip(j as int)[0] == locs[j as int]);
            assert(locs.skip(j as int).drop_first() == locs.skip(j + 1));
            match self.data.get_mut(points[j]) {
                Some(led) => {
                    if used < colors.len() {
                        *led = colors[used];
                        assert(colors@.skip(used as int).drop_first() == colors@.skip(used + 1));
                        used += 1;
                    } else {
                        break;
                    }
                },
                None => {},
            }
            j += 1;
        }
        assert(self.spec_leds() == target);
        assert(target == old(self).spec_fill_from(colors@));
    }

    fn fill(&mut self, color: [u8; 3]) {
        let count = bresenham(self.space.start, self.space.end).len();
        let mut colors: Vec<[u8; 3]> = Vec::new();
        let mut i: usize = 0;
        while i < count
            invariant
                i <= count,
                colors@ == Seq::new(i as nat, |j: int| color),
            decreases count - i,
        {
            colors.push(color);
            i += 1;
        }
        self.fill_from(colors.as_slice());
    }
}

} // verus!

verus! {

/// The LEDs that the cells of a `w` by `h` rectangle address, column by column.
pub open spec fn grid_locs<S: Spatial>(s: S, w: nat, h: nat) -> Seq<Option<usize>> where S::Space: Cartesian2d {
    Seq::new(w * h, |i: int| s.spec_locate(((i / h as int) as u8, (i % h as int) as u8)))
}

/// Whether filling the rectangle that `s` spans succeeds: its width is known and either zero or
/// its height is known too, and every cell addresses an LED.
pub open spec fn grid_fill_succeeds<S: Spatial>(s: S) -> bool where S::Space: Cartesian2d {
    match s.spec_space().spec_width() {
        None => false,
        Some(w) => w == 0 || match s.spec_space().spec_height() {
            None => false,
            Some(h) => forall|i: int| 0 <= i < w * h ==> (#[trigger] grid_locs(s, w as nat, h as nat)[i]) is Some,
        },
    }
}

/// The colours that filling the rectangle `s` spans with `color` leaves: cell by cell, column by
/// column, until a cell addresses no LED.
pub open spec fn grid_fill<S: Spatial>(s: S, color: [u8; 3]) -> Seq<[u8; 3]> where S::Space: Cartesian2d {
    match (s.spec_space().spec_width(), s.spec_space().spec_height()) {
        (Some(w), Some(h)) => paint(
            s.spec_leds(),
            grid_locs(s, w as nat, h as nat),
            Seq::new((w * h) as nat, |i: int| color),
        ),
        _ => s.spec_leds(),
    }
}

/// Colouring and cutting two-dimensional arrangements of LEDs.
pub trait CartesianSpatialExt: Spatial + Sized where <Self as Spatial>::Space: Cartesian2d {
    /// Writes `color` to every cell of the rectangle that this arrangement spans, column by
    /// column; gives up on an extent that is not known or on a cell that addresses no LED,
    /// keeping what it wrote before.
    fn fill(&mut self, color: [u8; 3]) -> (r: Option<()>)
        requires
            old(self).wf(),
        ensures
            final(self).wf(),
            final(self).spec_space() == old(self).spec_space(),
            final(self).spec_strip_window() == old(self).spec_strip_window(),
            forall|c| #[trigger] final(self).spec_locate(c) == old(self).spec_locate(c),
            r is Some <==> grid_fill_succeeds(*old(self)),
            final(self).spec_leds() == grid_fill(*old(self), color),
    {
        let w = match self.space().width() {
            Some(w) => w,
            None => return None,
        };
        if w == 0 {
            return Some(());
        }
        let h = match self.space().height() {
            Some(h) => h,
            None => return None,
        };
        let ghost n = (w * h) as nat;
        let ghost locs = grid_locs(*old(self), w as nat, h as nat);
        let ghost colors = Seq::new(n, |i: int| color);
        let ghost target = paint(old(self).spec_leds(), locs, colors);
        assert(locs.skip(0) == locs);
        assert(colors.skip(0) == colors);
        let mut x: u8 = 0;
        while x < w
            invariant
                0 < w,
                old(self).spec_space().spec_width() == Some(w),
                old(self).spec_space().spec_height() == Some(h),
                n == w * h,
                x <= w,
                locs == grid_locs(*old(self), w as nat, h as nat),
                colors == Seq::new(n, |i: int| color),
                target == paint(old(self).spec_leds(), locs, colors),
                paint(self.spec_leds(), locs.skip(x * h), colors.skip(x * h)) == target,
                forall|i: int| 0 <= i < x * h ==> (#[trigger] locs[i]) is Some,
                self.wf(),
                self.spec_space() == old(self).spec_space(),
                self.spec_strip_window() == old(self).spec_strip_window(),
                forall|c| #[trigger] self.spec_locate(c) == old(self).spec_locate(c),
            decreases w - x,
        {
            let mut y: u8 = 0;
            assert(x * h + h <= w * h) by (nonlinear_arith)
                requires
                    x < w,
            ;
            while y < h
                invariant
                    old(self).spec_space().spec_width() == Some(w),
                    old(self).spec_space().spec_height() == Some(h),
                    target == paint(old(self).spec_leds(), locs, colors),
                    x < w,
                    y <= h,
                    x * h + h <= w * h,
                    n == w * h,
                    locs == grid_locs(*old(self), w as nat, h as nat),
                    colors == Seq::new(n, |i: int| color),
                    paint(self.spec_leds(), locs.skip(x * h + y), colors.skip(x * h + y)) == target,
                    forall|i: int| 0 <= i < x * h + y ==> (#[trigger] locs[i]) is Some,
                    self.wf(),
                    self.spec_space() == old(self).spec_space(),
                    self.spec_strip_window() == old(self).spec_strip_window(),
                    forall|c| #[trigger] self.spec_locate(c) == old(self).spec_locate(c),
                decreases h - y,
            {
                let ghost i = x * h + y;
                proof {
                    vstd::arithmetic::div_mod::lemma_fundamental_div_mod_converse(
                        i,
                        h as int,
                        x as int,
                        y as int,
                    );
                }
                assert(locs[i] == old(self).spec_locate((x, y)));
                assert(locs.skip(i)[0] == locs[i]);
                match self.get_mut((x, y)) {
                    Some(led) => {
                        *led = color;
                    },
                    None => {
                        assert(i < w * h);
                        assert(locs[i] is None);
                        assert(grid_locs(*old(self), w as nat, h as nat)[i] is None);
                        assert(!grid_fill_succeeds(*old(self)));
                        assert(paint(self.spec_leds(), locs.skip(i), colors.skip(i))
                            == self.spec_leds());
                        return None;
                    },
                }
                assert(locs.skip(i).drop_first() == locs.skip(i + 1));
                assert(colors.skip(i).drop_first() == colors.skip(i + 1));
                y += 1;
            }
            assert(x * h + h == (x + 1) * h) by (nonlinear_arith);
            x += 1;
        }
        assert(locs.skip(n as int).len() == 0);
        Some(())
    }

    /// Turns every cell of the rectangle that this arrangement spans off, as `fill` does.
    fn clear(&mut self) -> (r: Option<()>)
        requires
            old(self).wf(),
        ensures
            final(self).wf(),
            final(self).spec_space() == old(self).spec_space(),
            final(self).spec_strip_window() == old(self).spec_strip_window(),
            forall|c| #[trigger] final(self).spec_locate(c) == old(self).spec_locate(c),
            r is Some <==> grid_fill_succeeds(*old(self)),
            final(self).spec_leds() == grid_fill(*old(self), [0u8, 0u8, 0u8]),
    {
        self.fill([0, 0, 0])
    }

    /// The LEDs along the line from `start` to `end`; both ends may lie on the far edge of a
    /// known extent, not beyond it.
    fn into_line(self, start: (u8, u8), end: (u8, u8)) -> (r: Option<BresenhamLine<Self>>)
        ensures
            r is Some <==> (self.spec_space().spec_width() matches Some(w) ==> start.0 <= w && end.0
                <= w) && (self.spec_space().spec_height() matches Some(h) ==> start.1 <= h && end.1
                <= h),
            r matches Some(line) ==> line.spec_data() == self && line.spec_line().spec_ends() == (
                start,
                end,
            ) && line.spec_line().spec_len() == line_steps(start, end) + 1,
    {
        match self.space().width() {
            Some(width) => {
                if start.0 > width || end.0 > width {
                    return None;
                }
            },
            None => {},
        }
        match self.space().height() {
            Some(height) => {
                if start.1 > height || end.1 > height {
                    return None;
                }
            },
            None => {},
        }
        let length = bresenham(start, end).len();
        proof {
            law_bresenham_endpoints(start, end);
        }
        Some(BresenhamLine { data: self, space: BresenhamSpace { end, start, length } })
    }
}

impl<T: Spatial> CartesianSpatialExt for T where T::Space: Cartesian2d {

}

} // verus!

verus! {

/// Swapping the space through which LEDs are seen for another that maps onto the same target.
pub trait MapSpace<V: Space>: Spatial + Sized {
    type Mapped;

    /// This arrangement seen through `space` in place of its own.
    spec fn spec_with_space(self, space: V) -> Self::Mapped;

    /// Hands this arrangement's space to `call`, and sees the LEDs through the space it returns.
    fn map_space<F: FnOnce(Self::Space) -> Option<V>>(self, call: F) -> (r: Option<Self::Mapped>)
        requires
            call.requires((self.spec_space(),)),
        ensures
            r is None ==> call.ensures((self.spec_space(),), None),
            r matches Some(m) ==> exists|v: V|
                call.ensures((self.spec_space(),), Some(v)) && m == self.spec_with_space(v),
    ;
}

impl<T: Spatial, S: Cartesian2d + Space<Target = <T::Space as Space>::Coordinate>, U: Cartesian2d + Space<Target = <T::Space as Space>::Coordinate>> MapSpace<U> for Transformed<T, S> {
    type Mapped = Transformed<T, U>;

    open spec fn spec_with_space(self, space: U) -> Transformed<T, U> {
        Transformed::spec_new(self.spec_data(), space)
    }

    fn map_space<F: FnOnce(S) -> Option<U>>(self, call: F) -> (r: Option<Transformed<T, U>>) {
        let ghost before = self;
        match call(self.space) {
            Some(space) => {
                let mapped = Transformed { data: self.data, space };
                assert(mapped == before.spec_with_space(space));
                Some(mapped)
            },
            None => None,
        }
    }
}

impl<T: Spatial, S: Cartesian2d + Space<Target = <T::Space as Space>::Coordinate>, U: Cartesian2d + Space<Target = <T::Space as Space>::Coordinate>> MapSpace<U> for CartesianRange<T, S> {
    type Mapped = CartesianRange<T, U>;

    open spec fn spec_with_space(self, space: U) -> CartesianRange<T, U> {
        CartesianRange::spec_new(self.spec_data(), space, self.spec_start())
    }

    fn map_space<F: FnOnce(S) -> Option<U>>(self, call: F) -> (r: Option<CartesianRange<T, U>>) {
        let ghost before = self;
        match call(self.space) {
            Some(space) => {
                let mapped = CartesianRange { data: self.data, space, start: self.start };
                assert(mapped == before.spec_with_space(space));
                Some(mapped)
            },
            None => None,
        }
    }
}

} // verus!

verus! {

/// Painting with a single colour leaves that colour on an LED that had it already.
pub proof fn lemma_paint_keeps_color(leds: Seq<[u8; 3]>, locs: Seq<Option<usize>>, color: [u8; 3], i: int)
    requires
        0 <= i < leds.len(),
        leds[i] == color,
        forall|k: int| 0 <= k < locs.len() && locs[k] is Some ==> (#[trigger] locs[k]).unwrap() < leds.len(),
    ensures
        paint(leds, locs, Seq::new(locs.len(), |j: int| color))[i] == color,
        paint(leds, locs, Seq::new(locs.len(), |j: int| color)).len() == leds.len(),
    decreases locs.len(),
{
    if locs.len() > 0 {
        if let Some(l) = locs[0] {
            let next = leds.update(l as int, color);
            let rest = locs.drop_first();
            assert(Seq::new(locs.len(), |j: int| color).drop_first() == Seq::new(
                rest.len(),
                |j: int| color,
            ));
            assert forall|k: int| 0 <= k < rest.len() && rest[k] is Some implies (#[trigger] rest[k]).unwrap()
                < next.len() by {
                assert(rest[k] == locs[k + 1]);
            }
            lemma_paint_keeps_color(next, rest, color, i);
        }
    }
}

/// Painting with a single colour leaves that colour on every LED written before the first entry
/// that names no LED.
pub proof fn lemma_paint_uniform(leds: Seq<[u8; 3]>, locs: Seq<Option<usize>>, color: [u8; 3], j: int)
    requires
        0 <= j < locs.len(),
        forall|k: int| 0 <= k <= j ==> (#[trigger] locs[k]) is Some,
        forall|k: int| 0 <= k < locs.len() && locs[k] is Some ==> (#[trigger] locs[k]).unwrap() < leds.len(),
    ensures
        paint(leds, locs, Seq::new(locs.len(), |k: int| color))[locs[j].unwrap() as int] == color,
    decreases locs.len(),
{
    let l = locs[0].unwrap();
    let next = leds.update(l as int, color);
    let rest = locs.drop_first();
    assert(Seq::new(locs.len(), |k: int| color).drop_first() == Seq::new(rest.len(), |k: int| color));
    if j == 0 {
        lemma_paint_keeps_color(next, rest, color, l as int);
    } else {
        assert forall|k: int| 0 <= k <= j - 1 implies (#[trigger] rest[k]) is Some by {
            assert(rest[k] == locs[k + 1]);
        }
        assert forall|k: int| 0 <= k < rest.len() && rest[k] is Some implies (#[trigger] rest[k]).unwrap()
            < next.len() by {
            assert(rest[k] == locs[k + 1]);
        }
        lemma_paint_uniform(next, rest, color, j - 1);
        assert(rest[j - 1] == locs[j]);
    }
}

/// Painting a run of consecutive LEDs writes the colours to them in order and leaves the rest.
pub proof fn lemma_paint_run(leds: Seq<[u8; 3]>, base: int, n: nat, colors: Seq<[u8; 3]>)
    requires
        0 <= base,
        base + n <= leds.len(),
        leds.len() <= usize::MAX,
        n <= colors.len(),
    ensures
        paint(leds, Seq::new(n, |j: int| Some((base + j) as usize)), colors) == leds.subrange(0, base)
            + colors.take(n as int) + leds.subrange(base + n, leds.len() as int),
    decreases n,
{
    let locs = Seq::new(n, |j: int| Some((base + j) as usize));
    if n == 0 {
        assert(leds.subrange(0, base) + colors.take(0) + leds.subrange(base, leds.len() as int) =~= leds);
    } else {
        let next = leds.update(base, colors[0]);
        assert(locs[0] == Some(base as usize));
        assert(paint(leds, locs, colors) == paint(next, locs.drop_first(), colors.drop_first()));
        assert(locs.drop_first() == Seq::new((n - 1) as nat, |j: int| Some((base + 1 + j) as usize)));
        lemma_paint_run(next, base + 1, (n - 1) as nat, colors.drop_first());
        assert(next.subrange(0, base + 1) + colors.drop_first().take(n - 1) + next.subrange(
            base + n,
            next.len() as int,
        ) =~= leds.subrange(0, base) + colors.take(n as int) + leds.subrange(base + n, leds.len() as int));
    }
}

/// Mirroring a space along x twice gives back the space, on every column of its width.
pub proof fn law_flip_x_involution<T: Cartesian2d>(space: T, once: FlipX<T>, twice: FlipX<FlipX<T>>, c: (u8, u8))
    requires
        once.spec_inner() == space,
        once.spec_width() == space.spec_width(),
        twice.spec_inner() == once,
        twice.spec_width() == once.spec_width(),
        space.spec_width() matches Some(w) && c.0 < w,
    ensures
        twice.spec_transform(c) == space.spec_transform(c),
{
}

/// Mirroring along x pairs the columns from both edges inwards: each column within the width
/// shows the column of the inner space that lies as far from the other edge, so that the two
/// column numbers add up to one less than the width; columns past the width show nothing.
pub proof fn law_flip_x_mirrors<T: Cartesian2d>(flip: FlipX<T>, c: (u8, u8))
    requires
        flip.spec_width() is Some,
    ensures
        c.0 < flip.spec_width().unwrap() ==> exists|m: u8|
            m < flip.spec_width().unwrap() && c.0 + m + 1 == flip.spec_width().unwrap()
                && #[trigger] flip.spec_inner().spec_transform((m, c.1)) == flip.spec_transform(c),
        c.0 >= flip.spec_width().unwrap() ==> flip.spec_transform(c) is None,
{
    if c.0 < flip.spec_width().unwrap() {
        let m = (flip.spec_width().unwrap() - c.0 - 1) as u8;
        assert(flip.spec_inner().spec_transform((m, c.1)) == flip.spec_transform(c));
    }
}

/// Mirroring along y pairs the rows from both edges inwards: each row within the height shows
/// the row of the inner space that lies as far from the other edge, so that the two row numbers
/// add up to one less than the height; rows past the height show nothing.
pub proof fn law_flip_y_mirrors<T: Cartesian2d>(flip: FlipY<T>, c: (u8, u8))
    ensures
        c.1 < flip.spec_height().unwrap() ==> exists|m: u8|
            m < flip.spec_height().unwrap() && c.1 + m + 1 == flip.spec_height().unwrap()
                && #[trigger] flip.spec_inner().spec_transform((c.0, m)) == flip.spec_transform(c),
        c.1 >= flip.spec_height().unwrap() ==> flip.spec_transform(c) is None,
{
    if c.1 < flip.spec_height().unwrap() {
        let m = (flip.spec_height().unwrap() - c.1 - 1) as u8;
        assert(flip.spec_inner().spec_transform((c.0, m)) == flip.spec_transform(c));
    }
}

/// Mirroring a space along y twice gives back the space, on every row of its height.
pub proof fn law_flip_y_involution<T: Cartesian2d>(space: T, once: FlipY<T>, twice: FlipY<FlipY<T>>, c: (u8, u8))
    requires
        once.spec_inner() == space,
        once.spec_height() == space.spec_height(),
        twice.spec_inner() == once,
        twice.spec_height() == once.spec_height(),
        space.spec_height() matches Some(h) && c.1 < h,
    ensures
        twice.spec_transform(c) == space.spec_transform(c),
{
}

/// A torus repeats: cells a whole period apart along either axis address the same cell of the
/// space inside it.
pub proof fn law_torus_repeats<T: Cartesian2d>(t: Torus<T>, c: (u8, u8))
    requires
        t.spec_period().0 > 0,
        t.spec_period().1 > 0,
    ensures
        c.0 + t.spec_period().0 <= 255 ==> t.spec_transform(((c.0 + t.spec_period().0) as u8, c.1))
            == t.spec_transform(c),
        c.1 + t.spec_period().1 <= 255 ==> t.spec_transform((c.0, (c.1 + t.spec_period().1) as u8))
            == t.spec_transform(c),
{
    let (w, h) = t.spec_period();
    vstd::arithmetic::div_mod::lemma_mod_add_multiples_vanish(c.0 as int, w as int);
    vstd::arithmetic::div_mod::lemma_mod_add_multiples_vanish(c.1 as int, h as int);
}

/// A switchback grid puts row `y` on the strip indices `[y * stride, (y + 1) * stride)`, and no
/// two cells of its width on the same index.
pub proof fn law_switchback_layout(grid: SwitchbackGrid, a: (u8, u8), b: (u8, u8))
    requires
        a.0 < grid.spec_stride(),
        b.0 < grid.spec_stride(),
    ensures
        grid.spec_transform(a) matches Some(i) && a.1 * grid.spec_stride() <= i < (a.1 + 1)
            * grid.spec_stride(),
        grid.spec_transform(a) == grid.spec_transform(b) ==> a == b,
{
    let s = grid.spec_stride() as int;
    let ia = switchback_index(s, a.0 as int, a.1 as int);
    let ib = switchback_index(s, b.0 as int, b.1 as int);
    assert(a.1 * s <= ia < (a.1 + 1) * s) by (nonlinear_arith)
        requires
            ia == (if a.1 % 2 == 0 {
                a.1 * s + a.0
            } else {
                (a.1 + 1) * s - (1 + a.0)
            }),
            0 <= a.0 < s,
    ;
    assert(b.1 * s <= ib < (b.1 + 1) * s) by (nonlinear_arith)
        requires
            ib == (if b.1 % 2 == 0 {
                b.1 * s + b.0
            } else {
                (b.1 + 1) * s - (1 + b.0)
            }),
            0 <= b.0 < s,
    ;
    assert(0 <= ia <= 255 * 256) by (nonlinear_arith)
        requires
            a.1 * s <= ia < (a.1 + 1) * s,
            0 <= a.1 <= 255,
            0 <= s <= 255,
    ;
    assert(0 <= ib <= 255 * 256) by (nonlinear_arith)
        requires
            b.1 * s <= ib < (b.1 + 1) * s,
            0 <= b.1 <= 255,
            0 <= s <= 255,
    ;
    if ia == ib {
        if a.1 < b.1 {
            assert((a.1 + 1) * s <= b.1 * s) by (nonlinear_arith)
                requires
                    a.1 + 1 <= b.1,
                    s >= 0,
            ;
        } else if b.1 < a.1 {
            assert((b.1 + 1) * s <= a.1 * s) by (nonlinear_arith)
                requires
                    b.1 + 1 <= a.1,
                    s >= 0,
            ;
        }
    }
}

/// A range cut out of a space addresses the LEDs its parent addresses, shifted by its offset.
pub proof fn law_range_is_shifted_parent<T: Spatial, U: Cartesian2d + Space<Target = <T::Space as Space>::Coordinate>>(
    parent: Transformed<T, U>,
    range: CartesianRange<T, CartesianSubspace<U>>,
    c: (u8, u8),
)
    requires
        range.spec_data() == parent.spec_data(),
        range.spec_projection().spec_within() == parent.spec_projection(),
        c.0 + range.spec_projection().spec_shift().0 <= 255,
        c.1 + range.spec_projection().spec_shift().1 <= 255,
    ensures
        range.spec_leds() == parent.spec_leds(),
        range.spec_locate(c) == parent.spec_locate(
            (
                (c.0 + range.spec_projection().spec_shift().0) as u8,
                (c.1 + range.spec_projection().spec_shift().1) as u8,
            ),
        ),
{
}

/// The entries of `locs` that name an LED, in order, with those that name none left out.
pub open spec fn named_leds(locs: Seq<Option<usize>>) -> Seq<Option<usize>>
    decreases locs.len(),
{
    if locs.len() == 0 {
        locs
    } else if locs[0] is Some {
        seq![locs[0]] + named_leds(locs.drop_first())
    } else {
        named_leds(locs.drop_first())
    }
}

/// Painting while passing over entries that name no LED gives the colours, in turn, to the LEDs
/// that are named: the `j`-th named LED gets `colors[j]`, however many unnamed entries come
/// before it, for as many named LEDs as there are colours.
pub proof fn law_paint_skipping_uses_colours_in_turn(
    leds: Seq<[u8; 3]>,
    locs: Seq<Option<usize>>,
    colors: Seq<[u8; 3]>,
)
    ensures
        paint_skipping(leds, locs, colors) == paint(
            leds,
            named_leds(locs).take(vstd::math::min(named_leds(locs).len() as int, colors.len() as int)),
            colors,
        ),
    decreases locs.len(),
{
    let named = named_leds(locs);
    let k = vstd::math::min(named.len() as int, colors.len() as int);
    if locs.len() == 0 {
        assert(named.take(k) =~= Seq::<Option<usize>>::empty());
    } else {
        let rest = locs.drop_first();
        law_paint_skipping_uses_colours_in_turn(leds, rest, colors);
        match locs[0] {
            None => {},
            Some(i) => {
                if colors.len() == 0 {
                    assert(named.take(k) =~= Seq::<Option<usize>>::empty());
                } else {
                    let next = leds.update(i as int, colors[0]);
                    let tail = colors.drop_first();
                    law_paint_skipping_uses_colours_in_turn(next, rest, tail);
                    let nr = named_leds(rest);
                    let k2 = vstd::math::min(nr.len() as int, tail.len() as int);
                    assert(named == seq![locs[0]] + nr);
                    assert(k == k2 + 1);
                    let taken = named.take(k);
                    assert(taken.len() > 0 && taken[0] == Some(i));
                    assert(taken.drop_first() =~= nr.take(k2));
                }
            },
        }
    }
}

/// Moving a stretch forward by `by` succeeds exactly when the moved stretch still ends within its
/// parent (one that ends on the parent's last point still fits); the moved stretch keeps its data,
/// parent and length, and its offset and start grow by `by`.
pub proof fn law_linear_shift_add<T, U: Linear + Subspace>(range: LinearRange<T, U>, by: usize)
    where U::Parent: Linear + Copy
    requires
        range.shift_add_fits(by),
    ensures
        range.spec_shift_add(by) is Some <==> range.spec_projection().spec_len() + by
            + range.spec_projection().spec_offset() <= range.spec_projection().spec_parent().spec_len(),
        range.spec_shift_add(by) matches Some(moved) ==> moved.spec_data() == range.spec_data()
            && moved.spec_start() == range.spec_start() + by
            && moved.spec_projection().spec_parent() == range.spec_projection().spec_parent()
            && moved.spec_projection().spec_offset() == range.spec_projection().spec_offset() + by
            && moved.spec_projection().spec_len() == range.spec_projection().spec_len(),
{
}

/// Moving a stretch back by `by` succeeds exactly when its start is at least `by`; the moved
/// stretch keeps its data, parent and length, and its offset and start shrink by `by`.
pub proof fn law_linear_shift_sub<T, U: Linear + Subspace>(range: LinearRange<T, U>, by: usize)
    where U::Parent: Linear + Copy
    requires
        range.shift_sub_fits(by),
    ensures
        range.spec_shift_sub(by) is Some <==> range.spec_start() >= by,
        range.spec_shift_sub(by) matches Some(moved) ==> moved.spec_data() == range.spec_data()
            && moved.spec_start() == range.spec_start() - by
            && moved.spec_projection().spec_parent() == range.spec_projection().spec_parent()
            && moved.spec_projection().spec_offset() == range.spec_projection().spec_offset() - by
            && moved.spec_projection().spec_len() == range.spec_projection().spec_len(),
{
}

/// Moving a rectangle forward by `by` succeeds exactly when it has a known size and the moved
/// rectangle stays within every known extent of its parent (one that ends on the parent's edge
/// still fits); the moved rectangle keeps its data, parent and size, and its offset and start grow
/// by `by`.
pub proof fn law_cartesian_shift_add<T, U: Cartesian2d + Subspace>(range: CartesianRange<T, U>, by: (u8, u8))
    where U::Parent: Cartesian2d + Copy
    requires
        range.shift_add_fits(by),
    ensures
        ({
            let sp = range.spec_projection();
            let parent = sp.spec_parent();
            let offset = sp.spec_offset();
            &&& range.spec_shift_add(by) is Some <==> (sp.spec_width() is Some && sp.spec_height() is Some
                && (parent.spec_width() matches Some(w) ==> sp.spec_width().unwrap() + by.0 + offset.0 <= w)
                && (parent.spec_height() matches Some(h) ==> sp.spec_height().unwrap() + by.1 + offset.1 <= h))
            &&& range.spec_shift_add(by) matches Some(moved) ==> moved.spec_data() == range.spec_data()
                && moved.spec_start().0 == range.spec_start().0 + by.0
                && moved.spec_start().1 == range.spec_start().1 + by.1
                && moved.spec_projection().spec_parent() == parent
                && moved.spec_projection().spec_offset().0 == offset.0 + by.0
                && moved.spec_projection().spec_offset().1 == offset.1 + by.1
                && moved.spec_projection().spec_width() == sp.spec_width()
                && moved.spec_projection().spec_height() == sp.spec_height()
        }),
{
}

/// Moving a rectangle back by `by` succeeds exactly when it has a known size and its start is at
/// least `by` on both axes; the moved rectangle keeps its data, parent and size, and its offset and
/// start shrink by `by`.
pub proof fn law_cartesian_shift_sub<T, U: Cartesian2d + Subspace>(range: CartesianRange<T, U>, by: (u8, u8))
    where U::Parent: Cartesian2d + Copy
    requires
        range.shift_sub_fits(by),
    ensures
        ({
            let sp = range.spec_projection();
            let offset = sp.spec_offset();
            &&& range.spec_shift_sub(by) is Some <==> (sp.spec_width() is Some && sp.spec_height() is Some
                && range.spec_start().0 >= by.0 && range.spec_start().1 >= by.1)
            &&& range.spec_shift_sub(by) matches Some(moved) ==> moved.spec_data() == range.spec_data()
                && moved.spec_start().0 == range.spec_start().0 - by.0
                && moved.spec_start().1 == range.spec_start().1 - by.1
                && moved.spec_projection().spec_parent() == sp.spec_parent()
                && moved.spec_projection().spec_offset().0 == offset.0 - by.0
                && moved.spec_projection().spec_offset().1 == offset.1 - by.1
                && moved.spec_projection().spec_width() == sp.spec_width()
                && moved.spec_projection().spec_height() == sp.spec_height()
        }),
{
}

/// A rectangle cut out of a space fits exactly when its end is known and not before its start,
/// and it reaches past no known extent of the space: its end lies within the width and the height
/// where they are known.
pub proof fn law_rectangle_within_extent(start: (u8, u8), end: Option<(u8, u8)>, width: Option<u8>, height: Option<u8>)
    ensures
        rectangle_fits(start, end, width, height) <==> (end is Some && start.0 <= end.unwrap().0
            && start.1 <= end.unwrap().1 && (width matches Some(w) ==> end.unwrap().0 <= w)
            && (height matches Some(h) ==> end.unwrap().1 <= h)),
{
}

/// Moving a range forward and then back by the same amount restores its start, offset, length
/// and parent.
pub proof fn law_linear_shift_round_trip<T, U: Linear + Subspace>(range: LinearRange<T, U>, by: usize)
    where U::Parent: Linear + Copy
    requires
        range.shift_add_fits(by),
        range.spec_shift_add(by) is Some,
    ensures
        range.spec_shift_add(by).unwrap().shift_sub_fits(by),
        range.spec_shift_add(by).unwrap().spec_shift_sub(by) matches Some(back) && back.spec_start()
            == range.spec_start() && back.spec_data() == range.spec_data()
            && back.spec_projection().spec_parent() == range.spec_projection().spec_parent()
            && back.spec_projection().spec_offset() == range.spec_projection().spec_offset()
            && back.spec_projection().spec_len() == range.spec_projection().spec_len(),
{
}

/// Moving a rectangle forward and then back by the same amount restores its start, offset, size
/// and parent.
pub proof fn law_cartesian_shift_round_trip<T, U: Cartesian2d + Subspace>(range: CartesianRange<T, U>, by: (u8, u8))
    where U::Parent: Cartesian2d + Copy
    requires
        range.shift_add_fits(by),
        range.spec_shift_add(by) is Some,
    ensures
        range.spec_shift_add(by).unwrap().shift_sub_fits(by),
        range.spec_shift_add(by).unwrap().spec_shift_sub(by) matches Some(back) && back.spec_start()
            == range.spec_start() && back.spec_data() == range.spec_data()
            && back.spec_projection().spec_parent() == range.spec_projection().spec_parent()
            && back.spec_projection().spec_offset() == range.spec_projection().spec_offset()
            && back.spec_projection().spec_width() == range.spec_projection().spec_width()
            && back.spec_projection().spec_height() == range.spec_projection().spec_height(),
{
}

/// After a successful `fill`, every cell of the rectangle reads back the colour.
pub proof fn law_fill_then_get<S: Spatial>(s: S, color: [u8; 3], x: u8, y: u8)
    where S::Space: Cartesian2d
    requires
        s.wf(),
        grid_fill_succeeds(s),
        s.spec_space().spec_width() matches Some(w) && x < w,
        s.spec_space().spec_height() matches Some(h) && y < h,
        forall|c| (#[trigger] s.spec_locate(c)) matches Some(i) ==> i < s.spec_leds().len(),
    ensures
        s.spec_locate((x, y)) matches Some(i) && grid_fill(s, color)[i as int] == color,
{
    let w = s.spec_space().spec_width().unwrap();
    let h = s.spec_space().spec_height().unwrap();
    let locs = grid_locs(s, w as nat, h as nat);
    let j = x * h + y;
    assert(j < w * h) by (nonlinear_arith)
        requires
            j == x * h + y,
            x < w,
            y < h,
    ;
    vstd::arithmetic::div_mod::lemma_fundamental_div_mod_converse(j, h as int, x as int, y as int);
    assert(locs[j] == s.spec_locate((x, y)));
    assert forall|k: int| 0 <= k <= j implies (#[trigger] locs[k]) is Some by {
        assert(grid_locs(s, w as nat, h as nat)[k] is Some);
    }
    assert forall|k: int| 0 <= k < locs.len() && locs[k] is Some implies (#[trigger] locs[k]).unwrap()
        < s.spec_leds().len() by {
        assert(locs[k] == s.spec_locate(((k / h as int) as u8, (k % h as int) as u8)));
    }
    assert(locs.len() == (w * h) as nat);
    lemma_paint_uniform(s.spec_leds(), locs, color, j);
}

} // verus!

verus! {

/// Painting leaves alone every LED that no entry before the first gap names.
pub proof fn lemma_paint_untouched(leds: Seq<[u8; 3]>, locs: Seq<Option<usize>>, colors: Seq<[u8; 3]>, i: int)
    requires
        0 <= i < leds.len(),
        forall|k: int| 0 <= k < locs.len() && locs[k] is Some ==> (#[trigger] locs[k]).unwrap() != i,
        forall|k: int| 0 <= k < locs.len() && locs[k] is Some ==> (#[trigger] locs[k]).unwrap() < leds.len(),
    ensures
        paint(leds, locs, colors)[i] == leds[i],
        paint(leds, locs, colors).len() == leds.len(),
    decreases locs.len(),
{
    if locs.len() > 0 {
        if let Some(l) = locs[0] {
            let next = leds.update(l as int, colors[0]);
            let rest = locs.drop_first();
            assert forall|k: int| 0 <= k < rest.len() && rest[k] is Some implies (#[trigger] rest[k]).unwrap()
                != i && rest[k].unwrap() < next.len() by {
                assert(rest[k] == locs[k + 1]);
            }
            lemma_paint_untouched(next, rest, colors.drop_first(), i);
        }
    }
}

} // verus!

verus! {

/// The cell of a switchback grid of `stride` columns that holds LED `index`: its row counts
/// `stride` LEDs at a time, and its column runs backwards on every other row.
pub fn switchback_cell(index: usize, stride: usize) -> (r: (usize, usize))
    requires
        stride > 0,
    ensures
        r.1 == index / stride,
        r.0 == if (index / stride) % 2 == 0 {
            (index % stride) as int
        } else {
            stride - 1 - index % stride
        },
        r.0 < stride,
{
    let y = index / stride;
    let x = if y % 2 == 0 {
        index % stride
    } else {
        stride - 1 - index % stride
    };
    (x, y)
}

/// Finding the cell of an LED and then the LED of that cell gives back the LED.
pub proof fn law_switchback_cell_round_trip(index: int, stride: int)
    requires
        index >= 0,
        stride > 0,
    ensures
        ({
            let y = index / stride;
            let x = if y % 2 == 0 {
                index % stride
            } else {
                stride - 1 - index % stride
            };
            0 <= x < stride && switchback_index(stride, x, y) == index
        }),
{
    vstd::arithmetic::div_mod::lemma_fundamental_div_mod(index, stride);
    let y = index / stride;
    let r = index % stride;
    assert((y + 1) * stride == y * stride + stride) by (nonlinear_arith);
    assert(y * stride == stride * y) by (nonlinear_arith);
}

} // verus!

verus! {

/// Painting keeps the number of LEDs.
pub proof fn lemma_paint_len(leds: Seq<[u8; 3]>, locs: Seq<Option<usize>>, colors: Seq<[u8; 3]>)
    requires
        forall|k: int| 0 <= k < locs.len() && locs[k] is Some ==> (#[trigger] locs[k]).unwrap() < leds.len(),
    ensures
        paint(leds, locs, colors).len() == leds.len(),
    decreases locs.len(),
{
    if locs.len() > 0 {
        if let Some(l) = locs[0] {
            let next = leds.update(l as int, colors[0]);
            let rest = locs.drop_first();
            assert forall|k: int| 0 <= k < rest.len() && rest[k] is Some implies (#[trigger] rest[k]).unwrap()
                < next.len() by {
                assert(rest[k] == locs[k + 1]);
            }
            lemma_paint_len(next, rest, colors.drop_first());
        }
    }
}

} // verus!
