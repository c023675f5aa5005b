//! A simple 2D integer vector based on `i8`.

use vstd::prelude::*;

verus! {

/// Relies on rand::random: a fresh draw of the requested type. Nothing can
/// be promised of a random value, so this carries no `ensures`.
pub assume_specification<T>[ rand::random::<T> ]() -> (r: T)
    where
        rand::distr::StandardUniform: rand::distr::Distribution<T>,
;

/// A 2D integer coordinate. The range covers every position the engine
/// needs, including positions one step outside the 8x8 grid.
#[derive(Debug, Clone, Copy, PartialEq, Eq, Structural)]
pub struct I8Vec2 {
    pub x: i8,
    pub y: i8,
}

impl I8Vec2 {
    /// Create a new vector.
    pub fn new(x: i8, y: i8) -> (r: Self)
        ensures
            r == (I8Vec2 { x, y }),
    {
        Self { x, y }
    }

    /// Whether the coordinate lies inside the 8x8 grid.
    pub open spec fn spec_in_grid(self) -> bool {
        0 <= self.x < 8 && 0 <= self.y < 8
    }

    /// Whether the coordinate lies inside the 8x8 grid.
    pub fn in_grid(&self) -> (r: bool)
        ensures
            r == self.spec_in_grid(),
    {
        self.x >= 0 && self.x < 8 && self.y >= 0 && self.y < 8
    }

    /// A uniformly random in-grid coordinate.
    pub fn random() -> (r: Self)
        ensures
            r.spec_in_grid(),
    {
        let x: u64 = rand::random::<u64>();
        let y: u64 = rand::random::<u64>();
        Self::new((x % 8) as i8, (y % 8) as i8)
    }

    /// Componentwise sum.
    pub fn add(self, rhs: Self) -> (r: Self)
        requires
            i8::MIN <= self.x + rhs.x <= i8::MAX,
            i8::MIN <= self.y + rhs.y <= i8::MAX,
        ensures
            r.x == self.x + rhs.x,
            r.y == self.y + rhs.y,
    {
        Self { x: self.x + rhs.x, y: self.y + rhs.y }
    }

    /// Componentwise difference.
    pub fn sub(self, rhs: Self) -> (r: Self)
        requires
            i8::MIN <= self.x - rhs.x <= i8::MAX,
            i8::MIN <= self.y - rhs.y <= i8::MAX,
        ensures
            r.x == self.x - rhs.x,
            r.y == self.y - rhs.y,
    {
        Self { x: self.x - rhs.x, y: self.y - rhs.y }
    }
}

} // verus!
