//! Integer 2D and 3D vectors with component-wise arithmetic.
use vstd::prelude::*;

verus! {

/// A pair of components.
#[derive(Debug, Clone, Copy, PartialEq, Eq, Hash, Default)]
pub struct Vec2<T>(pub T, pub T);

/// A triple of components.
#[derive(Debug, Clone, Copy, PartialEq, Eq, Hash, Default)]
pub struct Vec3<T>(pub T, pub T, pub T);

/// True when `v` fits in an `i32`.
pub open spec fn fits_i32(v: int) -> bool {
    i32::MIN <= v <= i32::MAX
}

impl Vec3<i32> {
    /// Component-wise sum.
    pub fn add(&self, other: &Self) -> (r: Self)
        requires
            fits_i32(self.0 + other.0),
            fits_i32(self.1 + other.1),
            fits_i32(self.2 + other.2),
        ensures
            r.0 == self.0 + other.0,
            r.1 == self.1 + other.1,
            r.2 == self.2 + other.2,
    {
        Vec3(self.0 + other.0, self.1 + other.1, self.2 + other.2)
    }

    /// Component-wise difference.
    pub fn sub(&self, other: &Self) -> (r: Self)
        requires
            fits_i32(self.0 - other.0),
            fits_i32(self.1 - other.1),
            fits_i32(self.2 - other.2),
        ensures
            r.0 == self.0 - other.0,
            r.1 == self.1 - other.1,
            r.2 == self.2 - other.2,
    {
        Vec3(self.0 - other.0, self.1 - other.1, self.2 - other.2)
    }

    /// Overwrites every component with those of `other`.
    pub fn copy(&mut self, other: &Self) -> (r: &Self)
        ensures
            *final(self) == *other,
            *r == *other,
    {
        self.0 = other.0;
        self.1 = other.1;
        self.2 = other.2;
        self
    }

    /// Sets the three components.
    pub fn set(&mut self, x: i32, y: i32, z: i32) -> (r: &Self)
        ensures
            *final(self) == Vec3(x, y, z),
            *r == Vec3(x, y, z),
    {
        self.0 = x;
        self.1 = y;
        self.2 = z;
        self
    }

    /// Every component multiplied by `scale`.
    pub fn scale(&self, scale: i32) -> (r: Self)
        requires
            fits_i32(self.0 * scale),
            fits_i32(self.1 * scale),
            fits_i32(self.2 * scale),
        ensures
            r.0 == self.0 * scale,
            r.1 == self.1 * scale,
            r.2 == self.2 * scale,
    {
        Vec3(self.0 * scale, self.1 * scale, self.2 * scale)
    }

    /// `self + other * scale`, component-wise.
    pub fn scale_and_add(&self, other: &Self, scale: i32) -> (r: Self)
        requires
            fits_i32(other.0 * scale),
            fits_i32(other.1 * scale),
            fits_i32(other.2 * scale),
            fits_i32(self.0 + other.0 * scale),
            fits_i32(self.1 + other.1 * scale),
            fits_i32(self.2 + other.2 * scale),
        ensures
            r.0 == self.0 + other.0 * scale,
            r.1 == self.1 + other.1 * scale,
            r.2 == self.2 + other.2 * scale,
    {
        Vec3(self.0 + other.0 * scale, self.1 + other.1 * scale, self.2 + other.2 * scale)
    }
}

} // verus!
