//! Comparison within a tolerance.
use vstd::prelude::*;

verus! {

/// The distance between two integers.
pub open spec fn dist(a: int, b: int) -> int {
    if a >= b {
        a - b
    } else {
        b - a
    }
}

/// Quantities that can be compared within a tolerance.
pub trait ApproxEq: Sized + Copy {
    /// The quantity as an integer.
    spec fn value(self) -> int;

    /// How far apart `self` and `other` are.
    fn abs_diff(self, other: Self) -> (r: Self)
        ensures
            r.value() == dist(self.value(), other.value()),
    ;

    /// Whether `self` and `other` are closer than `tolerance`.
    fn approx_eq(self, other: Self, tolerance: Self) -> (r: bool)
        ensures
            r == (dist(self.value(), other.value()) < tolerance.value()),
    ;
}

impl ApproxEq for u32 {
    open spec fn value(self) -> int {
        self as int
    }

    fn abs_diff(self, other: Self) -> (r: Self) {
        if self >= other {
            self - other
        } else {
            other - self
        }
    }

    fn approx_eq(self, other: Self, tolerance: Self) -> (r: bool) {
        ApproxEq::abs_diff(self, other) < tolerance
    }
}

impl ApproxEq for u64 {
    open spec fn value(self) -> int {
        self as int
    }

    fn abs_diff(self, other: Self) -> (r: Self) {
        if self >= other {
            self - other
        } else {
            other - self
        }
    }

    fn approx_eq(self, other: Self, tolerance: Self) -> (r: bool) {
        ApproxEq::abs_diff(self, other) < tolerance
    }
}

impl ApproxEq for usize {
    open spec fn value(self) -> int {
        self as int
    }

    fn abs_diff(self, other: Self) -> (r: Self) {
        if self >= other {
            self - other
        } else {
            other - self
        }
    }

    fn approx_eq(self, other: Self, tolerance: Self) -> (r: bool) {
        ApproxEq::abs_diff(self, other) < tolerance
    }
}

/// Whether `a` and `b` are closer than `tolerance`.
pub fn approx_eq<T: ApproxEq>(a: T, b: T, tolerance: T) -> (r: bool)
    ensures
        r == (dist(a.value(), b.value()) < tolerance.value()),
{
    a.approx_eq(b, tolerance)
}

} // verus!
