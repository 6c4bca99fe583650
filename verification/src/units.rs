//! Tick-based scalar units and the integer plane.
//!
//! All quantities are integers on one fixed scale: `SEC` ticks make a second
//! and `DOT` scalar units make one unit of distance. Executable vectors hold
//! 64-bit coordinates; their contracts are stated over `Vector`, the same
//! plane with unbounded coordinates.

use vstd::prelude::*;

verus! {

pub type Time = i64;

pub type Duration = i64;

pub type Scalar = i64;

/// Ticks in one second.
pub const SEC: Time = 65536;

/// The shortest time anything that ought to be seen stays visible: a sixteenth of a second.
pub const MOMENT: Time = 4096;

/// The distance covered in one second at a velocity of one.
pub const DOT: Scalar = 65536;

/// Whether an unbounded integer can be held in a `Scalar`.
pub open spec fn fits(v: int) -> bool {
    i64::MIN <= v <= i64::MAX
}

/// Integer division that rounds toward zero, for any non-zero divisor.
pub open spec fn trunc_div(a: int, b: int) -> int {
    if a >= 0 {
        a / b
    } else {
        -((-a) / b)
    }
}

/// A vector of the plane with unbounded integer coordinates.
pub struct Vector {
    pub x: int,
    pub y: int,
}

impl Vector {
    pub open spec fn zero() -> Vector {
        Vector { x: 0, y: 0 }
    }

    pub open spec fn plus(self, other: Vector) -> Vector {
        Vector { x: self.x + other.x, y: self.y + other.y }
    }

    pub open spec fn minus(self, other: Vector) -> Vector {
        Vector { x: self.x - other.x, y: self.y - other.y }
    }

    pub open spec fn negated(self) -> Vector {
        Vector { x: -self.x, y: -self.y }
    }

    pub open spec fn scaled(self, k: int) -> Vector {
        Vector { x: self.x * k, y: self.y * k }
    }

    /// Both coordinates divided by `k`, each rounded toward zero.
    pub open spec fn shrunk(self, k: int) -> Vector {
        Vector { x: trunc_div(self.x, k), y: trunc_div(self.y, k) }
    }

    /// Whether both coordinates can be held in a `Vec2`.
    pub open spec fn fits(self) -> bool {
        fits(self.x) && fits(self.y)
    }

    /// Whether `k` divides both coordinates without remainder.
    pub open spec fn divisible_by(self, k: int) -> bool {
        self.x % k == 0 && self.y % k == 0
    }
}

#[derive(Clone, Copy, Debug, PartialEq, Eq, Structural)]
pub struct Vec2 {
    pub x: Scalar,
    pub y: Scalar,
}

pub type Position = Vec2;

pub type Displacement = Vec2;

pub type Velocity = Vec2;

impl View for Vec2 {
    type V = Vector;

    open spec fn view(&self) -> Vector {
        Vector { x: self.x as int, y: self.y as int }
    }
}

/// The quotient of two scalars, rounded toward zero.
pub fn quotient(a: Scalar, b: Scalar) -> (q: Scalar)
    requires
        b != 0,
        !(a == i64::MIN && b == -1),
    ensures
        q == trunc_div(a as int, b as int),
{
    proof {
        if a >= 0 {
            assert(fits((a as int) / (b as int))) by (nonlinear_arith)
                requires
                    0 <= a <= i64::MAX,
                    b != 0,
                    i64::MIN <= b <= i64::MAX,
            ;
        } else {
            assert(fits(-((-(a as int)) / (b as int)))) by (nonlinear_arith)
                requires
                    i64::MIN <= a < 0,
                    b != 0,
                    i64::MIN <= b <= i64::MAX,
                    !(a == i64::MIN && b == -1),
            ;
        }
    }
    a / b
}

impl Vec2 {
    /// The origin, and the displacement that moves nothing.
    pub fn zero() -> (v: Vec2)
        ensures
            v@ == Vector::zero(),
    {
        Vec2 { x: 0, y: 0 }
    }

    /// Whether `self + rhs` stays within the coordinates' range.
    pub open spec fn can_add(self, rhs: Vec2) -> bool {
        self@.plus(rhs@).fits()
    }

    /// The sum as a `Vec2`; meaningful where `can_add(rhs)`.
    pub open spec fn plus(self, rhs: Vec2) -> Vec2 {
        Vec2 { x: (self.x + rhs.x) as i64, y: (self.y + rhs.y) as i64 }
    }

    /// Whether `self - rhs` stays within the coordinates' range.
    pub open spec fn can_sub(self, rhs: Vec2) -> bool {
        self@.minus(rhs@).fits()
    }

    /// The difference as a `Vec2`; meaningful where `can_sub(rhs)`.
    pub open spec fn minus(self, rhs: Vec2) -> Vec2 {
        Vec2 { x: (self.x - rhs.x) as i64, y: (self.y - rhs.y) as i64 }
    }

    /// The difference, or nothing where it leaves the coordinates' range.
    pub fn try_sub(self, rhs: Vec2) -> (difference: Option<Vec2>)
        ensures
            self.can_sub(rhs) ==> difference == Some(self.minus(rhs)),
            !self.can_sub(rhs) ==> difference.is_none(),
    {
        let x = self.x.checked_sub(rhs.x)?;
        let y = self.y.checked_sub(rhs.y)?;
        Some(Vec2 { x, y })
    }

    /// Whether `-self` stays within the coordinates' range.
    pub open spec fn can_neg(self) -> bool {
        self@.negated().fits()
    }

    /// Whether `self * k` stays within the coordinates' range.
    pub open spec fn can_mul(self, k: Scalar) -> bool {
        self@.scaled(k as int).fits()
    }

    /// Whether `self / k` is defined and stays within the coordinates' range.
    pub open spec fn can_div(self, k: Scalar) -> bool {
        k != 0 && (k == -1 ==> self.x != i64::MIN && self.y != i64::MIN)
    }
}

impl core::ops::AddAssign<Vec2> for Vec2 {
    fn add_assign(&mut self, rhs: Vec2)
        requires
            old(self).can_add(rhs),
        ensures
            final(self)@ == old(self)@.plus(rhs@),
    {
        self.x = self.x + rhs.x;
        self.y = self.y + rhs.y;
    }
}

impl core::ops::Add<Vec2> for Vec2 {
    type Output = Vec2;

    fn add(self, rhs: Vec2) -> (sum: Vec2)
        ensures
            sum@ == self@.plus(rhs@),
            sum == self.plus(rhs),
    {
        Vec2 { x: self.x + rhs.x, y: self.y + rhs.y }
    }
}

impl vstd::std_specs::ops::AddSpecImpl<Vec2> for Vec2 {
    open spec fn obeys_add_spec() -> bool {
        true
    }

    open spec fn add_req(self, rhs: Vec2) -> bool {
        self.can_add(rhs)
    }

    open spec fn add_spec(self, rhs: Vec2) -> Vec2 {
        self.plus(rhs)
    }
}

impl core::ops::Neg for Vec2 {
    type Output = Vec2;

    fn neg(self) -> (opposite: Vec2)
        ensures
            opposite@ == self@.negated(),
    {
        Vec2 { x: -self.x, y: -self.y }
    }
}

impl vstd::std_specs::ops::NegSpecImpl for Vec2 {
    open spec fn obeys_neg_spec() -> bool {
        true
    }

    open spec fn neg_req(self) -> bool {
        self.can_neg()
    }

    open spec fn neg_spec(self) -> Vec2 {
        Vec2 { x: (-self.x) as i64, y: (-self.y) as i64 }
    }
}

impl core::ops::SubAssign<Vec2> for Vec2 {
    fn sub_assign(&mut self, rhs: Vec2)
        requires
            old(self).can_sub(rhs),
        ensures
            final(self)@ == old(self)@.minus(rhs@),
    {
        self.x = self.x - rhs.x;
        self.y = self.y - rhs.y;
    }
}

impl core::ops::Sub<Vec2> for Vec2 {
    type Output = Vec2;

    fn sub(self, rhs: Vec2) -> (difference: Vec2)
        ensures
            difference@ == self@.minus(rhs@),
            difference == self.minus(rhs),
    {
        Vec2 { x: self.x - rhs.x, y: self.y - rhs.y }
    }
}

impl vstd::std_specs::ops::SubSpecImpl<Vec2> for Vec2 {
    open spec fn obeys_sub_spec() -> bool {
        true
    }

    open spec fn sub_req(self, rhs: Vec2) -> bool {
        self.can_sub(rhs)
    }

    open spec fn sub_spec(self, rhs: Vec2) -> Vec2 {
        self.minus(rhs)
    }
}

impl core::ops::MulAssign<Scalar> for Vec2 {
    fn mul_assign(&mut self, rhs: Scalar)
        requires
            old(self).can_mul(rhs),
        ensures
            final(self)@ == old(self)@.scaled(rhs as int),
    {
        self.x = self.x * rhs;
        self.y = self.y * rhs;
    }
}

impl core::ops::Mul<Scalar> for Vec2 {
    type Output = Vec2;

    fn mul(self, k: Scalar) -> (product: Vec2)
        ensures
            product@ == self@.scaled(k as int),
    {
        Vec2 { x: self.x * k, y: self.y * k }
    }
}

impl vstd::std_specs::ops::MulSpecImpl<Scalar> for Vec2 {
    open spec fn obeys_mul_spec() -> bool {
        true
    }

    open spec fn mul_req(self, k: Scalar) -> bool {
        self.can_mul(k)
    }

    open spec fn mul_spec(self, k: Scalar) -> Vec2 {
        Vec2 { x: (self.x * k) as i64, y: (self.y * k) as i64 }
    }
}

impl core::ops::Mul<Vec2> for Scalar {
    type Output = Vec2;

    fn mul(self, v: Vec2) -> (product: Vec2)
        ensures
            product@ == v@.scaled(self as int),
    {
        v * self
    }
}

impl vstd::std_specs::ops::MulSpecImpl<Vec2> for Scalar {
    open spec fn obeys_mul_spec() -> bool {
        true
    }

    open spec fn mul_req(self, v: Vec2) -> bool {
        v.can_mul(self)
    }

    open spec fn mul_spec(self, v: Vec2) -> Vec2 {
        Vec2 { x: (v.x * self) as i64, y: (v.y * self) as i64 }
    }
}

impl core::ops::DivAssign<Scalar> for Vec2 {
    fn div_assign(&mut self, rhs: Scalar)
        requires
            old(self).can_div(rhs),
        ensures
            final(self)@ == old(self)@.shrunk(rhs as int),
    {
        self.x = quotient(self.x, rhs);
        self.y = quotient(self.y, rhs);
    }
}

impl core::ops::Div<Scalar> for Vec2 {
    type Output = Vec2;

    fn div(self, rhs: Scalar) -> (ratio: Vec2)
        ensures
            ratio@ == self@.shrunk(rhs as int),
    {
        Vec2 { x: quotient(self.x, rhs), y: quotient(self.y, rhs) }
    }
}

impl vstd::std_specs::ops::DivSpecImpl<Scalar> for Vec2 {
    open spec fn obeys_div_spec() -> bool {
        true
    }

    open spec fn div_req(self, rhs: Scalar) -> bool {
        self.can_div(rhs)
    }

    open spec fn div_spec(self, rhs: Scalar) -> Vec2 {
        Vec2 {
            x: trunc_div(self.x as int, rhs as int) as i64,
            y: trunc_div(self.y as int, rhs as int) as i64,
        }
    }
}

} // verus!
