//! Bodies that move in straight lines.
//!
//! A body is a line in time: a position it had at one moment and the velocity
//! it has kept since. Where it is at any other moment, earlier or later, is
//! read off that line, so nothing is integrated step by step and no error
//! builds up.

use vstd::prelude::*;
use vstd::arithmetic::div_mod::lemma_fundamental_div_mod;
use crate::units::{fits, trunc_div, Duration, Position, Time, Vec2, Vector, Velocity};

verus! {

#[derive(Clone, Copy, Debug, PartialEq, Eq, Structural)]
pub struct Body {
    pub last_position: Position,
    pub current_velocity: Velocity,
    pub last_time: Time,
}

impl Body {
    /// Where the body is at time `t`, on the unbounded plane.
    pub open spec fn position_at(self, t: int) -> Vector {
        self.last_position@.plus(self.current_velocity@.scaled(t - self.last_time))
    }

    /// Whether the position at `now` can be computed in 64-bit arithmetic:
    /// the elapsed time, the displacement and the position itself all fit.
    pub open spec fn reaches(self, now: Time) -> bool {
        &&& fits(now - self.last_time)
        &&& self.current_velocity@.scaled(now - self.last_time).fits()
        &&& self.position_at(now as int).fits()
    }

    /// The position at `now` as a `Vec2`; meaningful where `reaches(now)`.
    pub open spec fn spec_position(self, now: Time) -> Position {
        Vec2 { x: self.position_at(now as int).x as i64, y: self.position_at(now as int).y as i64 }
    }

    /// A body at rest at `position`.
    pub open spec fn spec_new_frozen(position: Position) -> Body {
        Body { last_position: position, current_velocity: Vec2 { x: 0, y: 0 }, last_time: 0 }
    }

    /// Whether the velocity from `start` to `end` over `travel_time` can be
    /// computed in 64-bit arithmetic. Nothing is computed for a zero time.
    pub open spec fn can_aim(start: Position, end: Position, travel_time: Duration) -> bool {
        travel_time != 0 ==> end.can_sub(start) && (travel_time == -1 ==> end.x - start.x
            != i64::MIN && end.y - start.y != i64::MIN)
    }

    /// The body that leaves `start` at `start_time` toward `end`: its velocity
    /// is the displacement divided by `travel_time`, rounded toward zero. With
    /// no time to travel it rests at `end`.
    pub open spec fn spec_with_end_point(
        start: Position,
        end: Position,
        start_time: Time,
        travel_time: Duration,
    ) -> Body {
        if travel_time != 0 {
            Body {
                last_position: start,
                current_velocity: Vec2 {
                    x: trunc_div(end.x - start.x, travel_time as int) as i64,
                    y: trunc_div(end.y - start.y, travel_time as int) as i64,
                },
                last_time: start_time,
            }
        } else {
            Body::spec_new_frozen(end)
        }
    }

    /// The body that continues from where `self` is at `now` with another velocity.
    pub open spec fn spec_split(self, velocity: Velocity, now: Time) -> Body {
        Body { last_position: self.spec_position(now), current_velocity: velocity, last_time: now }
    }

    /// Whether the body that continues from where `self` is at `now` toward
    /// `end_point`, to arrive at `end_time`, can be computed.
    pub open spec fn can_aim_from(self, end_point: Vec2, now: Time, end_time: Time) -> bool {
        &&& self.reaches(now)
        &&& fits(end_time - now)
        &&& Body::can_aim(self.spec_position(now), end_point, (end_time - now) as i64)
    }

    /// The body that continues from where `self` is at `now` toward
    /// `end_point`, to arrive at `end_time`.
    pub open spec fn spec_split_to(self, end_point: Vec2, now: Time, end_time: Time) -> Body {
        Body::spec_with_end_point(self.spec_position(now), end_point, now, (end_time - now) as i64)
    }

    pub fn new(position: Position, velocity: Velocity, time: Time) -> (body: Body)
        ensures
            body == (Body { last_position: position, current_velocity: velocity, last_time: time }),
    {
        Body { last_position: position, current_velocity: velocity, last_time: time }
    }

    pub fn with_end_point(
        start: Position,
        end: Position,
        start_time: Time,
        travel_time: Duration,
    ) -> (body: Body)
        requires
            Body::can_aim(start, end, travel_time),
        ensures
            body == Body::spec_with_end_point(start, end, start_time, travel_time),
    {
        if travel_time != 0 {
            Body {
                last_position: start,
                current_velocity: (end - start) / travel_time,
                last_time: start_time,
            }
        } else {
            Body::new_frozen(end)
        }
    }

    pub fn new_frozen(position: Position) -> (body: Body)
        ensures
            body == Body::spec_new_frozen(position),
    {
        Body { last_position: position, current_velocity: Vec2::zero(), last_time: 0 }
    }

    pub fn position(&self, now: Time) -> (place: Position)
        requires
            self.reaches(now),
        ensures
            place@ == self.position_at(now as int),
            place == self.spec_position(now),
    {
        let dtime = now - self.last_time;
        let displacement = self.current_velocity * dtime;
        self.last_position + displacement
    }

    /// Where the body is at `now`, or nothing where that cannot be computed
    /// in 64-bit arithmetic.
    pub fn try_position(&self, now: Time) -> (place: Option<Position>)
        ensures
            self.reaches(now) ==> place == Some(self.spec_position(now)),
            !self.reaches(now) ==> place.is_none(),
    {
        let dtime = now.checked_sub(self.last_time)?;
        let dx = self.current_velocity.x.checked_mul(dtime)?;
        let dy = self.current_velocity.y.checked_mul(dtime)?;
        let x = self.last_position.x.checked_add(dx)?;
        let y = self.last_position.y.checked_add(dy)?;
        Some(Vec2 { x, y })
    }

    pub fn velocity(&self) -> (velocity: Velocity)
        ensures
            velocity == self.current_velocity,
    {
        self.current_velocity
    }

    pub fn split(&self, velocity: Velocity, now: Time) -> (body: Body)
        requires
            self.reaches(now),
        ensures
            body == self.spec_split(velocity, now),
            body.position_at(now as int) == self.position_at(now as int),
    {
        let body = Body {
            last_position: self.position(now),
            current_velocity: velocity,
            last_time: now,
        };
        proof {
            lemma_split_continues(*self, velocity, now);
        }
        body
    }

    pub fn split_to(&self, end_point: Vec2, now: Time, end_time: Time) -> (body: Body)
        requires
            self.can_aim_from(end_point, now, end_time),
        ensures
            body == self.spec_split_to(end_point, now, end_time),
    {
        Body::with_end_point(self.position(now), end_point, now, end_time - now)
    }

    pub fn bounce(&mut self, velocity: Velocity, now: Time)
        requires
            old(self).reaches(now),
        ensures
            *final(self) == old(self).spec_split(velocity, now),
            final(self).position_at(now as int) == old(self).position_at(now as int),
            final(self).current_velocity == velocity,
    {
        *self = self.split(velocity, now);
    }

    pub fn bounce_to(&mut self, end_point: Vec2, now: Time, end_time: Time)
        requires
            old(self).can_aim_from(end_point, now, end_time),
        ensures
            *final(self) == old(self).spec_split_to(end_point, now, end_time),
    {
        *self = self.split_to(end_point, now, end_time);
    }

    pub fn freeze(&mut self, now: Time)
        requires
            old(self).reaches(now),
        ensures
            *final(self) == old(self).spec_split(Vec2 { x: 0, y: 0 }, now),
            forall|t: int| #[trigger] final(self).position_at(t) == old(self).position_at(now as int),
    {
        self.bounce(Vec2 { x: 0, y: 0 }, now);
        proof {
            let rest = *self;
            assert forall|t: int| #[trigger] rest.position_at(t) == rest.position_at(now as int) by {
                lemma_frozen_stays(rest, t);
                lemma_frozen_stays(rest, now as int);
            }
        }
    }
}

/// Extrapolation is linear: between any two times the body moves by its
/// velocity times the time elapsed, exactly.
pub proof fn lemma_extrapolation_linear(body: Body, t1: int, t2: int)
    ensures
        body.position_at(t2).minus(body.position_at(t1)) == body.current_velocity@.scaled(t2 - t1),
{
    let v = body.current_velocity@;
    let t0 = body.last_time as int;
    assert(v.x * (t2 - t0) - v.x * (t1 - t0) == v.x * (t2 - t1)) by (nonlinear_arith);
    assert(v.y * (t2 - t0) - v.y * (t1 - t0) == v.y * (t2 - t1)) by (nonlinear_arith);
}

/// A body with no velocity is at its last position at every time.
pub proof fn lemma_frozen_stays(body: Body, t: int)
    requires
        body.current_velocity@ == Vector::zero(),
    ensures
        body.position_at(t) == body.last_position@,
{
    assert(0 * (t - body.last_time) == 0) by (nonlinear_arith);
}

/// A change of velocity does not move the body: at the moment of the change
/// the new body is where the old one was, and it has the new velocity.
pub proof fn lemma_split_continues(body: Body, velocity: Velocity, now: Time)
    requires
        body.reaches(now),
    ensures
        body.spec_split(velocity, now).position_at(now as int) == body.position_at(now as int),
        body.spec_split(velocity, now).current_velocity == velocity,
{
    let v = velocity@;
    assert(v.x * (now - now) == 0) by (nonlinear_arith);
    assert(v.y * (now - now) == 0) by (nonlinear_arith);
}

/// Dividing a multiple of `d` by `d`, rounding toward zero, loses nothing.
pub proof fn lemma_trunc_div_exact(a: int, d: int)
    requires
        d != 0,
        a % d == 0,
    ensures
        trunc_div(a, d) * d == a,
{
    if a >= 0 {
        lemma_fundamental_div_mod(a, d);
        assert((a / d) * d == d * (a / d)) by (nonlinear_arith);
    } else {
        lemma_fundamental_div_mod(a, d);
        lemma_fundamental_div_mod(-a, d);
        let q = a / d;
        let q2 = (-a) / d;
        let r2 = (-a) % d;
        let k = -q - q2;
        assert(r2 == d * k) by (nonlinear_arith)
            requires
                a == d * q,
                -a == d * q2 + r2,
                k == -q - q2,
        ;
        assert(k == 0) by (nonlinear_arith)
            requires
                d != 0,
                0 <= d * k,
                d > 0 ==> d * k < d,
                d < 0 ==> d * k < -d,
        ;
        assert((-((-a) / d)) * d == -(d * ((-a) / d))) by (nonlinear_arith);
    }
}

/// A body aimed at an end point arrives there when the travel time is up,
/// provided the time divides the displacement; otherwise the velocity was
/// rounded and the body stops short.
pub proof fn lemma_with_end_point_arrives(
    start: Position,
    end: Position,
    start_time: Time,
    travel_time: Duration,
)
    requires
        travel_time != 0,
        Body::can_aim(start, end, travel_time),
        end@.minus(start@).divisible_by(travel_time as int),
    ensures
        Body::spec_with_end_point(start, end, start_time, travel_time).position_at(
            start_time + travel_time,
        ) == end@,
{
    let d = travel_time as int;
    let dx = end.x - start.x;
    let dy = end.y - start.y;
    lemma_trunc_div_exact(dx, d);
    lemma_trunc_div_exact(dy, d);
    lemma_trunc_div_fits(dx, d);
    lemma_trunc_div_fits(dy, d);
}

/// A quotient is no larger in size than what was divided.
pub proof fn lemma_trunc_div_fits(a: int, d: int)
    requires
        d != 0,
        fits(a),
        !(a == i64::MIN && d == -1),
    ensures
        fits(trunc_div(a, d)),
{
    if a >= 0 {
        assert(fits(a / d)) by (nonlinear_arith)
            requires
                0 <= a <= i64::MAX,
                d != 0,
        ;
    } else {
        assert(fits(-((-a) / d))) by (nonlinear_arith)
            requires
                i64::MIN <= a < 0,
                d != 0,
                !(a == i64::MIN && d == -1),
        ;
    }
}

/// With no time to travel, a body aimed at an end point rests there for good.
pub proof fn lemma_with_end_point_frozen(start: Position, end: Position, start_time: Time, t: int)
    ensures
        Body::spec_with_end_point(start, end, start_time, 0).current_velocity@ == Vector::zero(),
        Body::spec_with_end_point(start, end, start_time, 0).position_at(t) == end@,
{
    lemma_frozen_stays(Body::spec_with_end_point(start, end, start_time, 0), t);
}

} // verus!
