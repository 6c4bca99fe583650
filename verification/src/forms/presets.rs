//! Casts ready for use: the grenade and the cluster grenade.

use vstd::prelude::*;
use std::rc::Rc;
use crate::charms::Cast;
use crate::forms::effects::{BoltCast, Circle, ClusterCast, Effect, SmokeCast};
use crate::units::{Displacement, Scalar, DOT, MOMENT, SEC};

verus! {

/// The colour of a bolt in flight: white.
pub struct BoltEffect;

impl BoltEffect {
    pub open spec fn hue() -> [u8; 4] {
        [0xFFu8, 0xFFu8, 0xFFu8, 0xFFu8]
    }
}

impl Effect for BoltEffect {
    fn color(&self) -> (c: [u8; 4])
        ensures
            c == BoltEffect::hue(),
    {
        [0xFF, 0xFF, 0xFF, 0xFF]
    }
}

/// The colour of a cloud of smoke: the one it was mixed with, opaque.
pub struct SmokeEffect {
    pub col: [u8; 3],
}

impl SmokeEffect {
    pub open spec fn hue(self) -> [u8; 4] {
        [self.col[0], self.col[1], self.col[2], 0xFFu8]
    }
}

impl Effect for SmokeEffect {
    fn color(&self) -> (c: [u8; 4])
        ensures
            c == self.hue(),
    {
        [self.col[0], self.col[1], self.col[2], 0xFF]
    }
}

/// The bolt that every preset rides on, as a value.
pub open spec fn spec_bolt(action: Rc<Cast>) -> Cast {
    Cast::Bolt(
        BoltCast {
            shape: Circle { color: BoltEffect::hue(), radius: (7 * DOT) as Scalar },
            duration: SEC,
            action,
        },
    )
}

/// The smoke that a grenade leaves, as a value.
pub open spec fn spec_smoke(smoke: [u8; 3], radius: Scalar) -> Cast {
    Cast::Smoke(
        SmokeCast {
            shape: Circle { color: (SmokeEffect { col: smoke }).hue(), radius },
            duration: (3 * MOMENT) as i64,
        },
    )
}

/// A white bolt, seven dots in radius, that flies for a second and then
/// casts `action`.
fn bolt(action: Rc<Cast>) -> (cast: Rc<Cast>)
    ensures
        *cast == spec_bolt(action),
{
    let color = BoltEffect.color();
    let radius = 7 * DOT;
    let shape = Circle { color, radius };

    let duration = 1 * SEC;

    let bolt_val = BoltCast { shape, duration, action };
    Rc::new(Cast::Bolt(bolt_val))
}

/// A grenade: a bolt that leaves smoke of the given colour and radius, which
/// clears after three moments.
pub fn grenade(smoke: [u8; 3], radius: Scalar) -> (cast: Rc<Cast>)
    ensures
        *cast == spec_bolt(Rc::new(spec_smoke(smoke, radius))),
{
    let smoke_effect = SmokeEffect { col: smoke };
    let color = smoke_effect.color();
    let shape = Circle { color, radius };
    let duration = 3 * MOMENT;

    let smoke_val = SmokeCast { shape, duration };
    let smoke = Rc::new(Cast::Smoke(smoke_val));

    bolt(smoke)
}

/// A cluster grenade: a bolt that casts every one of `actions` when it
/// lands, each at its own offset.
pub fn cluster_grenade(actions: Vec<(Displacement, Rc<Cast>)>) -> (cast: Rc<Cast>)
    ensures
        *cast == spec_bolt(Rc::new(Cast::Cluster(ClusterCast { actions }))),
{
    let cluster_val = ClusterCast { actions };
    let cluster = Rc::new(Cast::Cluster(cluster_val));

    bolt(cluster)
}

} // verus!
