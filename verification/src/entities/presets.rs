//! The grenade as it is cast among entities that know their space.

use vstd::prelude::*;
use std::rc::Rc;
use crate::charms::Cast;
use crate::forms::effects::{BoltCast, Circle, Effect, SmokeCast};
use crate::units::{Scalar, DOT, MOMENT, SEC};

verus! {

/// The colour of a bolt in flight: a dark green.
pub struct BoltEffect;

impl BoltEffect {
    pub open spec fn hue() -> [u8; 4] {
        [0x00u8, 0x33u8, 0x00u8, 0xFFu8]
    }
}

impl Effect for BoltEffect {
    fn color(&self) -> (c: [u8; 4])
        ensures
            c == BoltEffect::hue(),
    {
        [0x00, 0x33, 0x00, 0xFF]
    }
}

/// The colour of a cloud of smoke: amber.
pub struct SmokeEffect;

impl SmokeEffect {
    pub open spec fn hue() -> [u8; 4] {
        [0xFFu8, 0xCCu8, 0x00u8, 0xFFu8]
    }
}

impl Effect for SmokeEffect {
    fn color(&self) -> (c: [u8; 4])
        ensures
            c == SmokeEffect::hue(),
    {
        [0xFF, 0xCC, 0x00, 0xFF]
    }
}

/// The grenade, as a value.
pub open spec fn spec_grenade() -> Cast {
    Cast::Bolt(
        BoltCast {
            shape: Circle { color: BoltEffect::hue(), radius: (7 * DOT) as Scalar },
            duration: SEC,
            action: Rc::new(
                Cast::Smoke(
                    SmokeCast {
                        shape: Circle { color: SmokeEffect::hue(), radius: (150 * DOT) as Scalar },
                        duration: (3 * MOMENT) as i64,
                    },
                ),
            ),
        },
    )
}

/// A grenade: a dark bolt, seven dots in radius, that flies for a second and
/// leaves amber smoke, a hundred and fifty dots in radius, for three moments.
pub fn grenade() -> (cast: Rc<Cast>)
    ensures
        *cast == spec_grenade(),
{
    let smoke = SmokeCast {
        shape: Circle { color: SmokeEffect.color(), radius: 150 * DOT },
        duration: 3 * MOMENT,
    };
    let bolt = BoltCast {
        shape: Circle { color: BoltEffect.color(), radius: 7 * DOT },
        duration: 1 * SEC,
        action: Rc::new(Cast::Smoke(smoke)),
    };
    Rc::new(Cast::Bolt(bolt))
}

} // verus!
