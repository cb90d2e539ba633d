//! Ticks, by which changes are detected.

use vstd::prelude::*;

verus! {

/// The largest age of a change that is detected.
pub const MAX_CHANGE_AGE: u32 = 3_258_167_296;

/// A point in time. Ticks wrap around.
#[derive(Clone, Copy, Debug, PartialEq, Eq, Structural)]
pub struct Tick(pub u32);

impl Tick {
    /// The tick that is as old as a change that is detected can be.
    #[verifier::allow_in_spec]
    pub fn max() -> Self
        returns
            Tick(MAX_CHANGE_AGE),
    {
        Tick(MAX_CHANGE_AGE)
    }

    /// How long ago another tick was.
    pub open spec fn age_of(self, other: Tick) -> Tick {
        Tick(((self.0 - other.0) % 0x1_0000_0000) as u32)
    }

    /// Returns how long ago another tick was.
    pub fn relative_to(self, other: Tick) -> (age: Tick)
        ensures
            age == self.age_of(other),
    {
        Tick(self.0.wrapping_sub(other.0))
    }

    /// The tick, or the oldest one for which changes are detected if it is older.
    pub open spec fn clamped(self, now: Tick) -> Tick {
        if now.age_of(self).0 > MAX_CHANGE_AGE {
            now.age_of(Tick::max())
        } else {
            self
        }
    }

    /// Wraps this tick if it has become too old. Returns whether it had.
    pub fn check_tick(&mut self, now: Tick) -> (wrapped: bool)
        ensures
            wrapped == (now.age_of(*old(self)).0 > MAX_CHANGE_AGE),
            *final(self) == old(self).clamped(now),
    {
        let age = now.relative_to(*self);
        if age.0 > MAX_CHANGE_AGE {
            *self = now.relative_to(Tick::max());
            true
        } else {
            false
        }
    }
}

/// A tick that has been checked is not too old.
pub proof fn checked_tick_is_recent(tick: Tick, now: Tick)
    ensures
        now.age_of(tick.clamped(now)).0 <= MAX_CHANGE_AGE,
        tick.clamped(now).clamped(now) == tick.clamped(now),
{
    if now.age_of(tick).0 > MAX_CHANGE_AGE {
        let oldest = now.age_of(Tick::max());
        assert(now.age_of(oldest).0 == MAX_CHANGE_AGE);
    }
}

/// The age of a tick is how many ticks it takes from it to now, where ticks start again at 0.
pub proof fn age_leads_from_then_to_now(now: Tick, then: Tick)
    ensures
        now.0 >= then.0 ==> now.age_of(then).0 == now.0 - then.0,
        now.0 < then.0 ==> now.age_of(then).0 == now.0 + 0x1_0000_0000 - then.0,
{
}

/// A tick that is not too old stays, and one that is too old gets the largest age that is not.
pub proof fn only_old_ticks_are_wrapped(tick: Tick, now: Tick)
    ensures
        now.age_of(tick).0 <= MAX_CHANGE_AGE ==> tick.clamped(now) == tick,
        now.age_of(tick).0 > MAX_CHANGE_AGE ==> now.age_of(tick.clamped(now)).0 == MAX_CHANGE_AGE,
        MAX_CHANGE_AGE == u32::MAX - (2 * 518_400_000 - 1),
{
}

} // verus!
