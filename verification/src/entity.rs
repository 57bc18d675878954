//! The contents of one cell, and the constants of the rules.

use vstd::prelude::*;

verus! {

/// Extent of the reference world along x.
pub const DIM_X: usize = 35;

/// Extent of the reference world along y.
pub const DIM_Y: usize = 35;

/// Extent of the reference world along z.
pub const DIM_Z: usize = 35;

/// Energy a shark is created with.
pub const SHARK_STARVE_RATE: i32 = 4;

/// Age at which a surviving shark reproduces.
pub const SHARK_REPRODUCE_RATE: i32 = 3;

/// Counter value at which a fish reproduces.
pub const FISH_REPRODUCE_RATE: i32 = 3;

/// World generation draws from `0..WORLD_GEN_RNG_MAX`.
pub const WORLD_GEN_RNG_MAX: i32 = 10;

/// Direction draws come from `DIRECTION_MIN..DIRECTION_END`.
pub const DIRECTION_MIN: i32 = 1;

/// One past the last direction draw.
pub const DIRECTION_END: i32 = 7;

/// What occupies a cell.
#[derive(Debug, Clone, Copy, PartialEq, Eq, Structural)]
pub enum Lifeform {
    Shark,
    Fish,
    Empty,
}

/// One cell of the world.
///
/// For a shark `value` is its energy and `value2` its age since it last
/// reproduced. For a fish `value` is its reproduction counter and `value2`
/// is carried along untouched. An empty cell made by the rules has both at 0.
#[derive(Debug, Clone, Copy, PartialEq, Eq, Structural)]
pub struct Entity {
    pub value: i32,
    pub value2: i32,
    pub form: Lifeform,
}

impl Entity {
    /// An entity of the given form with `value` as given and `value2` at 0.
    pub open spec fn spec_new(form: Lifeform, value: i32) -> Entity {
        Entity { value, value2: 0, form }
    }

    /// The empty cell that the rules leave behind.
    pub open spec fn vacant() -> Entity {
        Entity::spec_new(Lifeform::Empty, 0)
    }

    /// Both counters lie at least `n` away from the ends of `i32`.
    pub open spec fn has_headroom(self, n: int) -> bool {
        &&& i32::MIN + n <= self.value <= i32::MAX - n
        &&& i32::MIN + n <= self.value2 <= i32::MAX - n
    }

    /// The cell is empty, or its first counter is not negative.
    pub open spec fn energy_nonnegative(self) -> bool {
        self.form is Empty || self.value >= 0
    }

    /// The cell holds no fish, or a fish whose counter is below the
    /// threshold at which it reproduces and not negative.
    pub open spec fn fish_counter_in_range(self) -> bool {
        self.form is Fish ==> 0 <= self.value < FISH_REPRODUCE_RATE
    }

    #[verifier::when_used_as_spec(spec_new)]
    pub fn new(form: Lifeform, value: i32) -> (e: Entity)
        ensures
            e == Entity::spec_new(form, value),
    {
        Entity { value, value2: 0, form }
    }

    /// What world generation puts in a cell for the draw `r`.
    pub open spec fn spec_spawn(r: i32) -> Entity {
        if r == 0 {
            Entity::spec_new(Lifeform::Fish, 0)
        } else if r == 1 {
            Entity::spec_new(Lifeform::Shark, SHARK_STARVE_RATE)
        } else {
            Entity::vacant()
        }
    }

    /// The cell that world generation makes of one draw: a fish for 0, a
    /// shark with its starting energy for 1, nothing for any other number.
    #[verifier::when_used_as_spec(spec_spawn)]
    pub fn spawn(r: i32) -> (e: Entity)
        ensures
            e == Entity::spec_spawn(r),
    {
        if r == 0 {
            Entity::new(Lifeform::Fish, 0)
        } else if r == 1 {
            Entity::new(Lifeform::Shark, SHARK_STARVE_RATE)
        } else {
            Entity::new(Lifeform::Empty, 0)
        }
    }
}

} // verus!
