//! The rules for one cell: where it looks, and what becomes of it and of the
//! cell it looks at.

use vstd::prelude::*;
use crate::entity::{Entity, Lifeform, FISH_REPRODUCE_RATE, SHARK_REPRODUCE_RATE};

verus! {

/// What one cell's turn leaves in the cell itself (`here`) and in its target
/// (`there`).
#[derive(Debug, Clone, Copy, PartialEq, Eq, Structural)]
pub struct Outcome {
    pub here: Entity,
    pub there: Entity,
}

/// One step along an axis of extent `dim` from `pos`: forward stops at the
/// last index, backward stops at 0, and neither wraps around.
pub open spec fn spec_step_along(pos: int, dim: int, forward: bool, backward: bool) -> int {
    if forward {
        if pos + 1 < dim {
            pos + 1
        } else {
            pos
        }
    } else if backward && pos > 0 {
        pos - 1
    } else {
        pos
    }
}

/// Takes one step along an axis, staying inside `0..dim`.
pub fn step_along(pos: usize, dim: usize, forward: bool, backward: bool) -> (next: usize)
    requires
        pos < dim,
    ensures
        next == spec_step_along(pos as int, dim as int, forward, backward),
        next < dim,
{
    let moved: usize = if forward {
        pos + 1
    } else if backward && pos > 0 {
        pos - 1
    } else {
        pos
    };
    if moved >= dim {
        moved - 1
    } else {
        moved
    }
}

/// A fish's turn. Its counter goes up by one. At the threshold it resets to
/// 0, the fish stays, and an empty target receives a copy. Below the
/// threshold the fish moves into an empty target and otherwise stays.
pub open spec fn fish_turn(cur: Entity, tgt: Entity) -> Outcome {
    let counter = cur.value + 1;
    if counter >= FISH_REPRODUCE_RATE {
        let parent = Entity { value: 0, value2: cur.value2, form: Lifeform::Fish };
        Outcome { here: parent, there: if tgt.form is Empty { parent } else { tgt } }
    } else {
        let grown = Entity { value: counter as i32, value2: cur.value2, form: Lifeform::Fish };
        if tgt.form is Empty {
            Outcome { here: Entity::vacant(), there: grown }
        } else {
            Outcome { here: grown, there: tgt }
        }
    }
}

/// A shark's energy after its turn: one more when it eats a fish, one less
/// otherwise.
pub open spec fn shark_energy(cur: Entity, tgt: Entity) -> int {
    if tgt.form is Fish {
        cur.value + 1
    } else {
        cur.value - 1
    }
}

/// A shark's turn. It ages by one and moves unless its target holds a shark.
/// With no energy left its own cell is emptied and nothing more happens.
/// Otherwise, at the age threshold, its age resets and it stands in both
/// cells; below the threshold it is where its move took it.
pub open spec fn shark_turn(cur: Entity, tgt: Entity) -> Outcome {
    let energy = shark_energy(cur, tgt);
    let aged = Entity { value: energy as i32, value2: (cur.value2 + 1) as i32, form: Lifeform::Shark };
    let moves = !(tgt.form is Shark);
    if energy <= 0 {
        Outcome { here: Entity::vacant(), there: if moves { aged } else { tgt } }
    } else if aged.value2 >= SHARK_REPRODUCE_RATE {
        let parent = Entity { value: aged.value, value2: 0, form: Lifeform::Shark };
        Outcome { here: parent, there: parent }
    } else if moves {
        Outcome { here: Entity::vacant(), there: aged }
    } else {
        Outcome { here: aged, there: tgt }
    }
}

/// The counters that the turn touches stay within `i32`: a fish's counter
/// and a shark's age can go up by one, and a shark's energy can take the
/// step that its target calls for.
pub open spec fn turn_fits(cur: Entity, tgt: Entity) -> bool {
    match cur.form {
        Lifeform::Empty => true,
        Lifeform::Fish => cur.value < i32::MAX,
        Lifeform::Shark => cur.value2 < i32::MAX && i32::MIN <= shark_energy(cur, tgt) <= i32::MAX,
    }
}

/// The turn of a cell holding `cur` whose target holds `tgt`. Where the
/// target is the cell itself, `tgt` is `cur` and `here` is what the cell
/// holds afterwards.
pub open spec fn spec_resolve(cur: Entity, tgt: Entity) -> Outcome {
    match cur.form {
        Lifeform::Empty => Outcome { here: cur, there: tgt },
        Lifeform::Fish => fish_turn(cur, tgt),
        Lifeform::Shark => shark_turn(cur, tgt),
    }
}

/// Plays the turn of a cell holding `cur` against a target holding `tgt`.
#[verifier::when_used_as_spec(spec_resolve)]
pub fn resolve(cur: Entity, tgt: Entity) -> (out: Outcome)
    requires
        turn_fits(cur, tgt),
    ensures
        out == spec_resolve(cur, tgt),
{
    let mut entity = cur;
    match cur.form {
        Lifeform::Shark => {
            entity.value2 = entity.value2 + 1;
            let mut here = entity;
            let mut there = tgt;
            match tgt.form {
                Lifeform::Empty => {
                    entity.value = entity.value - 1;
                    there = entity;
                    here = Entity::new(Lifeform::Empty, 0);
                },
                Lifeform::Fish => {
                    entity.value = entity.value + 1;
                    there = entity;
                    here = Entity::new(Lifeform::Empty, 0);
                },
                Lifeform::Shark => {
                    entity.value = entity.value - 1;
                    here = entity;
                },
            }
            if entity.value <= 0 {
                return Outcome { here: Entity::new(Lifeform::Empty, 0), there };
            }
            if entity.value2 >= SHARK_REPRODUCE_RATE {
                entity.value2 = 0;
                here = entity;
                there = entity;
            }
            Outcome { here, there }
        },
        Lifeform::Fish => {
            entity.value = entity.value + 1;
            if entity.value >= FISH_REPRODUCE_RATE {
                entity.value = 0;
                let there = match tgt.form {
                    Lifeform::Empty => entity,
                    _ => tgt,
                };
                return Outcome { here: entity, there };
            }
            match tgt.form {
                Lifeform::Empty => Outcome { here: Entity::new(Lifeform::Empty, 0), there: entity },
                _ => Outcome { here: entity, there: tgt },
            }
        },
        Lifeform::Empty => Outcome { here: cur, there: tgt },
    }
}

} // verus!
