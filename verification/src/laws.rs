//! What holds of the rules, whatever the world and whatever is drawn.

use vstd::prelude::*;
use crate::entity::{Entity, Lifeform, FISH_REPRODUCE_RATE, SHARK_REPRODUCE_RATE};
use crate::grid::{
    lemma_coords_in_range, lemma_index_in_range, lemma_sweep_headroom, lemma_sweep_wf,
    lemma_turn_at, Grid,
};
use crate::rules::{shark_energy, spec_resolve};

verus! {

/// No cell of the grid holds a fish or a shark with a negative first
/// counter.
pub open spec fn energies_nonnegative(g: Grid) -> bool {
    forall|k: int| 0 <= k < g.cells.len() ==> (#[trigger] g.cells[k]).energy_nonnegative()
}

/// Every fish of the grid has its counter in `0..FISH_REPRODUCE_RATE`.
pub open spec fn fish_counters_in_range(g: Grid) -> bool {
    forall|k: int| 0 <= k < g.cells.len() ==> (#[trigger] g.cells[k]).fish_counter_in_range()
}

/// The cell at `(x, y, z)` holds a shark without energy that is about to
/// move into an empty cell: the one turn that takes a first counter below 0.
pub open spec fn strands(g: Grid, x: int, y: int, z: int, draw: i32) -> bool {
    let (tx, ty, tz) = g.target(x, y, z, draw);
    &&& g.at(x, y, z).form is Shark
    &&& g.at(x, y, z).value == 0
    &&& g.at(tx, ty, tz).form is Empty
}

/// No turn of the tick strands a shark.
pub open spec fn never_strands(g: Grid, draws: Seq<i32>) -> bool {
    forall|k: nat|
        k < g.volume() ==> {
            let (x, y, z) = g.coords(k as int);
            !strands(#[trigger] g.sweep(draws, k), x, y, z, draws[k as int])
        }
}

/// A tick keeps the shape of the world: afterwards there is again exactly
/// one cell, of one of the three forms, for each position.
pub proof fn lemma_tick_keeps_shape(g: Grid, draws: Seq<i32>)
    requires
        g.wf(),
    ensures
        g.tick(draws).wf(),
        g.tick(draws).same_shape(g),
{
    lemma_sweep_wf(g, draws, g.volume());
}

/// A tick moves each counter by at most the number of cells, so a world
/// with room for several ticks has room for one less afterwards.
pub proof fn lemma_tick_headroom(g: Grid, draws: Seq<i32>, n: int)
    requires
        g.wf(),
        n >= 0,
        g.has_headroom(n + g.volume()),
    ensures
        g.tick(draws).has_headroom(n),
{
    lemma_sweep_headroom(g, draws, g.volume(), n);
}

/// One turn keeps every fish counter in `0..FISH_REPRODUCE_RATE`.
pub proof fn lemma_turn_keeps_fish_counters(g: Grid, x: int, y: int, z: int, draw: i32)
    requires
        g.wf(),
        g.contains(x, y, z),
        fish_counters_in_range(g),
    ensures
        fish_counters_in_range(g.turn(x, y, z, draw)),
{
    let (tx, ty, tz) = g.target(x, y, z, draw);
    lemma_index_in_range(g, x, y, z);
    lemma_index_in_range(g, tx, ty, tz);
    let cur = g.at(x, y, z);
    let tgt = g.at(tx, ty, tz);
    assert(cur.fish_counter_in_range());
    assert(tgt.fish_counter_in_range());
    let after = g.turn(x, y, z, draw);
    assert forall|k: int| 0 <= k < after.cells.len() implies (#[trigger] after.cells[k]).fish_counter_in_range() by {
        assert(g.cells[k].fish_counter_in_range());
    }
}

/// A tick keeps every fish counter in `0..FISH_REPRODUCE_RATE`: no fish is
/// ever left with a negative counter or with one at the threshold.
pub proof fn lemma_tick_keeps_fish_counters(g: Grid, draws: Seq<i32>)
    requires
        g.wf(),
        fish_counters_in_range(g),
    ensures
        fish_counters_in_range(g.tick(draws)),
{
    lemma_sweep_keeps_fish_counters(g, draws, g.volume());
}

proof fn lemma_sweep_keeps_fish_counters(g: Grid, draws: Seq<i32>, k: nat)
    requires
        g.wf(),
        k <= g.volume(),
        fish_counters_in_range(g),
    ensures
        fish_counters_in_range(g.sweep(draws, k)),
    decreases k,
{
    if k > 0 {
        let i = (k - 1) as nat;
        lemma_sweep_keeps_fish_counters(g, draws, i);
        lemma_sweep_wf(g, draws, i);
        lemma_coords_in_range(g, i as int);
        let (x, y, z) = g.coords(i as int);
        lemma_turn_keeps_fish_counters(g.sweep(draws, i), x, y, z, draws[i as int]);
    }
}

/// One turn leaves no fish or shark with a negative first counter where
/// there was none before, unless it strands a shark: a shark with energy 0
/// that moves into an empty cell arrives there with energy -1.
pub proof fn lemma_turn_keeps_energies(g: Grid, x: int, y: int, z: int, draw: i32)
    requires
        g.wf(),
        g.contains(x, y, z),
        g.turn_fits(x, y, z, draw),
        energies_nonnegative(g),
        !strands(g, x, y, z, draw),
    ensures
        energies_nonnegative(g.turn(x, y, z, draw)),
{
    let (tx, ty, tz) = g.target(x, y, z, draw);
    lemma_index_in_range(g, x, y, z);
    lemma_index_in_range(g, tx, ty, tz);
    let cur = g.at(x, y, z);
    let tgt = g.at(tx, ty, tz);
    assert(cur.energy_nonnegative());
    assert(tgt.energy_nonnegative());
    let after = g.turn(x, y, z, draw);
    assert forall|k: int| 0 <= k < after.cells.len() implies (#[trigger] after.cells[k]).energy_nonnegative() by {
        assert(g.cells[k].energy_nonnegative());
    }
}

/// A tick in which no shark is stranded leaves no fish or shark with a
/// negative first counter where there was none before.
pub proof fn lemma_tick_keeps_energies(g: Grid, draws: Seq<i32>)
    requires
        g.wf(),
        g.sweep_fits(draws),
        energies_nonnegative(g),
        never_strands(g, draws),
    ensures
        energies_nonnegative(g.tick(draws)),
{
    lemma_sweep_keeps_energies(g, draws, g.volume());
}

proof fn lemma_sweep_keeps_energies(g: Grid, draws: Seq<i32>, k: nat)
    requires
        g.wf(),
        k <= g.volume(),
        g.sweep_fits(draws),
        energies_nonnegative(g),
        never_strands(g, draws),
    ensures
        energies_nonnegative(g.sweep(draws, k)),
    decreases k,
{
    if k > 0 {
        let i = (k - 1) as nat;
        lemma_sweep_keeps_energies(g, draws, i);
        lemma_sweep_wf(g, draws, i);
        lemma_coords_in_range(g, i as int);
        let (x, y, z) = g.coords(i as int);
        lemma_turn_keeps_energies(g.sweep(draws, i), x, y, z, draws[i as int]);
    }
}

/// A shark whose energy after its turn is 0 or less leaves its cell empty
/// in that same turn. Where its target held a shark, nothing else changes.
/// Where it did not, the shark has moved, and stands in the target with the
/// energy it has left.
pub proof fn lemma_starved_shark_vacates(g: Grid, x: int, y: int, z: int, draw: i32)
    requires
        g.wf(),
        g.contains(x, y, z),
        g.at(x, y, z).form is Shark,
        g.turn_fits(x, y, z, draw),
        ({
            let (tx, ty, tz) = g.target(x, y, z, draw);
            shark_energy(g.at(x, y, z), g.at(tx, ty, tz)) <= 0
        }),
    ensures
        ({
            let (tx, ty, tz) = g.target(x, y, z, draw);
            let cur = g.at(x, y, z);
            let tgt = g.at(tx, ty, tz);
            let after = g.turn(x, y, z, draw);
            &&& after.at(x, y, z) == Entity::vacant()
            &&& tgt.form is Shark && (tx, ty, tz) != (x, y, z) ==> after.at(tx, ty, tz) == tgt
            &&& !(tgt.form is Shark) ==> after.at(tx, ty, tz) == (Entity {
                value: shark_energy(cur, tgt) as i32,
                value2: (cur.value2 + 1) as i32,
                form: Lifeform::Shark,
            })
        }),
{
    let (tx, ty, tz) = g.target(x, y, z, draw);
    lemma_turn_at(g, x, y, z, draw, x, y, z);
    lemma_turn_at(g, x, y, z, draw, tx, ty, tz);
}

/// A fish whose counter reaches the threshold stays where it is with its
/// counter at 0. An empty target receives a second fish with counter 0, and
/// any other target is left as it was.
pub proof fn lemma_fish_reproduces(g: Grid, x: int, y: int, z: int, draw: i32)
    requires
        g.wf(),
        g.contains(x, y, z),
        g.at(x, y, z).form is Fish,
        g.at(x, y, z).value + 1 >= FISH_REPRODUCE_RATE,
    ensures
        ({
            let (tx, ty, tz) = g.target(x, y, z, draw);
            let tgt = g.at(tx, ty, tz);
            let after = g.turn(x, y, z, draw);
            let parent = Entity { value: 0, value2: g.at(x, y, z).value2, form: Lifeform::Fish };
            &&& after.at(x, y, z) == parent
            &&& tgt.form is Empty ==> after.at(tx, ty, tz) == parent
            &&& !(tgt.form is Empty) && (tx, ty, tz) != (x, y, z) ==> after.at(tx, ty, tz) == tgt
        }),
{
    let (tx, ty, tz) = g.target(x, y, z, draw);
    lemma_turn_at(g, x, y, z, draw, x, y, z);
    lemma_turn_at(g, x, y, z, draw, tx, ty, tz);
}

/// A shark that reaches the age threshold with energy left stands, with its
/// age back at 0, both in its own cell and in its target, whatever the
/// target held.
pub proof fn lemma_shark_reproduces(g: Grid, x: int, y: int, z: int, draw: i32)
    requires
        g.wf(),
        g.contains(x, y, z),
        g.at(x, y, z).form is Shark,
        g.turn_fits(x, y, z, draw),
        g.at(x, y, z).value2 + 1 >= SHARK_REPRODUCE_RATE,
        ({
            let (tx, ty, tz) = g.target(x, y, z, draw);
            shark_energy(g.at(x, y, z), g.at(tx, ty, tz)) > 0
        }),
    ensures
        ({
            let (tx, ty, tz) = g.target(x, y, z, draw);
            let after = g.turn(x, y, z, draw);
            let parent = Entity {
                value: shark_energy(g.at(x, y, z), g.at(tx, ty, tz)) as i32,
                value2: 0,
                form: Lifeform::Shark,
            };
            &&& after.at(x, y, z) == parent
            &&& after.at(tx, ty, tz) == parent
        }),
{
    let (tx, ty, tz) = g.target(x, y, z, draw);
    lemma_turn_at(g, x, y, z, draw, x, y, z);
    lemma_turn_at(g, x, y, z, draw, tx, ty, tz);
}

/// The target never leaves the grid. At index 0 of an axis the step
/// backward along it ends on the cell itself, and so does the step forward
/// at the last index; everywhere else the step goes one cell along that
/// axis and leaves the other two alone.
pub proof fn lemma_target_at_boundary(g: Grid, x: int, y: int, z: int, draw: i32)
    requires
        g.contains(x, y, z),
    ensures
        ({
            let (tx, ty, tz) = g.target(x, y, z, draw);
            &&& g.contains(tx, ty, tz)
            &&& draw == 4 && x == 0 ==> (tx, ty, tz) == (x, y, z)
            &&& draw == 2 && y == 0 ==> (tx, ty, tz) == (x, y, z)
            &&& draw == 6 && z == 0 ==> (tx, ty, tz) == (x, y, z)
            &&& draw == 3 && x == g.dim_x - 1 ==> (tx, ty, tz) == (x, y, z)
            &&& draw == 1 && y == g.dim_y - 1 ==> (tx, ty, tz) == (x, y, z)
            &&& draw == 5 && z == g.dim_z - 1 ==> (tx, ty, tz) == (x, y, z)
            &&& draw == 4 && x > 0 ==> (tx, ty, tz) == (x - 1, y, z)
            &&& draw == 2 && y > 0 ==> (tx, ty, tz) == (x, y - 1, z)
            &&& draw == 6 && z > 0 ==> (tx, ty, tz) == (x, y, z - 1)
            &&& draw == 3 && x < g.dim_x - 1 ==> (tx, ty, tz) == (x + 1, y, z)
            &&& draw == 1 && y < g.dim_y - 1 ==> (tx, ty, tz) == (x, y + 1, z)
            &&& draw == 5 && z < g.dim_z - 1 ==> (tx, ty, tz) == (x, y, z + 1)
            &&& !(1 <= draw <= 6) ==> (tx, ty, tz) == (x, y, z)
        }),
{
}

/// After world generation every position holds what its own draw makes:
/// a fish with counter 0, a shark with its starting energy, or nothing.
pub proof fn lemma_populate_at(g: Grid, draws: Seq<i32>, x: int, y: int, z: int)
    requires
        g.wf(),
        g.contains(x, y, z),
    ensures
        g.populate(draws).wf(),
        g.populate(draws).at(x, y, z) == Entity::spec_spawn(draws[g.index(x, y, z)]),
{
    lemma_index_in_range(g, x, y, z);
}

/// World generation keeps nothing of the world it is given: two worlds of
/// one shape come out alike for the same draws.
pub proof fn lemma_populate_forgets(g: Grid, h: Grid, draws: Seq<i32>)
    requires
        g.same_shape(h),
    ensures
        g.populate(draws) == h.populate(draws),
{
    assert(g.volume() == h.volume());
    assert(g.populate(draws).cells =~= h.populate(draws).cells);
}

} // verus!
