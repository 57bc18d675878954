//! The world driven by a random source: generation and the tick, with the
//! numbers drawn from the thread's generator.

use vstd::prelude::*;
use rand::rngs::ThreadRng;
use rand::Rng;
use crate::entity::{DIRECTION_END, DIRECTION_MIN, WORLD_GEN_RNG_MAX};
use crate::grid::{lemma_headroom_fits, Grid};
use crate::world::World;

verus! {

/// `rand::rngs::ThreadRng`, the handle to the thread's generator. Nothing is
/// known of its state.
#[verifier::external_type_specification]
#[verifier::external_body]
pub struct ExThreadRng(rand::rngs::ThreadRng);

/// Calls `rand::Rng::gen_range` on the half-open range `low..high`. The
/// contract claims only that the number lies in the range; which number it is
/// differs from call to call. `gen_range` panics on an empty range, which the
/// precondition leaves out.
#[verifier::external_body]
fn sample_range(rng: &mut ThreadRng, low: i32, high: i32) -> (r: i32)
    requires
        low < high,
    ensures
        low <= r < high,
{
    rng.gen_range(low..high)
}

/// Every number of `draws` lies in `low..high`.
pub open spec fn all_within(draws: Seq<i32>, low: int, high: int) -> bool {
    forall|i: int| 0 <= i < draws.len() ==> low <= #[trigger] draws[i] < high
}

/// Draws `n` numbers from `low..high`, in the order in which they are used.
fn sample_many(rng: &mut ThreadRng, n: usize, low: i32, high: i32) -> (draws: Vec<i32>)
    requires
        low < high,
    ensures
        draws@.len() == n,
        all_within(draws@, low as int, high as int),
{
    let mut draws: Vec<i32> = Vec::new();
    while draws.len() < n
        invariant
            low < high,
            draws@.len() <= n,
            all_within(draws@, low as int, high as int),
        decreases n - draws.len(),
    {
        let r = sample_range(rng, low, high);
        draws.push(r);
    }
    draws
}

/// `after` is what world generation makes of `before` for some draws from
/// `0..WORLD_GEN_RNG_MAX`.
pub open spec fn is_scramble_of(after: Grid, before: Grid, draws: Seq<i32>) -> bool {
    &&& draws.len() == before.volume()
    &&& all_within(draws, 0, WORLD_GEN_RNG_MAX as int)
    &&& after == before.populate(draws)
}

/// `after` is `before` one tick later for some directions from
/// `DIRECTION_MIN..DIRECTION_END`.
pub open spec fn is_update_of(after: Grid, before: Grid, draws: Seq<i32>) -> bool {
    &&& draws.len() == before.volume()
    &&& all_within(draws, DIRECTION_MIN as int, DIRECTION_END as int)
    &&& after == before.tick(draws)
}

/// Fills the world anew: each cell independently becomes a fish with one
/// chance in ten, a shark with one in ten, and is empty otherwise.
pub fn scramble_map(world: &mut World, rng: &mut ThreadRng)
    requires
        old(world)@.wf(),
    ensures
        final(world)@.wf(),
        final(world)@.same_shape(old(world)@),
        exists|draws: Seq<i32>| is_scramble_of(final(world)@, old(world)@, draws),
{
    let draws = sample_many(rng, world.volume(), 0, WORLD_GEN_RNG_MAX);
    world.populate(draws.as_slice());
    assert(is_scramble_of(world@, old(world)@, draws@));
}

/// Advances the world by one tick, with a direction drawn for every cell.
pub fn update(map: &mut World, rng: &mut ThreadRng)
    requires
        old(map)@.wf(),
        old(map)@.has_headroom(old(map)@.volume() as int),
    ensures
        final(map)@.wf(),
        final(map)@.same_shape(old(map)@),
        exists|draws: Seq<i32>| is_update_of(final(map)@, old(map)@, draws),
{
    let draws = sample_many(rng, map.volume(), DIRECTION_MIN, DIRECTION_END);
    proof {
        lemma_headroom_fits(map@, draws@);
    }
    map.tick(draws.as_slice());
    assert(is_update_of(map@, old(map)@, draws@));
}

} // verus!
