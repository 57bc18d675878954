use wator3d::entity::{Entity, Lifeform, DIM_X, DIM_Y, DIM_Z};
use wator3d::world::World;

fn fish(value: i32) -> Entity {
    Entity::new(Lifeform::Fish, value)
}

fn shark(value: i32, value2: i32) -> Entity {
    Entity { value, value2, form: Lifeform::Shark }
}

fn empty() -> Entity {
    Entity::new(Lifeform::Empty, 0)
}

fn world(dim_x: usize, dim_y: usize, dim_z: usize) -> World {
    match World::new(dim_x, dim_y, dim_z) {
        Some(w) => w,
        None => panic!("world does not fit"),
    }
}

fn count(w: &World, form: Lifeform) -> usize {
    let mut n = 0;
    for z in 0..w.dim_z() {
        for y in 0..w.dim_y() {
            for x in 0..w.dim_x() {
                if w.get(x, y, z).form == form {
                    n += 1;
                }
            }
        }
    }
    n
}

#[test]
fn new_world_is_empty_and_has_its_extents() {
    let w = world(2, 3, 4);
    assert_eq!((w.dim_x(), w.dim_y(), w.dim_z()), (2, 3, 4));
    assert_eq!(w.volume(), 24);
    assert_eq!(count(&w, Lifeform::Empty), 24);
    assert_eq!(w.get(1, 2, 3), empty());
}

#[test]
fn reference_world_has_35_cubed_cells() {
    let w = world(DIM_X, DIM_Y, DIM_Z);
    assert_eq!(w.volume(), 42875);
}

#[test]
fn new_world_refuses_a_volume_beyond_usize() {
    assert!(World::new(usize::MAX, 2, 1).is_none());
    assert!(World::new(usize::MAX, usize::MAX, usize::MAX).is_none());
    assert!(World::new(1 << (usize::BITS / 2), 1 << (usize::BITS / 2), 1).is_none());
}

#[test]
fn new_world_with_a_zero_extent_has_no_cells() {
    let w = world(usize::MAX, usize::MAX, 0);
    assert_eq!(w.volume(), 0);
    let w = world(0, 5, 5);
    assert_eq!(w.volume(), 0);
}

#[test]
fn set_changes_one_cell_only() {
    let mut w = world(3, 3, 3);
    w.set(1, 2, 0, fish(1));
    assert_eq!(w.get(1, 2, 0), fish(1));
    assert_eq!(count(&w, Lifeform::Fish), 1);
    assert_eq!(count(&w, Lifeform::Empty), 26);
    assert_eq!(w.get(2, 1, 0), empty());
    assert_eq!(w.get(0, 1, 2), empty());
}

#[test]
fn populate_walks_x_fastest_then_y_then_z() {
    let mut w = world(2, 2, 2);
    w.populate(&[0, 1, 5, 0, 1, 9, 0, 2]);
    assert_eq!(w.get(0, 0, 0), fish(0));
    assert_eq!(w.get(1, 0, 0), shark(4, 0));
    assert_eq!(w.get(0, 1, 0), empty());
    assert_eq!(w.get(1, 1, 0), fish(0));
    assert_eq!(w.get(0, 0, 1), shark(4, 0));
    assert_eq!(w.get(1, 0, 1), empty());
    assert_eq!(w.get(0, 1, 1), fish(0));
    assert_eq!(w.get(1, 1, 1), empty());
}

#[test]
fn populate_leaves_nothing_of_the_world_before() {
    let draws_a = [0, 0, 1, 2, 3, 1];
    let draws_b = [1, 7, 7, 0, 0, 0];
    let mut w = world(3, 2, 1);
    w.populate(&draws_a);
    w.populate(&draws_b);
    let mut fresh = world(3, 2, 1);
    fresh.populate(&draws_b);
    for y in 0..2 {
        for x in 0..3 {
            assert_eq!(w.get(x, y, 0), fresh.get(x, y, 0));
        }
    }
    assert_eq!(count(&w, Lifeform::Shark), 1);
    assert_eq!(count(&w, Lifeform::Fish), 3);
    assert_eq!(count(&w, Lifeform::Empty), 2);
}

#[test]
fn target_follows_the_direction_table() {
    let w = world(5, 5, 5);
    assert_eq!(w.target(2, 2, 2, 1), (2, 3, 2));
    assert_eq!(w.target(2, 2, 2, 2), (2, 1, 2));
    assert_eq!(w.target(2, 2, 2, 3), (3, 2, 2));
    assert_eq!(w.target(2, 2, 2, 4), (1, 2, 2));
    assert_eq!(w.target(2, 2, 2, 5), (2, 2, 3));
    assert_eq!(w.target(2, 2, 2, 6), (2, 2, 1));
}

#[test]
fn target_of_an_unknown_direction_is_the_cell_itself() {
    let w = world(5, 5, 5);
    assert_eq!(w.target(2, 2, 2, 0), (2, 2, 2));
    assert_eq!(w.target(2, 2, 2, 7), (2, 2, 2));
    assert_eq!(w.target(2, 2, 2, -1), (2, 2, 2));
}

#[test]
fn minus_moves_at_index_zero_go_nowhere() {
    let w = world(DIM_X, DIM_Y, DIM_Z);
    assert_eq!(w.target(0, 7, 9, 4), (0, 7, 9));
    assert_eq!(w.target(7, 0, 9, 2), (7, 0, 9));
    assert_eq!(w.target(7, 9, 0, 6), (7, 9, 0));
}

#[test]
fn plus_moves_at_the_last_index_are_clamped() {
    let w = world(DIM_X, DIM_Y, DIM_Z);
    assert_eq!(w.target(34, 7, 9, 3), (34, 7, 9));
    assert_eq!(w.target(7, 34, 9, 1), (7, 34, 9));
    assert_eq!(w.target(7, 9, 34, 5), (7, 9, 34));
    assert_eq!(w.target(34, 34, 34, 5), (34, 34, 34));
}

#[test]
fn shark_eats_fish_along_z_in_a_1x1x3_world() {
    let mut w = world(1, 1, 3);
    w.set(0, 0, 0, Entity::new(Lifeform::Shark, 4));
    w.set(0, 0, 1, Entity::new(Lifeform::Fish, 0));
    w.turn(0, 0, 0, 5);
    assert_eq!(w.get(0, 0, 0).form, Lifeform::Empty);
    assert_eq!(w.get(0, 0, 0), empty());
    assert_eq!(w.get(0, 0, 1).form, Lifeform::Shark);
    assert_eq!(w.get(0, 0, 1).value, 5);
    assert_eq!(w.get(0, 0, 1), shark(5, 1));
    assert_eq!(w.get(0, 0, 2), empty());
}

#[test]
fn turn_of_a_cell_that_is_its_own_target() {
    let mut w = world(1, 1, 1);
    w.set(0, 0, 0, shark(4, 0));
    w.turn(0, 0, 0, 3);
    assert_eq!(w.get(0, 0, 0), shark(3, 1));
    w.turn(0, 0, 0, 4);
    assert_eq!(w.get(0, 0, 0), shark(2, 2));
    w.turn(0, 0, 0, 1);
    assert_eq!(w.get(0, 0, 0), shark(1, 0));
    w.turn(0, 0, 0, 6);
    assert_eq!(w.get(0, 0, 0), empty());
}

#[test]
fn fish_that_is_its_own_target_counts_and_resets() {
    let mut w = world(1, 1, 1);
    w.set(0, 0, 0, fish(0));
    w.turn(0, 0, 0, 2);
    assert_eq!(w.get(0, 0, 0), fish(1));
    w.turn(0, 0, 0, 2);
    assert_eq!(w.get(0, 0, 0), fish(2));
    w.turn(0, 0, 0, 2);
    assert_eq!(w.get(0, 0, 0), fish(0));
}

#[test]
fn turn_leaves_other_cells_alone() {
    let mut w = world(3, 3, 3);
    w.set(1, 1, 1, fish(0));
    w.set(0, 0, 0, shark(7, 1));
    w.set(2, 2, 2, fish(2));
    w.turn(1, 1, 1, 3);
    assert_eq!(w.get(1, 1, 1), empty());
    assert_eq!(w.get(2, 1, 1), fish(1));
    assert_eq!(w.get(0, 0, 0), shark(7, 1));
    assert_eq!(w.get(2, 2, 2), fish(2));
    assert_eq!(count(&w, Lifeform::Empty), 24);
}

#[test]
fn tick_of_an_empty_world_changes_nothing() {
    let mut w = world(2, 2, 2);
    w.tick(&[1, 2, 3, 4, 5, 6, 1, 2]);
    assert_eq!(count(&w, Lifeform::Empty), 8);
}

#[test]
fn tick_gives_a_fish_moving_ahead_of_the_sweep_more_turns() {
    let mut w = world(3, 1, 1);
    w.set(0, 0, 0, fish(0));
    w.tick(&[3, 3, 3]);
    assert_eq!(w.get(0, 0, 0), empty());
    assert_eq!(w.get(1, 0, 0), empty());
    assert_eq!(w.get(2, 0, 0), fish(0));
}

#[test]
fn tick_gives_a_fish_moving_behind_the_sweep_one_turn() {
    let mut w = world(3, 1, 1);
    w.set(2, 0, 0, fish(0));
    w.tick(&[4, 4, 4]);
    assert_eq!(w.get(0, 0, 0), empty());
    assert_eq!(w.get(1, 0, 0), fish(1));
    assert_eq!(w.get(2, 0, 0), empty());
}

#[test]
fn tick_visits_z_outermost() {
    let mut w = world(2, 2, 2);
    w.set(0, 0, 0, shark(9, 0));
    // The shark steps to z+1 on the first turn and is met again at
    // the fifth, where it steps on along y.
    w.tick(&[5, 0, 0, 0, 1, 0, 0, 0]);
    assert_eq!(w.get(0, 0, 0), empty());
    assert_eq!(w.get(0, 0, 1), empty());
    assert_eq!(w.get(0, 1, 1), shark(6, 0));
    assert_eq!(count(&w, Lifeform::Shark), 1);
}

#[test]
fn tick_in_the_1x1x3_world_replays_the_shark() {
    let mut w = world(1, 1, 3);
    w.set(0, 0, 0, shark(4, 0));
    w.set(0, 0, 1, fish(0));
    w.tick(&[5, 6, 6]);
    // Turn one: the shark eats the fish at z=1. Turn two: it steps back to
    // the empty z=0. Turn three: z=2 is empty.
    assert_eq!(w.get(0, 0, 0), shark(4, 2));
    assert_eq!(w.get(0, 0, 1), empty());
    assert_eq!(w.get(0, 0, 2), empty());
}

#[test]
fn has_headroom_measures_the_distance_to_the_ends() {
    let mut w = world(2, 1, 1);
    assert!(w.has_headroom(0));
    assert!(w.has_headroom(i32::MAX as usize));
    assert!(!w.has_headroom(i32::MAX as usize + 1));
    w.set(1, 0, 0, shark(i32::MAX - 2, 0));
    assert!(w.has_headroom(2));
    assert!(!w.has_headroom(3));
    w.set(1, 0, 0, shark(0, i32::MIN + 5));
    assert!(w.has_headroom(5));
    assert!(!w.has_headroom(6));
    w.set(1, 0, 0, fish(i32::MIN));
    assert!(w.has_headroom(0));
    assert!(!w.has_headroom(1));
}

#[test]
fn has_headroom_holds_of_a_world_without_cells() {
    let w = world(0, 3, 3);
    assert!(w.has_headroom(usize::MAX));
}

#[test]
fn tick_uses_up_at_most_one_unit_of_headroom_per_cell() {
    let mut w = world(3, 1, 1);
    w.set(0, 0, 0, shark(i32::MAX - 3, 0));
    w.set(1, 0, 0, fish(0));
    w.set(2, 0, 0, fish(0));
    assert!(w.has_headroom(3));
    w.tick(&[3, 3, 3]);
    assert!(w.has_headroom(0));
    assert_eq!(w.get(2, 0, 0), shark(i32::MAX - 2, 0));
}

#[test]
fn fish_counters_stay_below_the_threshold_over_many_ticks() {
    let mut w = world(3, 3, 3);
    w.populate(&[0, 2, 2, 0, 1, 2, 2, 2, 0, 2, 2, 2, 0, 2, 1, 2, 2, 2, 0, 2, 2, 0, 2, 2, 2, 2, 0]);
    let mut draws = [1; 27];
    for round in 0..40 {
        for (i, d) in draws.iter_mut().enumerate() {
            *d = ((i + round * 5) % 6) as i32 + 1;
        }
        w.tick(&draws);
        for z in 0..3 {
            for y in 0..3 {
                for x in 0..3 {
                    let e = w.get(x, y, z);
                    if e.form == Lifeform::Fish {
                        assert!(0 <= e.value && e.value < 3);
                    }
                }
            }
        }
        assert_eq!(w.volume(), 27);
    }
}

#[test]
fn tick_is_the_turns_in_buffer_order() {
    let cells = [0, 1, 2, 0, 0, 1, 2, 2, 0, 1, 2, 0];
    let draws = [3, 1, 5, 4, 2, 6, 3, 3, 1, 5, 6, 2];
    let mut swept = world(2, 3, 2);
    swept.populate(&cells);
    let mut stepped = swept.clone();
    swept.tick(&draws);
    let mut k = 0;
    for z in 0..2 {
        for y in 0..3 {
            for x in 0..2 {
                stepped.turn(x, y, z, draws[k]);
                k += 1;
            }
        }
    }
    assert_eq!(swept, stepped);
}

#[test]
fn fish_reproduction_fills_an_empty_target_in_the_world() {
    let mut w = world(3, 3, 3);
    w.set(1, 1, 1, fish(2));
    w.turn(1, 1, 1, 1);
    assert_eq!(w.get(1, 1, 1), fish(0));
    assert_eq!(w.get(1, 2, 1), fish(0));
    assert_eq!(count(&w, Lifeform::Fish), 2);
}

#[test]
fn fish_reproduction_spares_an_occupied_target_in_the_world() {
    let mut w = world(3, 3, 3);
    w.set(1, 1, 1, fish(2));
    w.set(1, 0, 1, shark(6, 1));
    w.turn(1, 1, 1, 2);
    assert_eq!(w.get(1, 1, 1), fish(0));
    assert_eq!(w.get(1, 0, 1), shark(6, 1));
}

#[test]
fn shark_reproduction_overwrites_the_target_in_the_world() {
    let mut w = world(3, 3, 3);
    w.set(1, 1, 1, shark(4, 2));
    w.set(0, 1, 1, fish(1));
    w.turn(1, 1, 1, 4);
    assert_eq!(w.get(1, 1, 1), shark(5, 0));
    assert_eq!(w.get(0, 1, 1), shark(5, 0));
    assert_eq!(count(&w, Lifeform::Fish), 0);
    assert_eq!(count(&w, Lifeform::Shark), 2);
}

#[test]
fn starved_shark_leaves_its_cell_empty_in_the_world() {
    let mut w = world(3, 3, 3);
    w.set(1, 1, 1, shark(1, 0));
    w.set(1, 1, 2, shark(8, 0));
    w.turn(1, 1, 1, 5);
    assert_eq!(w.get(1, 1, 1), empty());
    assert_eq!(w.get(1, 1, 2), shark(8, 0));
    assert_eq!(count(&w, Lifeform::Shark), 1);
}

#[test]
fn clamped_shark_meets_itself_and_stays() {
    let mut w = world(3, 3, 3);
    w.set(2, 2, 2, shark(4, 0));
    w.turn(2, 2, 2, 3);
    assert_eq!(w.get(2, 2, 2), shark(3, 1));
    w.set(0, 0, 0, fish(0));
    w.turn(0, 0, 0, 6);
    assert_eq!(w.get(0, 0, 0), fish(1));
}

#[test]
fn energies_stay_nonnegative_while_no_shark_is_stranded() {
    let mut w = world(3, 1, 1);
    w.set(0, 0, 0, shark(2, 0));
    w.set(1, 0, 0, fish(0));
    w.set(2, 0, 0, shark(1, 0));
    // The first shark eats the fish, is blocked at its next turn, and the
    // last shark starves in place against the edge.
    w.tick(&[3, 3, 3]);
    assert_eq!(w.get(0, 0, 0), empty());
    assert_eq!(w.get(1, 0, 0), shark(2, 2));
    assert_eq!(w.get(2, 0, 0), empty());
}

#[test]
fn stranded_shark_ends_the_tick_below_zero() {
    let mut w = world(2, 1, 1);
    w.set(1, 0, 0, shark(0, 0));
    w.tick(&[0, 4]);
    assert_eq!(w.get(0, 0, 0), shark(-1, 1));
    assert_eq!(w.get(1, 0, 0), empty());
}
