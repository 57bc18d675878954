//! The mathematical model of the world: three extents and a flat sequence of
//! cells, with the sweep that one tick makes over it.

use vstd::prelude::*;
use vstd::arithmetic::div_mod::{
    lemma_div_denominator, lemma_div_pos_is_pos, lemma_fundamental_div_mod,
    lemma_fundamental_div_mod_converse, lemma_mod_bound, lemma_multiply_divide_lt,
};
use crate::entity::Entity;
use crate::rules::{spec_resolve, spec_step_along, turn_fits};

verus! {

/// A volume of `dim_x * dim_y * dim_z` cells. The cell at `(x, y, z)` is
/// `cells[x + dim_x * (y + dim_y * z)]`, so that walking `cells` from front
/// to back visits z outermost, then y, then x.
pub struct Grid {
    pub dim_x: nat,
    pub dim_y: nat,
    pub dim_z: nat,
    pub cells: Seq<Entity>,
}

impl Grid {
    /// The number of cells.
    pub open spec fn volume(self) -> nat {
        self.dim_x * self.dim_y * self.dim_z
    }

    /// There is exactly one cell for each position.
    pub open spec fn wf(self) -> bool {
        self.cells.len() == self.volume()
    }

    /// Two grids have the same extents.
    pub open spec fn same_shape(self, other: Grid) -> bool {
        &&& self.dim_x == other.dim_x
        &&& self.dim_y == other.dim_y
        &&& self.dim_z == other.dim_z
    }

    /// `(x, y, z)` is a position of the grid.
    pub open spec fn contains(self, x: int, y: int, z: int) -> bool {
        &&& 0 <= x < self.dim_x
        &&& 0 <= y < self.dim_y
        &&& 0 <= z < self.dim_z
    }

    /// Where the cell at `(x, y, z)` lies in `cells`.
    pub open spec fn index(self, x: int, y: int, z: int) -> int {
        x + self.dim_x * (y + self.dim_y * z)
    }

    /// The position of `cells[k]`.
    pub open spec fn coords(self, k: int) -> (int, int, int) {
        let (dx, dy) = (self.dim_x as int, self.dim_y as int);
        (k % dx, (k / dx) % dy, k / (dx * dy))
    }

    /// The cell at `(x, y, z)`.
    pub open spec fn at(self, x: int, y: int, z: int) -> Entity {
        self.cells[self.index(x, y, z)]
    }

    /// The same grid with `e` at `(x, y, z)`.
    pub open spec fn put(self, x: int, y: int, z: int, e: Entity) -> Grid {
        Grid { cells: self.cells.update(self.index(x, y, z), e), ..self }
    }

    /// Every counter of every cell lies at least `n` away from the ends of
    /// `i32`.
    pub open spec fn has_headroom(self, n: int) -> bool {
        forall|k: int| 0 <= k < self.cells.len() ==> (#[trigger] self.cells[k]).has_headroom(n)
    }

    /// The one neighbour that the cell at `(x, y, z)` looks at for the
    /// direction `draw`: 1 is y+1, 2 is y-1, 3 is x+1, 4 is x-1, 5 is z+1,
    /// 6 is z-1. A step that would leave the grid ends on the cell itself,
    /// and so does any other number.
    pub open spec fn target(self, x: int, y: int, z: int, draw: i32) -> (int, int, int) {
        (
            spec_step_along(x, self.dim_x as int, draw == 3, draw == 4),
            spec_step_along(y, self.dim_y as int, draw == 1, draw == 2),
            spec_step_along(z, self.dim_z as int, draw == 5, draw == 6),
        )
    }

    /// The turn of the cell at `(x, y, z)` with the direction `draw` keeps
    /// its counters within `i32`.
    pub open spec fn turn_fits(self, x: int, y: int, z: int, draw: i32) -> bool {
        let (tx, ty, tz) = self.target(x, y, z, draw);
        turn_fits(self.at(x, y, z), self.at(tx, ty, tz))
    }

    /// The grid after the turn of the cell at `(x, y, z)` with the direction
    /// `draw`: the target receives its part of the outcome, then the cell
    /// its own, so that a cell that is its own target holds what the outcome
    /// leaves `here`.
    pub open spec fn turn(self, x: int, y: int, z: int, draw: i32) -> Grid {
        let (tx, ty, tz) = self.target(x, y, z, draw);
        let out = spec_resolve(self.at(x, y, z), self.at(tx, ty, tz));
        self.put(tx, ty, tz, out.there).put(x, y, z, out.here)
    }

    /// The grid after the first `k` cells have had their turn, one after the
    /// other in the order of `cells`, the `i`-th with direction `draws[i]`.
    /// Each turn sees what the turns before it left, so an entity that moved
    /// ahead of the sweep has another turn when the sweep reaches it.
    pub open spec fn sweep(self, draws: Seq<i32>, k: nat) -> Grid
        decreases k,
    {
        if k == 0 {
            self
        } else {
            let i = (k - 1) as nat;
            let (x, y, z) = self.coords(i as int);
            self.sweep(draws, i).turn(x, y, z, draws[i as int])
        }
    }

    /// Every turn of the tick keeps its counters within `i32`.
    pub open spec fn sweep_fits(self, draws: Seq<i32>) -> bool {
        forall|k: nat|
            k < self.volume() ==> {
                let (x, y, z) = self.coords(k as int);
                (#[trigger] self.sweep(draws, k)).turn_fits(x, y, z, draws[k as int])
            }
    }

    /// The grid after one tick with the given directions, one per cell.
    pub open spec fn tick(self, draws: Seq<i32>) -> Grid {
        self.sweep(draws, self.volume())
    }

    /// The grid that world generation makes of the given draws, one per
    /// cell. Nothing of the cells before is kept.
    pub open spec fn populate(self, draws: Seq<i32>) -> Grid {
        Grid { cells: Seq::new(self.volume(), |k: int| Entity::spec_spawn(draws[k])), ..self }
    }
}

/// A position inside the grid has its place inside `cells`.
pub proof fn lemma_index_in_range(g: Grid, x: int, y: int, z: int)
    requires
        g.contains(x, y, z),
    ensures
        0 <= y + g.dim_y * z < g.dim_y * g.dim_z,
        0 <= g.index(x, y, z) < g.volume(),
{
    let (dx, dy, dz) = (g.dim_x as int, g.dim_y as int, g.dim_z as int);
    let w = y + dy * z;
    assert(0 <= dy * z <= dy * (dz - 1)) by (nonlinear_arith)
        requires
            0 <= z <= dz - 1,
            0 <= dy,
    ;
    assert(dy * (dz - 1) == dy * dz - dy) by (nonlinear_arith);
    assert(0 <= dx * w <= dx * (dy * dz - 1)) by (nonlinear_arith)
        requires
            0 <= w <= dy * dz - 1,
            0 <= dx,
    ;
    assert(dx * (dy * dz - 1) == dx * dy * dz - dx) by (nonlinear_arith);
}

/// `coords` undoes `index`.
pub proof fn lemma_coords_of_index(g: Grid, x: int, y: int, z: int)
    requires
        g.contains(x, y, z),
    ensures
        g.coords(g.index(x, y, z)) == (x, y, z),
{
    let (dx, dy, dz) = (g.dim_x as int, g.dim_y as int, g.dim_z as int);
    let w = y + dy * z;
    let k = g.index(x, y, z);
    assert(k == w * dx + x) by (nonlinear_arith)
        requires
            k == x + dx * w,
    ;
    lemma_fundamental_div_mod_converse(k, dx, w, x);
    assert(w == z * dy + y) by (nonlinear_arith)
        requires
            w == y + dy * z,
    ;
    lemma_fundamental_div_mod_converse(w, dy, z, y);
    let r = x + dx * y;
    assert(0 <= dx * y <= dx * (dy - 1)) by (nonlinear_arith)
        requires
            0 <= y <= dy - 1,
            0 <= dx,
    ;
    assert(dx * (dy - 1) == dx * dy - dx) by (nonlinear_arith);
    assert(k == z * (dx * dy) + r) by (nonlinear_arith)
        requires
            k == x + dx * (y + dy * z),
            r == x + dx * y,
    ;
    lemma_fundamental_div_mod_converse(k, dx * dy, z, r);
}

/// Distinct positions have distinct places in `cells`.
pub proof fn lemma_index_injective(g: Grid, x: int, y: int, z: int, u: int, v: int, w: int)
    requires
        g.contains(x, y, z),
        g.contains(u, v, w),
        g.index(x, y, z) == g.index(u, v, w),
    ensures
        (x, y, z) == (u, v, w),
{
    lemma_coords_of_index(g, x, y, z);
    lemma_coords_of_index(g, u, v, w);
}

/// A turn keeps the grid's shape and its number of cells.
pub proof fn lemma_turn_wf(g: Grid, x: int, y: int, z: int, draw: i32)
    requires
        g.wf(),
        g.contains(x, y, z),
    ensures
        g.turn(x, y, z, draw).wf(),
        g.turn(x, y, z, draw).same_shape(g),
{
    let (tx, ty, tz) = g.target(x, y, z, draw);
    lemma_index_in_range(g, x, y, z);
    lemma_index_in_range(g, tx, ty, tz);
}

/// A turn moves each counter by at most one.
pub proof fn lemma_turn_headroom(g: Grid, x: int, y: int, z: int, draw: i32, n: int)
    requires
        g.wf(),
        g.contains(x, y, z),
        g.has_headroom(n + 1),
        n >= 0,
    ensures
        g.turn(x, y, z, draw).has_headroom(n),
{
    let (tx, ty, tz) = g.target(x, y, z, draw);
    lemma_index_in_range(g, x, y, z);
    lemma_index_in_range(g, tx, ty, tz);
    let cur = g.at(x, y, z);
    let tgt = g.at(tx, ty, tz);
    assert(cur.has_headroom(n + 1));
    assert(tgt.has_headroom(n + 1));
    let out = spec_resolve(cur, tgt);
    assert(out.here.has_headroom(n));
    assert(out.there.has_headroom(n));
    let after = g.turn(x, y, z, draw);
    assert forall|k: int| 0 <= k < after.cells.len() implies (#[trigger] after.cells[k]).has_headroom(n) by {
        assert(g.cells[k].has_headroom(n + 1));
    }
}

/// Every place in `cells` is the place of a position inside the grid, and
/// `index` undoes `coords`.
pub proof fn lemma_coords_in_range(g: Grid, k: int)
    requires
        0 <= k < g.volume(),
    ensures
        ({
            let (x, y, z) = g.coords(k);
            g.contains(x, y, z) && g.index(x, y, z) == k
        }),
{
    let (dx, dy, dz) = (g.dim_x as int, g.dim_y as int, g.dim_z as int);
    assert(dx > 0 && dy > 0 && dz > 0) by (nonlinear_arith)
        requires
            dx * dy * dz > 0,
            dx >= 0,
            dy >= 0,
            dz >= 0,
    ;
    assert(dx * dy > 0) by (nonlinear_arith)
        requires
            dx > 0,
            dy > 0,
    ;
    let q = k / dx;
    lemma_mod_bound(k, dx);
    lemma_mod_bound(q, dy);
    lemma_div_pos_is_pos(k, dx * dy);
    lemma_multiply_divide_lt(k, dx * dy, dz);
    lemma_div_denominator(k, dx, dy);
    lemma_fundamental_div_mod(k, dx);
    lemma_fundamental_div_mod(q, dy);
    let (x, y, z) = g.coords(k);
    assert(z == q / dy);
    assert(k == dx * q + x);
    assert(q == dy * z + y);
}

/// What a turn leaves at each position: the cell that had the turn holds its
/// part of the outcome, its target the other part, and every other cell is
/// as it was.
pub proof fn lemma_turn_at(g: Grid, x: int, y: int, z: int, draw: i32, u: int, v: int, w: int)
    requires
        g.wf(),
        g.contains(x, y, z),
        g.contains(u, v, w),
    ensures
        ({
            let (tx, ty, tz) = g.target(x, y, z, draw);
            let out = spec_resolve(g.at(x, y, z), g.at(tx, ty, tz));
            g.turn(x, y, z, draw).at(u, v, w) == if (u, v, w) == (x, y, z) {
                out.here
            } else if (u, v, w) == (tx, ty, tz) {
                out.there
            } else {
                g.at(u, v, w)
            }
        }),
{
    let (tx, ty, tz) = g.target(x, y, z, draw);
    lemma_index_in_range(g, x, y, z);
    lemma_index_in_range(g, tx, ty, tz);
    lemma_index_in_range(g, u, v, w);
    if g.index(u, v, w) == g.index(x, y, z) {
        lemma_index_injective(g, u, v, w, x, y, z);
    }
    if g.index(u, v, w) == g.index(tx, ty, tz) {
        lemma_index_injective(g, u, v, w, tx, ty, tz);
    }
}

/// A sweep keeps the grid's shape and its number of cells.
pub proof fn lemma_sweep_wf(g: Grid, draws: Seq<i32>, k: nat)
    requires
        g.wf(),
        k <= g.volume(),
    ensures
        g.sweep(draws, k).wf(),
        g.sweep(draws, k).same_shape(g),
    decreases k,
{
    if k > 0 {
        let i = (k - 1) as nat;
        lemma_sweep_wf(g, draws, i);
        lemma_coords_in_range(g, i as int);
        let (x, y, z) = g.coords(i as int);
        lemma_turn_wf(g.sweep(draws, i), x, y, z, draws[i as int]);
    }
}

/// A sweep over `k` cells moves each counter by at most `k`.
pub proof fn lemma_sweep_headroom(g: Grid, draws: Seq<i32>, k: nat, n: int)
    requires
        g.wf(),
        k <= g.volume(),
        n >= 0,
        g.has_headroom(n + k),
    ensures
        g.sweep(draws, k).has_headroom(n),
    decreases k,
{
    if k > 0 {
        let i = (k - 1) as nat;
        lemma_sweep_headroom(g, draws, i, n + 1);
        lemma_sweep_wf(g, draws, i);
        lemma_coords_in_range(g, i as int);
        let (x, y, z) = g.coords(i as int);
        lemma_turn_headroom(g.sweep(draws, i), x, y, z, draws[i as int], n);
    }
}

/// A world in which every counter is as many steps away from the ends of
/// `i32` as there are cells goes through a tick without leaving `i32`,
/// whatever the directions.
pub proof fn lemma_headroom_fits(g: Grid, draws: Seq<i32>)
    requires
        g.wf(),
        g.has_headroom(g.volume() as int),
    ensures
        g.sweep_fits(draws),
{
    assert forall|k: nat| k < g.volume() implies ({
        let (x, y, z) = g.coords(k as int);
        (#[trigger] g.sweep(draws, k)).turn_fits(x, y, z, draws[k as int])
    }) by {
        let before = g.sweep(draws, k);
        lemma_sweep_headroom(g, draws, k, g.volume() - k);
        lemma_sweep_wf(g, draws, k);
        lemma_coords_in_range(g, k as int);
        let (x, y, z) = g.coords(k as int);
        let (tx, ty, tz) = before.target(x, y, z, draws[k as int]);
        lemma_index_in_range(before, x, y, z);
        assert(before.cells[before.index(x, y, z)].has_headroom(1));
    }
}

} // verus!
