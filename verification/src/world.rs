//! The world as it is held in memory, and the operations on it.

use vstd::prelude::*;
use crate::entity::Entity;
use crate::grid::{
    lemma_coords_of_index, lemma_index_in_range, lemma_turn_wf, Grid,
};
use crate::rules::{resolve, step_along};

verus! {

/// A volume of cells in one flat buffer, addressed by `(x, y, z)`.
#[derive(Debug, Clone, PartialEq, Eq)]
pub struct World {
    dim_x: usize,
    dim_y: usize,
    dim_z: usize,
    cells: Vec<Entity>,
}

impl View for World {
    type V = Grid;

    closed spec fn view(&self) -> Grid {
        Grid {
            dim_x: self.dim_x as nat,
            dim_y: self.dim_y as nat,
            dim_z: self.dim_z as nat,
            cells: self.cells@,
        }
    }
}

impl World {
    /// An all-empty world of the given extents, or `None` where the number
    /// of cells does not fit in `usize`.
    pub fn new(dim_x: usize, dim_y: usize, dim_z: usize) -> (made: Option<World>)
        ensures
            made is Some <==> dim_x * dim_y * dim_z <= usize::MAX,
            made matches Some(w) ==> {
                &&& w@.wf()
                &&& w@.dim_x == dim_x
                &&& w@.dim_y == dim_y
                &&& w@.dim_z == dim_z
                &&& forall|k: int| 0 <= k < w@.cells.len() ==> w@.cells[k] == Entity::vacant()
            },
    {
        let volume: usize = if dim_x == 0 || dim_y == 0 || dim_z == 0 {
            assert(dim_x * dim_y * dim_z == 0) by (nonlinear_arith)
                requires
                    dim_x == 0 || dim_y == 0 || dim_z == 0,
            ;
            0
        } else {
            let slab: usize = match dim_x.checked_mul(dim_y) {
                Some(slab) => slab,
                None => {
                    assert(dim_x * dim_y * dim_z >= dim_x * dim_y) by (nonlinear_arith)
                        requires
                            dim_z >= 1,
                            dim_x * dim_y >= 0,
                    ;
                    return None;
                },
            };
            match slab.checked_mul(dim_z) {
                Some(volume) => volume,
                None => {
                    return None;
                },
            }
        };
        let mut cells: Vec<Entity> = Vec::new();
        while cells.len() < volume
            invariant
                cells.len() <= volume,
                forall|k: int| 0 <= k < cells.len() ==> cells@[k] == Entity::vacant(),
            decreases volume - cells.len(),
        {
            cells.push(Entity::new(crate::entity::Lifeform::Empty, 0));
        }
        Some(World { dim_x, dim_y, dim_z, cells })
    }

    /// The extent along x.
    pub fn dim_x(&self) -> (d: usize)
        ensures
            d == self@.dim_x,
    {
        self.dim_x
    }

    /// The extent along y.
    pub fn dim_y(&self) -> (d: usize)
        ensures
            d == self@.dim_y,
    {
        self.dim_y
    }

    /// The extent along z.
    pub fn dim_z(&self) -> (d: usize)
        ensures
            d == self@.dim_z,
    {
        self.dim_z
    }

    /// The number of cells.
    pub fn volume(&self) -> (n: usize)
        requires
            self@.wf(),
        ensures
            n == self@.volume(),
    {
        self.cells.len()
    }

    fn offset(&self, x: usize, y: usize, z: usize) -> (k: usize)
        requires
            self@.wf(),
            self@.contains(x as int, y as int, z as int),
        ensures
            k == self@.index(x as int, y as int, z as int),
            k < self.cells.len(),
    {
        proof {
            let (dx, dy, dz) = (self.dim_x as int, self.dim_y as int, self.dim_z as int);
            lemma_index_in_range(self@, x as int, y as int, z as int);
            assert(self.cells.len() == dx * dy * dz);
            assert(dy * dz <= dx * dy * dz) by (nonlinear_arith)
                requires
                    dx >= 1,
                    dy >= 0,
                    dz >= 0,
            ;
            assert(0 <= dy * z) by (nonlinear_arith)
                requires
                    0 <= dy,
                    0 <= z,
            ;
            assert(0 <= dx * (y + dy * z)) by (nonlinear_arith)
                requires
                    0 <= dx,
                    0 <= y + dy * z,
            ;
        }
        x + self.dim_x * (y + self.dim_y * z)
    }

    /// The cell at `(x, y, z)`.
    pub fn get(&self, x: usize, y: usize, z: usize) -> (e: Entity)
        requires
            self@.wf(),
            self@.contains(x as int, y as int, z as int),
        ensures
            e == self@.at(x as int, y as int, z as int),
    {
        let k = self.offset(x, y, z);
        self.cells[k]
    }

    /// Puts `e` at `(x, y, z)`.
    pub fn set(&mut self, x: usize, y: usize, z: usize, e: Entity)
        requires
            old(self)@.wf(),
            old(self)@.contains(x as int, y as int, z as int),
        ensures
            final(self)@ == old(self)@.put(x as int, y as int, z as int, e),
            final(self)@.wf(),
    {
        let k = self.offset(x, y, z);
        self.cells.set(k, e);
    }

    /// The neighbour that the cell at `(x, y, z)` looks at for the direction
    /// `draw`. It never lies outside the world.
    pub fn target(&self, x: usize, y: usize, z: usize, draw: i32) -> (t: (usize, usize, usize))
        requires
            self@.contains(x as int, y as int, z as int),
        ensures
            (t.0 as int, t.1 as int, t.2 as int) == self@.target(x as int, y as int, z as int, draw),
            self@.contains(t.0 as int, t.1 as int, t.2 as int),
    {
        let y1 = step_along(y, self.dim_y, draw == 1, draw == 2);
        let x1 = step_along(x, self.dim_x, draw == 3, draw == 4);
        let z1 = step_along(z, self.dim_z, draw == 5, draw == 6);
        (x1, y1, z1)
    }

    /// Gives the cell at `(x, y, z)` its turn with the direction `draw`.
    pub fn turn(&mut self, x: usize, y: usize, z: usize, draw: i32)
        requires
            old(self)@.wf(),
            old(self)@.contains(x as int, y as int, z as int),
            old(self)@.turn_fits(x as int, y as int, z as int, draw),
        ensures
            final(self)@ == old(self)@.turn(x as int, y as int, z as int, draw),
            final(self)@.wf(),
    {
        let here = self.offset(x, y, z);
        let (tx, ty, tz) = self.target(x, y, z, draw);
        let there = self.offset(tx, ty, tz);
        let out = resolve(self.cells[here], self.cells[there]);
        self.cells.set(there, out.there);
        self.cells.set(here, out.here);
    }

    /// Tells whether every counter in the world lies at least `n` away from
    /// the ends of `i32`.
    pub fn has_headroom(&self, n: usize) -> (ok: bool)
        ensures
            ok == self@.has_headroom(n as int),
    {
        if self.cells.len() == 0 {
            return true;
        }
        if n > 0x7fff_ffff {
            assert(!self@.cells[0].has_headroom(n as int));
            return false;
        }
        let margin: i32 = n as i32;
        let low: i32 = i32::MIN + margin;
        let high: i32 = i32::MAX - margin;
        let mut k: usize = 0;
        while k < self.cells.len()
            invariant
                k <= self.cells.len(),
                low == i32::MIN + n,
                high == i32::MAX - n,
                forall|i: int| 0 <= i < k ==> (#[trigger] self.cells@[i]).has_headroom(n as int),
            decreases self.cells.len() - k,
        {
            let e = self.cells[k];
            if e.value < low || e.value > high || e.value2 < low || e.value2 > high {
                assert(!self@.cells[k as int].has_headroom(n as int));
                return false;
            }
            k = k + 1;
        }
        true
    }

    /// Advances the world by one tick. The cells have their turn one after
    /// the other, z outermost, then y, then x, the `k`-th of them with the
    /// direction `draws[k]`.
    pub fn tick(&mut self, draws: &[i32])
        requires
            old(self)@.wf(),
            draws@.len() == old(self)@.volume(),
            old(self)@.sweep_fits(draws@),
        ensures
            final(self)@ == old(self)@.tick(draws@),
            final(self)@.wf(),
            final(self)@.same_shape(old(self)@),
    {
        let volume: usize = self.cells.len();
        if volume == 0 {
            return ;
        }
        assert(self.dim_x > 0 && self.dim_y > 0 && self.dim_z > 0) by (nonlinear_arith)
            requires
                self.dim_x * self.dim_y * self.dim_z > 0,
        ;
        let ghost start = self@;
        assert(start.index(0, 0, 0) == 0) by (nonlinear_arith);
        let mut x: usize = 0;
        let mut y: usize = 0;
        let mut z: usize = 0;
        let mut k: usize = 0;
        while k < volume
            invariant
                volume == start.volume(),
                draws@.len() == volume,
                start.wf(),
                self@.wf(),
                self@.same_shape(start),
                x < self.dim_x,
                y < self.dim_y,
                z <= self.dim_z,
                k <= volume,
                k == start.index(x as int, y as int, z as int),
                self@ == start.sweep(draws@, k as nat),
                start.sweep_fits(draws@),
            decreases volume - k,
        {
            let ghost before = self@;
            proof {
                let (dx, dy, dz) = (self.dim_x as int, self.dim_y as int, self.dim_z as int);
                assert(z < dz) by {
                    if z >= dz {
                        assert(dy * z >= dy * dz) by (nonlinear_arith)
                            requires
                                z >= dz,
                                dy > 0,
                        ;
                        assert(dx * (y + dy * z) >= dx * (dy * dz)) by (nonlinear_arith)
                            requires
                                y + dy * z >= dy * dz,
                                dx > 0,
                        ;
                        assert(dx * (dy * dz) == dx * dy * dz) by (nonlinear_arith);
                    }
                }
                lemma_index_in_range(before, x as int, y as int, z as int);
                lemma_coords_of_index(start, x as int, y as int, z as int);
                lemma_turn_wf(before, x as int, y as int, z as int, draws@[k as int]);
            }
            let draw: i32 = draws[k];
            self.turn(x, y, z, draw);
            proof {
                let (dx, dy, dz) = (self.dim_x as int, self.dim_y as int, self.dim_z as int);
                assert(dx * (y + 1 + dy * z) == dx + dx * (y + dy * z)) by (nonlinear_arith);
                assert(dx * (dy * (z + 1)) == dx * dy + dx * (dy * z)) by (nonlinear_arith);
                assert(dx * (dy - 1 + dy * z) == dx * dy - dx + dx * (dy * z)) by (nonlinear_arith);
            }
            k = k + 1;
            x = x + 1;
            if x == self.dim_x {
                x = 0;
                y = y + 1;
                if y == self.dim_y {
                    y = 0;
                    z = z + 1;
                }
            }
        }
    }

    /// Overwrites every cell with what world generation makes of its draw,
    /// cell `k` in the order of the buffer from `draws[k]`.
    pub fn populate(&mut self, draws: &[i32])
        requires
            old(self)@.wf(),
            draws@.len() == old(self)@.volume(),
        ensures
            final(self)@ == old(self)@.populate(draws@),
            final(self)@.wf(),
            final(self)@.same_shape(old(self)@),
    {
        let volume: usize = self.cells.len();
        let mut k: usize = 0;
        while k < volume
            invariant
                k <= volume,
                volume == self.cells.len(),
                draws@.len() == volume,
                self@.same_shape(old(self)@),
                old(self)@.volume() == volume,
                forall|i: int| 0 <= i < k ==> self.cells@[i] == Entity::spec_spawn(draws@[i]),
            decreases volume - k,
        {
            self.cells.set(k, Entity::spawn(draws[k]));
            k = k + 1;
        }
        assert(self@.cells =~= old(self)@.populate(draws@).cells);
    }
}

} // verus!
