//! A dense occupancy grid over the bounded space: one flag per cell, laid
//! out in row-major order.

use vstd::prelude::*;

use crate::error::NoDirectionError;
use crate::rng::EngineRng;
use crate::util::{
    all_directions, in_bounds_spec, step_coord, step_in_dir, volume, Coordinate, Direction,
};

verus! {

/// A grid of occupancy flags over the box `[0, size.0) x [0, size.1) x [0, size.2)`.
pub struct NodeStruct {
    pub size: Coordinate,
    pub array: Vec<bool>,
}

impl NodeStruct {
    /// The backing vector covers the whole (non-empty, machine-sized) box.
    pub open spec fn wf(self) -> bool {
        &&& 0 < self.size.0
        &&& 0 < self.size.1
        &&& 0 < self.size.2
        &&& volume(self.size) <= i32::MAX
        &&& self.array@.len() == volume(self.size)
    }

    /// Row-major position of a cell in the backing vector.
    pub open spec fn index_of(self, coord: Coordinate) -> int {
        coord.0 * self.size.1 * self.size.2 + coord.1 * self.size.2 + coord.2
    }

    /// The occupancy flag of a cell.
    pub open spec fn spec_get(self, coord: Coordinate) -> bool {
        self.array@[self.index_of(coord)]
    }

    /// How many cells lie between `coord` and the boundary in direction `d`,
    /// the cell of `coord` itself not counted.
    pub open spec fn max_walk(self, coord: Coordinate, d: Direction) -> int {
        match d {
            Direction::North => self.size.0 - coord.0 - 1,
            Direction::South => coord.0 as int,
            Direction::East => self.size.2 - coord.2 - 1,
            Direction::West => coord.2 as int,
            Direction::Up => self.size.1 - coord.1 - 1,
            Direction::Down => coord.1 as int,
        }
    }

    /// Length of the run of free cells starting at `coord` and walking in
    /// direction `d`, capped at `cap` cells.
    pub open spec fn spec_count_available(
        self,
        coord: Coordinate,
        d: Direction,
        cap: int,
    ) -> int
        decreases cap,
    {
        if cap <= 0 {
            0
        } else if self.spec_get(coord) {
            0
        } else {
            1 + self.spec_count_available(step_coord(coord, d), d, cap - 1)
        }
    }

    /// A grid of the given size with every cell free.
    pub fn new(size: Coordinate) -> (r: NodeStruct)
        requires
            0 < size.0,
            0 < size.1,
            0 < size.2,
            volume(size) <= i32::MAX,
        ensures
            r.wf(),
            r.size == size,
            forall|i: int| 0 <= i < r.array@.len() ==> !r.array@[i],
    {
        proof {
            assert(size.0 * size.1 <= size.0 * size.1 * size.2 && 0 < size.0 * size.1)
                by (nonlinear_arith)
                requires
                    0 < size.0,
                    0 < size.1,
                    0 < size.2,
            ;
        }
        let vec_size = size.0 * size.1 * size.2;
        let mut vec: Vec<bool> = Vec::new();
        let mut k: i32 = 0;
        while k < vec_size
            invariant
                0 <= k <= vec_size,
                vec@.len() == k,
                forall|i: int| 0 <= i < k ==> !vec@[i],
            decreases vec_size - k,
        {
            vec.push(false);
            k = k + 1;
        }
        NodeStruct { size, array: vec }
    }

    /// Row-major index of an in-bounds cell.
    pub fn to_vec_index(&self, coord: Coordinate) -> (idx: usize)
        requires
            self.wf(),
            in_bounds_spec(coord, self.size),
        ensures
            idx == self.index_of(coord),
            idx < self.array@.len(),
    {
        let (x, y, z) = coord;
        let (x_size, y_size, z_size) = self.size;
        proof {
            assert(0 <= x * y_size * z_size && 0 <= y * z_size && x * y_size <= x_size * y_size
                * z_size && x * y_size * z_size + y * z_size + z < x_size * y_size * z_size)
                by (nonlinear_arith)
                requires
                    0 <= x < x_size,
                    0 <= y < y_size,
                    0 <= z < z_size,
            ;
        }
        (x * y_size * z_size + y * z_size + z) as usize
    }

    /// Reads the occupancy flag of an in-bounds cell.
    pub fn get(&self, coord: Coordinate) -> (r: bool)
        requires
            self.wf(),
            in_bounds_spec(coord, self.size),
        ensures
            r == self.spec_get(coord),
    {
        let idx = self.to_vec_index(coord);
        self.array[idx]
    }

    /// Writes the occupancy flag of an in-bounds cell; every other cell
    /// keeps its flag.
    pub fn set(&mut self, coord: Coordinate, val: bool)
        requires
            old(self).wf(),
            in_bounds_spec(coord, old(self).size),
        ensures
            final(self).wf(),
            final(self).size == old(self).size,
            final(self).spec_get(coord) == val,
            forall|c: Coordinate|
                in_bounds_spec(c, old(self).size) && c != coord ==> final(self).spec_get(c) == old(
                    self,
                ).spec_get(c),
    {
        let idx = self.to_vec_index(coord);
        self.array.set(idx, val);
        proof {
            let sz = self.size;
            let n = self.array@.len() as int;
            assert forall|c: Coordinate|
                in_bounds_spec(c, self.size) && c != coord implies self.spec_get(c) == old(
                self,
            ).spec_get(c) by {
                lemma_index_of_injective(*old(self), c, coord);
                assert(0 <= c.0 * sz.1 * sz.2 + c.1 * sz.2 + c.2 < n) by (nonlinear_arith)
                    requires
                        0 <= c.0 < sz.0,
                        0 <= c.1 < sz.1,
                        0 <= c.2 < sz.2,
                        n == sz.0 * sz.1 * sz.2,
                ;
            }
        }
    }

    /// Counts the free cells from `coord` towards the boundary in direction
    /// `d`, stopping at the first occupied cell.
    pub fn count_available_in_direction(&self, coord: Coordinate, dir: Direction) -> (count: i32)
        requires
            self.wf(),
            in_bounds_spec(coord, self.size),
        ensures
            count == self.spec_count_available(coord, dir, self.max_walk(coord, dir)),
    {
        let mut count: i32 = 0;
        let mut current_coord = coord;
        let (x_size, y_size, z_size) = self.size;
        proof {
            assert(x_size <= volume(self.size) && y_size <= volume(self.size) && z_size <= volume(
                self.size,
            )) by (nonlinear_arith)
                requires
                    0 < x_size,
                    0 < y_size,
                    0 < z_size,
                    volume(self.size) == x_size * y_size * z_size,
            ;
        }
        let max_walk = match dir {
            Direction::North => x_size - coord.0 - 1,
            Direction::South => coord.0,
            Direction::East => z_size - coord.2 - 1,
            Direction::West => coord.2,
            Direction::Up => y_size - coord.1 - 1,
            Direction::Down => coord.1,
        };
        while count < max_walk
            invariant
                self.wf(),
                in_bounds_spec(current_coord, self.size),
                0 <= count <= max_walk,
                max_walk == self.max_walk(coord, dir),
                self.max_walk(current_coord, dir) == max_walk - count,
                self.spec_count_available(coord, dir, max_walk as int) == count
                    + self.spec_count_available(current_coord, dir, max_walk - count),
            decreases max_walk - count,
        {
            if self.get(current_coord) {
                return count;
            }
            count = count + 1;
            current_coord = step_in_dir(current_coord, dir);
        }
        proof {
            assert(self.spec_count_available(current_coord, dir, 0) == 0);
        }
        count
    }

    /// Returns a random free cell, retrying on occupied draws; after too
    /// many colliding draws it falls back to scanning the grid in a fixed
    /// order, so `None` means that every cell is occupied.
    pub fn find_random_empty_node<R: EngineRng>(&self, rng: &mut R) -> (r: Option<Coordinate>)
        requires
            self.wf(),
        ensures
            match r {
                Option::Some(c) => in_bounds_spec(c, self.size) && !self.spec_get(c),
                Option::None => forall|c: Coordinate|
                    in_bounds_spec(c, self.size) ==> self.spec_get(c),
            },
    {
        let (x_size, y_size, z_size) = self.size;
        let mut tries: u32 = 0;
        while tries < crate::util::MAX_START_ATTEMPTS
            invariant
                self.wf(),
                self.size == (x_size, y_size, z_size),
            decreases crate::util::MAX_START_ATTEMPTS - tries,
        {
            let coord = (rng.i32(0, x_size), rng.i32(0, y_size), rng.i32(0, z_size));
            if !self.get(coord) {
                return Some(coord);
            }
            tries = tries + 1;
        }
        let mut x: i32 = 0;
        while x < x_size
            invariant
                self.wf(),
                self.size == (x_size, y_size, z_size),
                0 <= x <= x_size,
                forall|c: Coordinate|
                    in_bounds_spec(c, self.size) && c.0 < x ==> self.spec_get(c),
            decreases x_size - x,
        {
            let mut y: i32 = 0;
            while y < y_size
                invariant
                    self.wf(),
                    self.size == (x_size, y_size, z_size),
                    0 <= x < x_size,
                    0 <= y <= y_size,
                    forall|c: Coordinate|
                        in_bounds_spec(c, self.size) && c.0 < x ==> self.spec_get(c),
                    forall|c: Coordinate|
                        in_bounds_spec(c, self.size) && c.0 == x && c.1 < y ==> self.spec_get(c),
                decreases y_size - y,
            {
                let mut z: i32 = 0;
                while z < z_size
                    invariant
                        self.wf(),
                        self.size == (x_size, y_size, z_size),
                        0 <= x < x_size,
                        0 <= y < y_size,
                        0 <= z <= z_size,
                        forall|c: Coordinate|
                            in_bounds_spec(c, self.size) && c.0 == x && c.1 == y && c.2 < z
                                ==> self.spec_get(c),
                    decreases z_size - z,
                {
                    let coord = (x, y, z);
                    if !self.get(coord) {
                        return Some(coord);
                    }
                    z = z + 1;
                }
                y = y + 1;
            }
            x = x + 1;
        }
        None
    }

    /// Picks a random direction that has at least one free cell ahead of
    /// `pos`; fails exactly when no direction has one.
    pub fn find_random_direction<R: EngineRng>(&self, pos: Coordinate, rng: &mut R) -> (r: Result<
        Direction,
        NoDirectionError,
    >)
        requires
            self.wf(),
            in_bounds_spec(pos, self.size),
        ensures
            match r {
                Result::Ok(d) => self.spec_count_available(pos, d, self.max_walk(pos, d)) > 0,
                Result::Err(_) => forall|d: Direction|
                    self.spec_count_available(pos, d, self.max_walk(pos, d)) == 0,
            },
    {
        let dirs = Direction::iterator();
        let mut open_dirs: Vec<Direction> = Vec::new();
        let mut k: usize = 0;
        while k < dirs.len()
            invariant
                self.wf(),
                in_bounds_spec(pos, self.size),
                k <= dirs@.len(),
                dirs@ == all_directions(),
                open_dirs@.len() <= k,
                forall|i: int|
                    0 <= i < open_dirs@.len() ==> self.spec_count_available(
                        pos,
                        #[trigger] open_dirs@[i],
                        self.max_walk(pos, open_dirs@[i]),
                    ) > 0,
                forall|i: int|
                    0 <= i < k && self.spec_count_available(
                        pos,
                        #[trigger] dirs@[i],
                        self.max_walk(pos, dirs@[i]),
                    ) > 0 ==> open_dirs@.contains(dirs@[i]),
            decreases dirs@.len() - k,
        {
            if self.count_available_in_direction(pos, dirs[k]) > 0 {
                let ghost prev = open_dirs@;
                open_dirs.push(dirs[k]);
                proof {
                    assert forall|i: int|
                        0 <= i < k + 1 && self.spec_count_available(
                            pos,
                            #[trigger] dirs@[i],
                            self.max_walk(pos, dirs@[i]),
                        ) > 0 implies open_dirs@.contains(dirs@[i]) by {
                        if i < k {
                            assert(prev.contains(dirs@[i]));
                            let j = choose|j: int| 0 <= j < prev.len() && prev[j] == dirs@[i];
                            assert(open_dirs@[j] == dirs@[i]);
                        } else {
                            assert(open_dirs@[prev.len() as int] == dirs@[i]);
                        }
                    }
                }
            }
            k = k + 1;
        }
        if open_dirs.len() == 0 {
            proof {
                assert forall|d: Direction|
                    self.spec_count_available(pos, d, self.max_walk(pos, d)) == 0 by {
                    match d {
                        Direction::North => assert(all_directions()[0] == d),
                        Direction::South => assert(all_directions()[1] == d),
                        Direction::East => assert(all_directions()[2] == d),
                        Direction::West => assert(all_directions()[3] == d),
                        Direction::Up => assert(all_directions()[4] == d),
                        Direction::Down => assert(all_directions()[5] == d),
                    }
                    if self.spec_count_available(pos, d, self.max_walk(pos, d)) > 0 {
                        assert(open_dirs@.contains(d));
                    }
                    assert(self.spec_count_available(pos, d, self.max_walk(pos, d)) >= 0) by {
                        lemma_count_available_nonneg(*self, pos, d, self.max_walk(pos, d));
                    }
                }
            }
            Err(NoDirectionError)
        } else {
            let idx = rng.u32(0, open_dirs.len() as u32);
            Ok(open_dirs[idx as usize])
        }
    }
}

proof fn lemma_count_available_nonneg(ns: NodeStruct, coord: Coordinate, d: Direction, cap: int)
    ensures
        ns.spec_count_available(coord, d, cap) >= 0,
    decreases cap,
{
    if cap > 0 && !ns.spec_get(coord) {
        lemma_count_available_nonneg(ns, step_coord(coord, d), d, cap - 1);
    }
}

proof fn lemma_index_of_injective(ns: NodeStruct, c1: Coordinate, c2: Coordinate)
    requires
        ns.wf(),
        in_bounds_spec(c1, ns.size),
        in_bounds_spec(c2, ns.size),
        c1 != c2,
    ensures
        ns.index_of(c1) != ns.index_of(c2),
{
    assert(!(c1.0 == c2.0 && c1.1 == c2.1 && c1.2 == c2.2));
    assert(c1.0 * ns.size.1 * ns.size.2 + c1.1 * ns.size.2 + c1.2 != c2.0 * ns.size.1 * ns.size.2
        + c2.1 * ns.size.2 + c2.2) by (nonlinear_arith)
        requires
            0 <= c1.0 < ns.size.0,
            0 <= c1.1 < ns.size.1,
            0 <= c1.2 < ns.size.2,
            0 <= c2.0 < ns.size.0,
            0 <= c2.1 < ns.size.1,
            0 <= c2.2 < ns.size.2,
            !(c1.0 == c2.0 && c1.1 == c2.1 && c1.2 == c2.2),
    ;
}

} // verus!
