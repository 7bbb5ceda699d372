//! Coordinate and direction primitives for the voxel grid.

use vstd::prelude::*;

use crate::occupancy::OccupiedNodes;
use crate::rng::EngineRng;

verus! {

/// A cell of the voxel grid, as an `(x, y, z)` triple of signed integers.
pub type Coordinate = (i32, i32, i32);

/// An RGB color, one byte per channel.
pub type Color = (u8, u8, u8);

/// One of the six axis-aligned unit steps.
#[derive(Debug, Clone, Copy, PartialEq, Eq, Structural)]
pub enum Direction {
    North,
    South,
    East,
    West,
    Up,
    Down,
}

/// The unit offset a direction stands for, as mathematical integers:
/// North/South move along x, Up/Down along y, East/West along z.
pub open spec fn dir_offset(d: Direction) -> (int, int, int) {
    match d {
        Direction::North => (1int, 0int, 0int),
        Direction::South => (-1int, 0int, 0int),
        Direction::East => (0int, 0int, 1int),
        Direction::West => (0int, 0int, -1int),
        Direction::Up => (0int, 1int, 0int),
        Direction::Down => (0int, -1int, 0int),
    }
}

/// The six directions in their fixed enumeration order.
pub open spec fn all_directions() -> Seq<Direction> {
    seq![
        Direction::North,
        Direction::South,
        Direction::East,
        Direction::West,
        Direction::Up,
        Direction::Down,
    ]
}

/// A coordinate whose components can all move one step in either sign
/// without leaving the machine-integer range.
pub open spec fn can_step(c: Coordinate) -> bool {
    &&& i32::MIN < c.0 < i32::MAX
    &&& i32::MIN < c.1 < i32::MAX
    &&& i32::MIN < c.2 < i32::MAX
}

/// The coordinate reached by one step from `c` in direction `d`
/// (exact whenever `can_step(c)` holds).
pub open spec fn step_coord(c: Coordinate, d: Direction) -> Coordinate {
    (
        ((c.0 + dir_offset(d).0) as i32),
        ((c.1 + dir_offset(d).1) as i32),
        ((c.2 + dir_offset(d).2) as i32),
    )
}

/// `r` lies exactly one step from `c` in direction `d`.
pub open spec fn stepped(c: Coordinate, d: Direction, r: Coordinate) -> bool {
    &&& r.0 == c.0 + dir_offset(d).0
    &&& r.1 == c.1 + dir_offset(d).1
    &&& r.2 == c.2 + dir_offset(d).2
}

/// `c` lies in the half-open box `[0, bounds.0) x [0, bounds.1) x [0, bounds.2)`.
pub open spec fn in_bounds_spec(c: Coordinate, bounds: Coordinate) -> bool {
    &&& 0 <= c.0 < bounds.0
    &&& 0 <= c.1 < bounds.1
    &&& 0 <= c.2 < bounds.2
}

/// Number of cells of the bounded space.
pub open spec fn volume(bounds: Coordinate) -> int {
    bounds.0 * bounds.1 * bounds.2
}

/// Bounds that define a non-empty space whose cell count leaves headroom
/// for the arithmetic the simulation performs on it.
pub open spec fn bounds_wf(bounds: Coordinate) -> bool {
    &&& 0 < bounds.0
    &&& 0 < bounds.1
    &&& 0 < bounds.2
    &&& volume(bounds) * 10 <= i32::MAX
}

/// The direction a given axis-aligned offset points in.
pub open spec fn offset_direction(v: Coordinate) -> Direction {
    if v.1 == 0 && v.2 == 0 {
        if v.0 > 0 {
            Direction::North
        } else {
            Direction::South
        }
    } else if v.0 == 0 && v.2 == 0 {
        if v.1 > 0 {
            Direction::Up
        } else {
            Direction::Down
        }
    } else {
        if v.2 > 0 {
            Direction::East
        } else {
            Direction::West
        }
    }
}

/// An offset with exactly one non-zero component.
pub open spec fn is_axis_offset(v: Coordinate) -> bool {
    ||| (v.0 != 0 && v.1 == 0 && v.2 == 0)
    ||| (v.0 == 0 && v.1 != 0 && v.2 == 0)
    ||| (v.0 == 0 && v.1 == 0 && v.2 != 0)
}

/// The direction at a given position of the fixed enumeration order.
pub open spec fn index_to_direction(i: int) -> Direction {
    if i == 0 {
        Direction::North
    } else if i == 1 {
        Direction::South
    } else if i == 2 {
        Direction::East
    } else if i == 3 {
        Direction::West
    } else if i == 4 {
        Direction::Up
    } else {
        Direction::Down
    }
}

impl Direction {
    /// The six directions, in their fixed, stable order.
    pub fn iterator() -> (r: Vec<Direction>)
        ensures
            r@ == all_directions(),
    {
        let r: Vec<Direction> = vec![
            Direction::North,
            Direction::South,
            Direction::East,
            Direction::West,
            Direction::Up,
            Direction::Down,
        ];
        proof {
            assert(r@ =~= all_directions());
        }
        r
    }

    /// The direction an axis-aligned offset points in.
    pub fn from(value: Coordinate) -> (d: Direction)
        requires
            is_axis_offset(value),
        ensures
            d == offset_direction(value),
    {
        let (x, y, z) = value;
        if y == 0 && z == 0 {
            if x > 0 {
                Direction::North
            } else {
                Direction::South
            }
        } else if x == 0 && z == 0 {
            if y > 0 {
                Direction::Up
            } else {
                Direction::Down
            }
        } else {
            if z > 0 {
                Direction::East
            } else {
                Direction::West
            }
        }
    }
}

/// Steps a coordinate one cell in the given direction.
pub fn step_in_dir(coord: Coordinate, dir: Direction) -> (r: Coordinate)
    requires
        can_step(coord),
    ensures
        stepped(coord, dir, r),
        r == step_coord(coord, dir),
{
    let (x, y, z) = coord;
    match dir {
        Direction::North => (x + 1, y, z),
        Direction::South => (x - 1, y, z),
        Direction::East => (x, y, z + 1),
        Direction::West => (x, y, z - 1),
        Direction::Up => (x, y + 1, z),
        Direction::Down => (x, y - 1, z),
    }
}

/// True iff each component of `coord` lies in `[0, bounds)` of its axis.
pub fn is_in_bounds(coord: Coordinate, bounds: Coordinate) -> (r: bool)
    ensures
        r == in_bounds_spec(coord, bounds),
{
    let (x, y, z) = coord;
    let (x_max, y_max, z_max) = bounds;
    x >= 0 && x < x_max && y >= 0 && y < y_max && z >= 0 && z < z_max
}

/// Maps an index drawn from `[0, 6)` to the direction at that position of
/// the fixed enumeration order.
pub fn int_to_direction(int_val: i32) -> (d: Direction)
    requires
        0 <= int_val < 6,
    ensures
        d == index_to_direction(int_val as int),
{
    if int_val == 0 {
        Direction::North
    } else if int_val == 1 {
        Direction::South
    } else if int_val == 2 {
        Direction::East
    } else if int_val == 3 {
        Direction::West
    } else if int_val == 4 {
        Direction::Up
    } else {
        Direction::Down
    }
}

/// The six neighbouring cells of `coord`, in direction order.
pub fn get_neighbors(coord: Coordinate) -> (r: Vec<Coordinate>)
    requires
        can_step(coord),
    ensures
        r@.len() == all_directions().len(),
        forall|i: int|
            0 <= i < r@.len() ==> r@[i] == step_coord(coord, all_directions()[i]),
{
    let dirs = Direction::iterator();
    let mut neighbors: Vec<Coordinate> = Vec::new();
    let mut k: usize = 0;
    while k < dirs.len()
        invariant
            can_step(coord),
            dirs@ == all_directions(),
            k <= dirs@.len(),
            neighbors@.len() == k,
            forall|i: int|
                0 <= i < k ==> neighbors@[i] == step_coord(coord, all_directions()[i]),
        decreases dirs@.len() - k,
    {
        neighbors.push(step_in_dir(coord, dirs[k]));
        k = k + 1;
    }
    neighbors
}

/// Chooses one of the six directions uniformly, by a bounded byte draw
/// mapped through the fixed enumeration order.
pub fn choose_random_direction<R: EngineRng>(rng: &mut R) -> (d: Direction) {
    let idx = rng.u8(0, 6);
    int_to_direction(idx as i32)
}

/// Number of random draws attempted before `find_random_start` falls back
/// to a deterministic scan of the space.
pub const MAX_START_ATTEMPTS: u32 = 64;

/// Returns a random unoccupied coordinate within the bounds, retrying on
/// collision. Returns `None` without drawing anything when the occupancy
/// count has already reached the full volume of the space; after too many
/// colliding draws it falls back to scanning the space in a fixed order, so
/// `None` otherwise means that every cell of the space is occupied.
pub fn find_random_start<R: EngineRng>(
    occupied_nodes: &OccupiedNodes,
    bounds: Coordinate,
    rng: &mut R,
) -> (r: Option<Coordinate>)
    requires
        occupied_nodes.wf(),
        bounds_wf(bounds),
    ensures
        occupied_nodes@.len() >= volume(bounds) ==> r is None && *final(rng) == *old(rng),
        match r {
            Option::Some(c) => {
                &&& !occupied_nodes@.contains(c)
                &&& in_bounds_spec(c, bounds)
                &&& occupied_nodes@.len() < volume(bounds)
            },
            Option::None => occupied_nodes@.len() >= volume(bounds) || forall|c: Coordinate|
                in_bounds_spec(c, bounds) ==> occupied_nodes@.contains(c),
        },
{
    let (x_max, y_max, z_max) = bounds;
    proof {
        assert(x_max * y_max <= x_max * y_max * z_max) by (nonlinear_arith)
            requires
                0 < x_max,
                0 < y_max,
                0 < z_max,
        ;
        assert(0 < x_max * y_max) by (nonlinear_arith)
            requires
                0 < x_max,
                0 < y_max,
        ;
    }
    let total = x_max * y_max * z_max;
    if occupied_nodes.len() >= total as usize {
        return None;
    }
    let mut tries: u32 = 0;
    while tries < MAX_START_ATTEMPTS
        invariant
            occupied_nodes.wf(),
            bounds_wf(bounds),
            bounds == (x_max, y_max, z_max),
            occupied_nodes@.len() < volume(bounds),
        decreases MAX_START_ATTEMPTS - tries,
    {
        let coord = (rng.i32(0, x_max), rng.i32(0, y_max), rng.i32(0, z_max));
        if !occupied_nodes.contains(coord) {
            return Some(coord);
        }
        tries = tries + 1;
    }
    let mut x: i32 = 0;
    while x < x_max
        invariant
            occupied_nodes.wf(),
            bounds_wf(bounds),
            bounds == (x_max, y_max, z_max),
            occupied_nodes@.len() < volume(bounds),
            0 <= x <= x_max,
            forall|c: Coordinate|
                in_bounds_spec(c, bounds) && c.0 < x ==> occupied_nodes@.contains(c),
        decreases x_max - x,
    {
        let mut y: i32 = 0;
        while y < y_max
            invariant
                occupied_nodes.wf(),
                bounds_wf(bounds),
                bounds == (x_max, y_max, z_max),
                occupied_nodes@.len() < volume(bounds),
                0 <= x < x_max,
                0 <= y <= y_max,
                forall|c: Coordinate|
                    in_bounds_spec(c, bounds) && c.0 < x ==> occupied_nodes@.contains(c),
                forall|c: Coordinate|
                    in_bounds_spec(c, bounds) && c.0 == x && c.1 < y
                        ==> occupied_nodes@.contains(c),
            decreases y_max - y,
        {
            let mut z: i32 = 0;
            while z < z_max
                invariant
                    occupied_nodes.wf(),
                    bounds_wf(bounds),
                    bounds == (x_max, y_max, z_max),
                    occupied_nodes@.len() < volume(bounds),
                    0 <= x < x_max,
                    0 <= y < y_max,
                    0 <= z <= z_max,
                    forall|c: Coordinate|
                        in_bounds_spec(c, bounds) && c.0 == x && c.1 == y && c.2 < z
                            ==> occupied_nodes@.contains(c),
                decreases z_max - z,
            {
                let coord = (x, y, z);
                if !occupied_nodes.contains(coord) {
                    return Some(coord);
                }
                z = z + 1;
            }
            y = y + 1;
        }
        x = x + 1;
    }
    None
}

} // verus!
