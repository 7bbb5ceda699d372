//! A single growing pipe: an append-only node history (head first), the
//! direction of the last step, a liveness flag, and the bounds it respects.

use vstd::prelude::*;

use crate::occupancy::{box_set, lemma_box_volume, lemma_occupancy_bounded, OccupiedNodes};
use crate::rng::EngineRng;
use crate::util::{
    all_directions, bounds_wf, in_bounds_spec, is_in_bounds, step_coord, step_in_dir, stepped,
    volume, Coordinate, Direction,
};

verus! {

/// A step from `head` in direction `d` that stays in bounds and hits no
/// occupied cell.
pub open spec fn step_allowed(
    head: Coordinate,
    bounds: Coordinate,
    occupied: Set<Coordinate>,
    d: Direction,
) -> bool {
    &&& in_bounds_spec(step_coord(head, d), bounds)
    &&& !occupied.contains(step_coord(head, d))
}

/// The first direction of the list whose step from `head` is allowed.
pub open spec fn first_allowed(
    dirs: Seq<Direction>,
    head: Coordinate,
    bounds: Coordinate,
    occupied: Set<Coordinate>,
) -> Option<Direction>
    decreases dirs.len(),
{
    if dirs.len() == 0 {
        None
    } else if step_allowed(head, bounds, occupied, dirs[0]) {
        Some(dirs[0])
    } else {
        first_allowed(dirs.drop_first(), head, bounds, occupied)
    }
}

proof fn lemma_first_allowed_skip(
    dirs: Seq<Direction>,
    head: Coordinate,
    bounds: Coordinate,
    occupied: Set<Coordinate>,
    k: int,
)
    requires
        0 <= k <= dirs.len(),
        forall|i: int| 0 <= i < k ==> !step_allowed(head, bounds, occupied, #[trigger] dirs[i]),
    ensures
        first_allowed(dirs, head, bounds, occupied) == first_allowed(
            dirs.skip(k),
            head,
            bounds,
            occupied,
        ),
    decreases k,
{
    if k > 0 {
        lemma_first_allowed_skip(dirs.drop_first(), head, bounds, occupied, k - 1);
        assert(dirs.drop_first().skip(k - 1) =~= dirs.skip(k));
        assert(dirs.skip(0) =~= dirs);
    } else {
        assert(dirs.skip(0) =~= dirs);
    }
}

proof fn lemma_first_allowed_none(
    dirs: Seq<Direction>,
    head: Coordinate,
    bounds: Coordinate,
    occupied: Set<Coordinate>,
)
    requires
        first_allowed(dirs, head, bounds, occupied) is None,
    ensures
        forall|i: int| 0 <= i < dirs.len() ==> !step_allowed(head, bounds, occupied, #[trigger] dirs[i]),
    decreases dirs.len(),
{
    if dirs.len() > 0 {
        lemma_first_allowed_none(dirs.drop_first(), head, bounds, occupied);
        assert forall|i: int|
            0 <= i < dirs.len() implies !step_allowed(head, bounds, occupied, #[trigger] dirs[i]) by {
            if i > 0 {
                assert(dirs.drop_first()[i - 1] == dirs[i]);
            }
        }
    }
}

proof fn lemma_first_allowed_some(
    dirs: Seq<Direction>,
    head: Coordinate,
    bounds: Coordinate,
    occupied: Set<Coordinate>,
    d: Direction,
)
    requires
        first_allowed(dirs, head, bounds, occupied) == Some(d),
    ensures
        step_allowed(head, bounds, occupied, d),
    decreases dirs.len(),
{
    if dirs.len() > 0 && !step_allowed(head, bounds, occupied, dirs[0]) {
        lemma_first_allowed_some(dirs.drop_first(), head, bounds, occupied, d);
    }
}

/// Represents a pipe to be rendered: an ordered list of the nodes the pipe
/// occupies, with the most recently added node at index 0.
pub struct Pipe {
    pub alive: bool,
    pub nodes: Vec<Coordinate>,
    pub current_dir: Direction,
    pub space_bounds: Coordinate,
}

impl Pipe {
    /// The set of cells this pipe occupies.
    pub open spec fn node_set(self) -> Set<Coordinate> {
        self.nodes@.to_set()
    }

    /// A well-formed pipe holds at least its start node, visits no cell
    /// twice, and stays within its (workable) bounds.
    pub open spec fn wf(self) -> bool {
        &&& bounds_wf(self.space_bounds)
        &&& self.nodes@.len() >= 1
        &&& self.nodes@.no_duplicates()
        &&& forall|i: int|
            0 <= i < self.nodes@.len() ==> in_bounds_spec(
                #[trigger] self.nodes@[i],
                self.space_bounds,
            )
    }

    /// Builds a pipe with a random initial direction and a random unoccupied
    /// start cell, which is reserved in the occupancy set at once.
    pub fn new<R: EngineRng>(
        occupied_nodes: &mut OccupiedNodes,
        bounds: Coordinate,
        rng: &mut R,
    ) -> (p: Pipe)
        requires
            old(occupied_nodes).wf(),
            bounds_wf(bounds),
            old(occupied_nodes)@.len() < volume(bounds),
            forall|c: Coordinate| old(occupied_nodes)@.contains(c) ==> in_bounds_spec(c, bounds),
        ensures
            final(occupied_nodes).wf(),
            p.wf(),
            p.alive,
            p.space_bounds == bounds,
            p.nodes@.len() == 1,
            in_bounds_spec(p.nodes@[0], bounds),
            !old(occupied_nodes)@.contains(p.nodes@[0]),
            final(occupied_nodes)@ == old(occupied_nodes)@.insert(p.nodes@[0]),
    {
        let current_dir = crate::util::choose_random_direction(rng);
        let start_opt = crate::util::find_random_start(occupied_nodes, bounds, rng);
        let start = match start_opt {
            Some(s) => s,
            None => {
                proof {
                    lemma_box_volume(bounds);
                    occupied_nodes.lemma_view_finite();
                    assert(occupied_nodes@ =~= box_set(bounds));
                    assert(false);
                }
                vstd::pervasive::unreached()
            },
        };
        let mut p = Pipe { alive: true, nodes: Vec::new(), current_dir, space_bounds: bounds };
        p.nodes.push(start);
        occupied_nodes.insert(start);
        p
    }

    /// Whether the pipe can still be advanced.
    pub fn is_alive(&self) -> (r: bool)
        ensures
            r == self.alive,
    {
        self.alive
    }

    /// Transitions the pipe to its terminal, dead state.
    pub fn kill(&mut self)
        ensures
            final(self).alive == false,
            final(self).nodes == old(self).nodes,
            final(self).current_dir == old(self).current_dir,
            final(self).space_bounds == old(self).space_bounds,
    {
        self.alive = false;
    }

    /// Returns the current head of the pipe, which is the first element of
    /// the nodes vector: a new node is always added to the front.
    pub fn get_current_head(&self) -> (r: Coordinate)
        requires
            self.nodes@.len() >= 1,
        ensures
            r == self.nodes@[0],
    {
        self.nodes[0]
    }

    /// Direction of the most recent successful step.
    pub fn get_current_dir(&self) -> (r: Direction)
        ensures
            r == self.current_dir,
    {
        self.current_dir
    }

    /// Number of nodes of the pipe.
    pub fn len(&self) -> (n: i32)
        requires
            self.wf(),
        ensures
            n == self.nodes@.len(),
    {
        proof {
            broadcast use vstd::seq_lib::seq_to_set_is_finite;

            self.nodes@.unique_seq_to_set();
            lemma_occupancy_bounded(self.node_set(), self.space_bounds);
        }
        self.nodes.len() as i32
    }

    /// Builds the candidate direction list for one step: the six directions
    /// shuffled, and, when the pipe has history and does not want to turn,
    /// its current direction prepended as the preferred continuation.
    pub fn get_directions<R: EngineRng>(
        &self,
        rng: &mut R,
        turn_chance_num: u64,
        turn_chance_den: u64,
    ) -> (dirs: Vec<Direction>)
        requires
            turn_chance_den > 0,
        ensures
            6 <= dirs@.len() <= 7,
            forall|d: Direction| dirs@.contains(d),
            dirs@.len() == 6 ==> dirs@.to_multiset() == all_directions().to_multiset(),
            dirs@.len() == 7 ==> dirs@[0] == self.current_dir && self.nodes@.len() > 1
                && dirs@.skip(1).to_multiset() == all_directions().to_multiset(),
            self.nodes@.len() <= 1 ==> dirs@.len() == 6,
    {
        let want_to_turn = rng.bool_with_chance(turn_chance_num, turn_chance_den);
        let mut directions_to_try = Direction::iterator();
        rng.shuffle(&mut directions_to_try);
        proof {
            directions_to_try@.to_multiset_ensures();
            all_directions().to_multiset_ensures();
            assert(directions_to_try@.len() == all_directions().len());
            assert forall|d: Direction| directions_to_try@.contains(d) by {
                match d {
                    Direction::North => assert(all_directions()[0] == d),
                    Direction::South => assert(all_directions()[1] == d),
                    Direction::East => assert(all_directions()[2] == d),
                    Direction::West => assert(all_directions()[3] == d),
                    Direction::Up => assert(all_directions()[4] == d),
                    Direction::Down => assert(all_directions()[5] == d),
                }
                assert(all_directions().contains(d));
                assert(all_directions().to_multiset().count(d) > 0);
                assert(directions_to_try@.to_multiset().count(d) > 0);
            }
        }
        if self.nodes.len() > 1 && !want_to_turn {
            let ghost shuffled = directions_to_try@;
            directions_to_try.insert(0, self.current_dir);
            proof {
                assert(directions_to_try@ =~= seq![self.current_dir] + shuffled);
                assert(directions_to_try@.skip(1) =~= shuffled);
                assert forall|d: Direction| directions_to_try@.contains(d) by {
                    assert(shuffled.contains(d));
                    let i = choose|i: int| 0 <= i < shuffled.len() && shuffled[i] == d;
                    assert(directions_to_try@[i + 1] == d);
                }
            }
        }
        directions_to_try
    }

    /// Walks the candidate list and accepts the first direction whose step
    /// from the head is in bounds and unoccupied, recording it as the pipe's
    /// direction; `None` when no candidate is valid.
    pub fn get_next_pos(
        &mut self,
        directions_to_try: Vec<Direction>,
        occupied_nodes: &OccupiedNodes,
    ) -> (r: Option<Coordinate>)
        requires
            old(self).nodes@.len() >= 1,
            bounds_wf(old(self).space_bounds),
            in_bounds_spec(old(self).nodes@[0], old(self).space_bounds),
        ensures
            final(self).alive == old(self).alive,
            final(self).nodes == old(self).nodes,
            final(self).space_bounds == old(self).space_bounds,
            match first_allowed(
                directions_to_try@,
                old(self).nodes@[0],
                old(self).space_bounds,
                occupied_nodes@,
            ) {
                Option::Some(d) => {
                    &&& r == Option::Some(step_coord(old(self).nodes@[0], d))
                    &&& final(self).current_dir == d
                },
                Option::None => {
                    &&& r is None
                    &&& final(self).current_dir == old(self).current_dir
                },
            },
    {
        let ghost head0 = self.nodes@[0];
        let ghost bounds = self.space_bounds;
        let ghost occ = occupied_nodes@;
        let head = self.get_current_head();
        let mut k: usize = 0;
        while k < directions_to_try.len()
            invariant
                k <= directions_to_try@.len(),
                *self == *old(self),
                head == head0,
                head0 == old(self).nodes@[0],
                bounds == old(self).space_bounds,
                occ == occupied_nodes@,
                old(self).nodes@.len() >= 1,
                bounds_wf(bounds),
                in_bounds_spec(head0, bounds),
                forall|i: int|
                    0 <= i < k ==> !step_allowed(
                        head0,
                        bounds,
                        occ,
                        #[trigger] directions_to_try@[i],
                    ),
            decreases directions_to_try@.len() - k,
        {
            let dir = directions_to_try[k];
            let new_position = step_in_dir(head, dir);
            if is_in_bounds(new_position, self.space_bounds) {
                if !occupied_nodes.contains(new_position) {
                    self.current_dir = dir;
                    proof {
                        assert(new_position == step_coord(head0, dir));
                        assert(step_allowed(head0, bounds, occ, dir));
                        lemma_first_allowed_skip(directions_to_try@, head0, bounds, occ, k as int);
                        assert(directions_to_try@.skip(k as int)[0] == dir);
                        assert(first_allowed(directions_to_try@.skip(k as int), head0, bounds, occ)
                            == Some(dir));
                    }
                    return Some(new_position);
                }
            }
            proof {
                assert(directions_to_try@[k as int] == dir);
                assert(!step_allowed(head0, bounds, occ, dir));
            }
            k = k + 1;
        }
        proof {
            lemma_first_allowed_skip(
                directions_to_try@,
                head0,
                bounds,
                occ,
                directions_to_try@.len() as int,
            );
            assert(directions_to_try@.skip(directions_to_try@.len() as int).len() == 0);
        }
        None
    }

    /// Advances the pipe by one step. A dead pipe is left untouched and
    /// consumes no randomness. A live pipe either grows by one cell that was
    /// in bounds and unoccupied — reserving it in the occupancy set — or, if
    /// no direction at all allows a step, dies with nothing changed.
    pub fn update<R: EngineRng>(
        &mut self,
        occupied_nodes: &mut OccupiedNodes,
        rng: &mut R,
        turn_chance: Option<(u64, u64)>,
    )
        requires
            old(self).wf(),
            old(occupied_nodes).wf(),
            forall|i: int|
                0 <= i < old(self).nodes@.len() ==> old(occupied_nodes)@.contains(
                    #[trigger] old(self).nodes@[i],
                ),
            match turn_chance {
                Some(chance) => chance.1 > 0,
                None => true,
            },
        ensures
            final(self).wf(),
            final(occupied_nodes).wf(),
            final(self).space_bounds == old(self).space_bounds,
            old(occupied_nodes)@.subset_of(final(occupied_nodes)@),
            forall|i: int|
                0 <= i < final(self).nodes@.len() ==> final(occupied_nodes)@.contains(
                    #[trigger] final(self).nodes@[i],
                ),
            !old(self).alive ==> *final(self) == *old(self) && final(occupied_nodes)@ == old(
                occupied_nodes,
            )@ && *final(rng) == *old(rng),
            final(self).alive ==> old(self).alive,
            old(self).alive && !final(self).alive ==> {
                &&& final(self).nodes == old(self).nodes
                &&& final(self).current_dir == old(self).current_dir
                &&& final(occupied_nodes)@ == old(occupied_nodes)@
                &&& forall|d: Direction|
                    !step_allowed(
                        old(self).nodes@[0],
                        old(self).space_bounds,
                        old(occupied_nodes)@,
                        d,
                    )
            },
            old(self).alive && final(self).alive ==> {
                let head = final(self).nodes@[0];
                &&& final(self).nodes@ == seq![head] + old(self).nodes@
                &&& stepped(old(self).nodes@[0], final(self).current_dir, head)
                &&& in_bounds_spec(head, old(self).space_bounds)
                &&& !old(occupied_nodes)@.contains(head)
                &&& final(occupied_nodes)@ == old(occupied_nodes)@.insert(head)
            },
    {
        if !self.alive {
            return ;
        }
        let chance = match turn_chance {
            Some(chance) => chance,
            None => (1u64, 2u64),
        };
        let directions_to_try = self.get_directions(rng, chance.0, chance.1);
        let ghost dirs = directions_to_try@;
        let ghost head0 = self.nodes@[0];
        let ghost occ0 = occupied_nodes@;
        let next = self.get_next_pos(directions_to_try, occupied_nodes);
        match next {
            Some(pos) => {
                proof {
                    let chosen = first_allowed(dirs, head0, self.space_bounds, occ0);
                    assert(chosen is Some);
                    lemma_first_allowed_some(dirs, head0, self.space_bounds, occ0, chosen->Some_0);
                }
                occupied_nodes.insert(pos);
                let ghost nodes0 = self.nodes@;
                self.nodes.insert(0, pos);
                proof {
                    assert(self.nodes@ =~= seq![pos] + nodes0);
                    assert(step_allowed(head0, self.space_bounds, occ0, self.current_dir));
                    assert(in_bounds_spec(pos, self.space_bounds));
                    assert(!occ0.contains(pos));
                    assert(self.nodes@.no_duplicates()) by {
                        assert forall|i: int, j: int|
                            0 <= i < self.nodes@.len() && 0 <= j < self.nodes@.len() && i != j
                            implies self.nodes@[i] != self.nodes@[j] by {
                            if i == 0 {
                                assert(occ0.contains(nodes0[j - 1]));
                            } else if j == 0 {
                                assert(occ0.contains(nodes0[i - 1]));
                            } else {
                                assert(nodes0[i - 1] != nodes0[j - 1]);
                            }
                        }
                    }
                }
            },
            None => {
                self.kill();
                proof {
                    lemma_first_allowed_none(dirs, head0, self.space_bounds, occ0);
                    assert forall|d: Direction|
                        !step_allowed(head0, self.space_bounds, occ0, d) by {
                        assert(dirs.contains(d));
                        let i = choose|i: int| 0 <= i < dirs.len() && dirs[i] == d;
                        assert(!step_allowed(head0, self.space_bounds, occ0, dirs[i]));
                    }
                }
            },
        }
    }
}

} // verus!
