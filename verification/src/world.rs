//! The world: the pipe population, the shared occupancy set, spawn and kill
//! logic, the phase flag, and the per-tick update of one pipe.

use vstd::prelude::*;

use crate::config::Configuration;
use crate::occupancy::{lemma_occupancy_bounded, OccupiedNodes};
use crate::pipe::{step_allowed, Pipe};
use crate::rng::EngineRng;
use crate::util::{bounds_wf, in_bounds_spec, stepped, volume, Color, Coordinate, Direction};

verus! {

/// Per-tick delta of one pipe, handed to the render loop to keep state
/// entanglement with the world low.
pub struct PipeChangeData {
    pub last_node: Coordinate,
    pub last_dir: Direction,
    pub current_node: Coordinate,
    pub current_dir: Direction,
    pub pipe_color: Color,
}

/// What the render loop needs of a freshly spawned pipe.
pub struct NewPipeData {
    pub start_node: Coordinate,
    pub color: Color,
}

/// One generation cycle of the animation: the pipes in spawn order, their
/// colors, the shared occupancy set, and the phase and chance parameters.
pub struct World {
    pub pipes: Vec<Pipe>,
    pub pipe_colors: Vec<Color>,
    pub occupied_nodes: OccupiedNodes,
    pub space_bounds: Coordinate,
    pub new_pipe_chance: (u64, u64),
    pub active_pipes: usize,
    pub gen_complete: bool,
    pub turn_chance: (u64, u64),
}

impl World {
    /// The world invariant: pipes and colors are index-aligned and counted
    /// by `active_pipes`; every pipe is well-formed over the world's bounds;
    /// a cell is occupied exactly when some pipe has a node there; and the
    /// node sets of distinct pipes are disjoint.
    pub open spec fn wf(self) -> bool {
        &&& bounds_wf(self.space_bounds)
        &&& self.occupied_nodes.wf()
        &&& self.pipes@.len() == self.pipe_colors@.len()
        &&& self.active_pipes == self.pipes@.len()
        &&& self.new_pipe_chance.1 > 0
        &&& self.turn_chance.1 > 0
        &&& forall|i: int| 0 <= i < self.pipes@.len() ==> (#[trigger] self.pipes@[i]).wf()
        &&& forall|i: int|
            0 <= i < self.pipes@.len() ==> (#[trigger] self.pipes@[i]).space_bounds
                == self.space_bounds
        &&& forall|i: int, j: int|
            0 <= i < self.pipes@.len() && 0 <= j < self.pipes@[i].nodes@.len()
                ==> self.occupied_nodes@.contains(#[trigger] self.pipes@[i].nodes@[j])
        &&& forall|c: Coordinate|
            self.occupied_nodes@.contains(c) ==> exists|i: int, j: int|
                0 <= i < self.pipes@.len() && 0 <= j < self.pipes@[i].nodes@.len()
                    && self.pipes@[i].nodes@[j] == c
        &&& forall|i: int, j: int|
            #![trigger self.pipes@[i].node_set().disjoint(self.pipes@[j].node_set())]
            0 <= i < self.pipes@.len() && 0 <= j < self.pipes@.len() && i != j
                ==> self.pipes@[i].node_set().disjoint(self.pipes@[j].node_set())
    }

    /// Every occupied cell lies in the bounded box, so the occupancy count
    /// never exceeds the volume of the space.
    pub proof fn lemma_occupied_in_box(&self)
        requires
            self.wf(),
        ensures
            forall|c: Coordinate|
                self.occupied_nodes@.contains(c) ==> in_bounds_spec(c, self.space_bounds),
            self.occupied_nodes@.len() <= volume(self.space_bounds),
    {
        assert forall|c: Coordinate|
            self.occupied_nodes@.contains(c) implies in_bounds_spec(c, self.space_bounds) by {
            let (i, j) = choose|i: int, j: int|
                0 <= i < self.pipes@.len() && 0 <= j < self.pipes@[i].nodes@.len()
                    && self.pipes@[i].nodes@[j] == c;
            assert(self.pipes@[i].wf());
        }
        self.occupied_nodes.lemma_view_finite();
        lemma_occupancy_bounded(self.occupied_nodes@, self.space_bounds);
    }
}

/// The node set of a one-node-longer pipe is the old set plus the new head.
proof fn lemma_cons_to_set(h: Coordinate, s: Seq<Coordinate>)
    ensures
        (seq![h] + s).to_set() =~= s.to_set().insert(h),
{
    let grown = seq![h] + s;
    assert forall|x: Coordinate| grown.to_set().contains(x) implies s.to_set().insert(h).contains(
        x,
    ) by {
        let i = choose|i: int| 0 <= i < grown.len() && grown[i] == x;
        if i > 0 {
            assert(s[i - 1] == x);
        }
    }
    assert forall|x: Coordinate| s.to_set().insert(h).contains(x) implies grown.to_set().contains(
        x,
    ) by {
        if x == h {
            assert(grown[0] == x);
        } else {
            let i = choose|i: int| 0 <= i < s.len() && s[i] == x;
            assert(grown[i + 1] == x);
        }
    }
}

/// A world stays well-formed when one pipe changes nothing but its liveness
/// flag and everything else is kept.
proof fn lemma_wf_after_flag_change(pre: World, post: World, idx: int)
    requires
        pre.wf(),
        0 <= idx < pre.pipes@.len(),
        post.pipes@.len() == pre.pipes@.len(),
        post.pipe_colors == pre.pipe_colors,
        post.occupied_nodes@ == pre.occupied_nodes@,
        post.occupied_nodes.wf(),
        post.space_bounds == pre.space_bounds,
        post.active_pipes == pre.active_pipes,
        post.new_pipe_chance == pre.new_pipe_chance,
        post.turn_chance == pre.turn_chance,
        forall|k: int|
            0 <= k < pre.pipes@.len() && k != idx ==> post.pipes@[k] == pre.pipes@[k],
        post.pipes@[idx].nodes == pre.pipes@[idx].nodes,
        post.pipes@[idx].space_bounds == pre.pipes@[idx].space_bounds,
    ensures
        post.wf(),
{
    assert forall|i: int| 0 <= i < post.pipes@.len() implies (#[trigger] post.pipes@[i]).wf() by {
        assert(pre.pipes@[i].wf());
    }
    assert forall|i: int, j: int|
        0 <= i < post.pipes@.len() && 0 <= j < post.pipes@[i].nodes@.len()
        implies post.occupied_nodes@.contains(#[trigger] post.pipes@[i].nodes@[j]) by {
        assert(post.pipes@[i].nodes == pre.pipes@[i].nodes);
        assert(pre.occupied_nodes@.contains(pre.pipes@[i].nodes@[j]));
    }
    assert forall|c: Coordinate| post.occupied_nodes@.contains(c) implies exists|i: int, j: int|
        0 <= i < post.pipes@.len() && 0 <= j < post.pipes@[i].nodes@.len()
            && post.pipes@[i].nodes@[j] == c by {
        let (i, j) = choose|i: int, j: int|
            0 <= i < pre.pipes@.len() && 0 <= j < pre.pipes@[i].nodes@.len()
                && pre.pipes@[i].nodes@[j] == c;
        assert(post.pipes@[i].nodes == pre.pipes@[i].nodes);
        assert(0 <= i < post.pipes@.len() && 0 <= j < post.pipes@[i].nodes@.len()
            && post.pipes@[i].nodes@[j] == c);
    }
    assert forall|i: int, j: int|
        0 <= i < post.pipes@.len() && 0 <= j < post.pipes@.len() && i != j
        implies #[trigger] post.pipes@[i].node_set().disjoint(
        #[trigger] post.pipes@[j].node_set()) by {
        assert(pre.pipes@[i].node_set().disjoint(pre.pipes@[j].node_set()));
        assert(post.pipes@[i].node_set() == pre.pipes@[i].node_set());
        assert(post.pipes@[j].node_set() == pre.pipes@[j].node_set());
    }
}

/// A world stays well-formed when one pipe grows by one head cell that was
/// unoccupied, and that cell alone joins the occupancy set.
proof fn lemma_wf_after_growth(pre: World, post: World, idx: int, h: Coordinate)
    requires
        pre.wf(),
        0 <= idx < pre.pipes@.len(),
        post.pipes@.len() == pre.pipes@.len(),
        post.pipe_colors == pre.pipe_colors,
        post.space_bounds == pre.space_bounds,
        post.active_pipes == pre.active_pipes,
        post.new_pipe_chance == pre.new_pipe_chance,
        post.turn_chance == pre.turn_chance,
        forall|k: int|
            0 <= k < pre.pipes@.len() && k != idx ==> post.pipes@[k] == pre.pipes@[k],
        post.pipes@[idx].wf(),
        post.pipes@[idx].space_bounds == pre.space_bounds,
        post.pipes@[idx].nodes@ == seq![h] + pre.pipes@[idx].nodes@,
        !pre.occupied_nodes@.contains(h),
        post.occupied_nodes@ == pre.occupied_nodes@.insert(h),
        post.occupied_nodes.wf(),
    ensures
        post.wf(),
{
    lemma_cons_to_set(h, pre.pipes@[idx].nodes@);
    assert(post.pipes@[idx].node_set() =~= pre.pipes@[idx].node_set().insert(h));
    assert forall|i: int| 0 <= i < post.pipes@.len() implies (#[trigger] post.pipes@[i]).wf() by {
        if i != idx {
            assert(pre.pipes@[i].wf());
        }
    }
    assert forall|i: int, j: int|
        0 <= i < post.pipes@.len() && 0 <= j < post.pipes@[i].nodes@.len()
        implies post.occupied_nodes@.contains(#[trigger] post.pipes@[i].nodes@[j]) by {
        if i == idx {
            if j == 0 {
                assert(post.pipes@[idx].nodes@[0] == h);
            } else {
                assert(post.pipes@[idx].nodes@[j] == pre.pipes@[idx].nodes@[j - 1]);
                assert(pre.occupied_nodes@.contains(pre.pipes@[idx].nodes@[j - 1]));
            }
        } else {
            assert(pre.occupied_nodes@.contains(pre.pipes@[i].nodes@[j]));
        }
    }
    assert forall|c: Coordinate| post.occupied_nodes@.contains(c) implies exists|i: int, j: int|
        0 <= i < post.pipes@.len() && 0 <= j < post.pipes@[i].nodes@.len()
            && post.pipes@[i].nodes@[j] == c by {
        if c == h {
            assert(0 <= idx < post.pipes@.len() && 0 <= 0 < post.pipes@[idx].nodes@.len()
                && post.pipes@[idx].nodes@[0] == c);
        } else {
            let (i, j) = choose|i: int, j: int|
                0 <= i < pre.pipes@.len() && 0 <= j < pre.pipes@[i].nodes@.len()
                    && pre.pipes@[i].nodes@[j] == c;
            if i == idx {
                assert(post.pipes@[idx].nodes@[j + 1] == c);
                assert(0 <= idx < post.pipes@.len() && 0 <= j + 1 < post.pipes@[idx].nodes@.len()
                    && post.pipes@[idx].nodes@[j + 1] == c);
            } else {
                assert(0 <= i < post.pipes@.len() && 0 <= j < post.pipes@[i].nodes@.len()
                    && post.pipes@[i].nodes@[j] == c);
            }
        }
    }
    assert forall|i: int, j: int|
        0 <= i < post.pipes@.len() && 0 <= j < post.pipes@.len() && i != j
        implies #[trigger] post.pipes@[i].node_set().disjoint(
        #[trigger] post.pipes@[j].node_set()) by {
        assert(pre.pipes@[i].node_set().disjoint(pre.pipes@[j].node_set()));
        if i == idx || j == idx {
            let other = if i == idx { j } else { i };
            assert(post.pipes@[other].node_set() == pre.pipes@[other].node_set());
            assert(!pre.pipes@[other].node_set().contains(h)) by {
                if pre.pipes@[other].node_set().contains(h) {
                    let jj = choose|jj: int|
                        0 <= jj < pre.pipes@[other].nodes@.len()
                            && pre.pipes@[other].nodes@[jj] == h;
                    assert(pre.occupied_nodes@.contains(pre.pipes@[other].nodes@[jj]));
                }
            }
        } else {
            assert(post.pipes@[i].node_set() == pre.pipes@[i].node_set());
            assert(post.pipes@[j].node_set() == pre.pipes@[j].node_set());
        }
    }
}

impl Default for World {
    /// The default world: empty, 20 cells per axis, a one-in-ten new-pipe
    /// chance and a three-in-ten turn chance.
    fn default() -> (w: Self)
        ensures
            w.wf(),
            w.pipes@.len() == 0,
            w.pipe_colors@.len() == 0,
            w.occupied_nodes@ == Set::<Coordinate>::empty(),
            w.space_bounds == ((20i32, 20i32, 20i32)),
            w.new_pipe_chance == ((1u64, 10u64)),
            w.active_pipes == 0,
            w.gen_complete == false,
            w.turn_chance == ((3u64, 10u64)),
    {
        World {
            pipes: Vec::new(),
            pipe_colors: Vec::new(),
            occupied_nodes: OccupiedNodes::new(),
            space_bounds: (20, 20, 20),
            new_pipe_chance: (1, 10),
            active_pipes: 0,
            gen_complete: false,
            turn_chance: (3, 10),
        }
    }
}

impl World {
    /// A fresh world: bounds and turn chance from the configuration when one
    /// is given, the defaults otherwise.
    pub fn new(config: Option<&Configuration>) -> (w: Self)
        requires
            match config {
                Some(cfg) => cfg.world.wf(),
                None => true,
            },
        ensures
            w.wf(),
            w.pipes@.len() == 0,
            w.pipe_colors@.len() == 0,
            w.occupied_nodes@ == Set::<Coordinate>::empty(),
            w.active_pipes == 0,
            w.gen_complete == false,
            w.new_pipe_chance == ((1u64, 10u64)),
            match config {
                Some(cfg) => w.space_bounds == (
                    cfg.world.max_bounds.0 as i32,
                    cfg.world.max_bounds.1 as i32,
                    cfg.world.max_bounds.2 as i32,
                ) && w.turn_chance == cfg.world.turn_chance,
                None => w.space_bounds == ((20i32, 20i32, 20i32)) && w.turn_chance == (
                    (3u64, 10u64)
                ),
            },
    {
        match config {
            Some(cfg) => {
                let bounds = cfg.world.max_bounds;
                let mut w = World::default();
                proof {
                    assert((bounds.0 as i32) * (bounds.1 as i32) * (bounds.2 as i32) * 10
                        <= i32::MAX) by (nonlinear_arith)
                        requires
                            1 <= bounds.0 <= 255,
                            1 <= bounds.1 <= 255,
                            1 <= bounds.2 <= 255,
                    ;
                }
                w.space_bounds = (bounds.0 as i32, bounds.1 as i32, bounds.2 as i32);
                w.turn_chance = cfg.world.turn_chance;
                w
            },
            None => World::default(),
        }
    }

    /// Whether the space is completely occupied, so that no pipe can spawn.
    pub fn is_space_full(&self) -> (r: bool)
        requires
            self.wf(),
        ensures
            r == (self.occupied_nodes@.len() == volume(self.space_bounds)),
            !r ==> self.occupied_nodes@.len() < volume(self.space_bounds),
    {
        let (x_max, y_max, z_max) = self.space_bounds;
        proof {
            assert(x_max * y_max <= x_max * y_max * z_max && 0 < x_max * y_max)
                by (nonlinear_arith)
                requires
                    0 < x_max,
                    0 < y_max,
                    0 < z_max,
            ;
            self.lemma_occupied_in_box();
        }
        let total = x_max * y_max * z_max;
        self.occupied_nodes.len() == total as usize
    }

    /// Number of occupied cells, for callers that must check the space
    /// before spawning.
    pub fn occupied_count(&self) -> (n: usize)
        requires
            self.wf(),
        ensures
            n == self.occupied_nodes@.len(),
    {
        self.occupied_nodes.len()
    }

    /// Spawns one pipe with a random start cell — reserved at once — and a
    /// random color, and appends both to the index-aligned lists.
    pub fn new_pipe<R: EngineRng>(&mut self, rng: &mut R) -> (data: NewPipeData)
        requires
            old(self).wf(),
            old(self).occupied_nodes@.len() < volume(old(self).space_bounds),
        ensures
            final(self).wf(),
            final(self).space_bounds == old(self).space_bounds,
            final(self).gen_complete == old(self).gen_complete,
            final(self).turn_chance == old(self).turn_chance,
            final(self).new_pipe_chance == old(self).new_pipe_chance,
            final(self).active_pipes == old(self).active_pipes + 1,
            final(self).pipes@.len() == old(self).pipes@.len() + 1,
            forall|k: int|
                0 <= k < old(self).pipes@.len() ==> final(self).pipes@[k] == old(self).pipes@[k],
            final(self).pipe_colors@ == old(self).pipe_colors@.push(data.color),
            ({
                let p = final(self).pipes@.last();
                &&& p.alive
                &&& p.nodes@.len() == 1
                &&& p.nodes@[0] == data.start_node
            }),
            in_bounds_spec(data.start_node, old(self).space_bounds),
            !old(self).occupied_nodes@.contains(data.start_node),
            final(self).occupied_nodes@ == old(self).occupied_nodes@.insert(data.start_node),
    {
        proof {
            self.lemma_occupied_in_box();
        }
        let bounds = self.space_bounds;
        let p = Pipe::new(&mut self.occupied_nodes, bounds, rng);
        let start = p.get_current_head();
        let new_color: Color = (rng.u8(0, 255), rng.u8(0, 255), rng.u8(0, 255));
        let ghost pre_pipes = self.pipes@;
        self.pipes.push(p);
        self.pipe_colors.push(new_color);
        let n = self.pipes.len();
        proof {
            assert(n == old(self).pipes@.len() + 1);
        }
        self.active_pipes = n;
        proof {
            let postw = *self;
            let idx = pre_pipes.len() as int;
            assert(postw.pipes@[idx].node_set() =~= Set::<Coordinate>::empty().insert(start));
            assert forall|i: int|
                0 <= i < postw.pipes@.len() implies (#[trigger] postw.pipes@[i]).wf() by {
                if i < idx {
                    assert(old(self).pipes@[i].wf());
                }
            }
            assert forall|i: int, j: int|
                0 <= i < postw.pipes@.len() && 0 <= j < postw.pipes@[i].nodes@.len()
                implies postw.occupied_nodes@.contains(#[trigger] postw.pipes@[i].nodes@[j]) by {
                if i < idx {
                    assert(old(self).occupied_nodes@.contains(old(self).pipes@[i].nodes@[j]));
                }
            }
            assert forall|c: Coordinate|
                postw.occupied_nodes@.contains(c) implies exists|i: int, j: int|
                0 <= i < postw.pipes@.len() && 0 <= j < postw.pipes@[i].nodes@.len()
                    && postw.pipes@[i].nodes@[j] == c by {
                if c == start {
                    assert(0 <= idx < postw.pipes@.len() && 0 <= 0 < postw.pipes@[idx].nodes@.len()
                        && postw.pipes@[idx].nodes@[0] == c);
                } else {
                    let (i, j) = choose|i: int, j: int|
                        0 <= i < old(self).pipes@.len() && 0 <= j < old(
                            self,
                        ).pipes@[i].nodes@.len() && old(self).pipes@[i].nodes@[j] == c;
                    assert(0 <= i < postw.pipes@.len() && 0 <= j < postw.pipes@[i].nodes@.len()
                        && postw.pipes@[i].nodes@[j] == c);
                }
            }
            assert forall|i: int, j: int|
                0 <= i < postw.pipes@.len() && 0 <= j < postw.pipes@.len() && i != j
                implies #[trigger] postw.pipes@[i].node_set().disjoint(
                #[trigger] postw.pipes@[j].node_set()) by {
                if i < idx && j < idx {
                    assert(old(self).pipes@[i].node_set().disjoint(
                        old(self).pipes@[j].node_set()));
                    assert(postw.pipes@[i].node_set() == old(self).pipes@[i].node_set());
                    assert(postw.pipes@[j].node_set() == old(self).pipes@[j].node_set());
                } else {
                    let other = if i == idx { j } else { i };
                    assert(postw.pipes@[other].node_set() == old(self).pipes@[other].node_set());
                    assert(!old(self).pipes@[other].node_set().contains(start)) by {
                        if old(self).pipes@[other].node_set().contains(start) {
                            let jj = choose|jj: int|
                                0 <= jj < old(self).pipes@[other].nodes@.len() && old(
                                    self,
                                ).pipes@[other].nodes@[jj] == start;
                            assert(old(self).occupied_nodes@.contains(
                                old(self).pipes@[other].nodes@[jj]));
                        }
                    }
                }
            }
        }
        NewPipeData { start_node: start, color: new_color }
    }

    /// Advances the pipe at `idx` by one tick: snapshots its head and
    /// direction, runs its update, then — once the pipe has grown to a tenth
    /// of the space — draws a death chance that rises as the space fills.
    /// Returns the delta for the render loop. The occupancy set never
    /// shrinks, a dead pipe is never revived, and the pipe either keeps its
    /// nodes (dying exactly when boxed in, if it was alive) or grows by one
    /// cell that was in bounds and unoccupied.
    pub fn pipe_update<R: EngineRng>(&mut self, idx: usize, rng: &mut R) -> (data: PipeChangeData)
        requires
            old(self).wf(),
            idx < old(self).pipes@.len(),
        ensures
            final(self).wf(),
            final(self).space_bounds == old(self).space_bounds,
            final(self).gen_complete == old(self).gen_complete,
            final(self).turn_chance == old(self).turn_chance,
            final(self).new_pipe_chance == old(self).new_pipe_chance,
            final(self).active_pipes == old(self).active_pipes,
            final(self).pipes@.len() == old(self).pipes@.len(),
            final(self).pipe_colors == old(self).pipe_colors,
            forall|k: int|
                0 <= k < old(self).pipes@.len() && k != idx ==> final(self).pipes@[k] == old(
                    self,
                ).pipes@[k],
            data.pipe_color == old(self).pipe_colors@[idx as int],
            data.last_node == old(self).pipes@[idx as int].nodes@[0],
            data.last_dir == old(self).pipes@[idx as int].current_dir,
            data.current_node == final(self).pipes@[idx as int].nodes@[0],
            data.current_dir == final(self).pipes@[idx as int].current_dir,
            old(self).occupied_nodes@.subset_of(final(self).occupied_nodes@),
            final(self).pipes@[idx as int].alive ==> old(self).pipes@[idx as int].alive,
            !old(self).pipes@[idx as int].alive ==> {
                &&& final(self).pipes@[idx as int].nodes == old(self).pipes@[idx as int].nodes
                &&& final(self).pipes@[idx as int].current_dir == old(
                    self,
                ).pipes@[idx as int].current_dir
                &&& !final(self).pipes@[idx as int].alive
                &&& final(self).occupied_nodes@ == old(self).occupied_nodes@
            },
            ({
                let op = old(self).pipes@[idx as int];
                let np = final(self).pipes@[idx as int];
                ||| {
                    &&& np.nodes == op.nodes
                    &&& np.current_dir == op.current_dir
                    &&& final(self).occupied_nodes@ == old(self).occupied_nodes@
                    &&& op.alive ==> !np.alive && (forall|d: Direction|
                        !step_allowed(
                            op.nodes@[0],
                            old(self).space_bounds,
                            old(self).occupied_nodes@,
                            d,
                        ))
                }
                ||| {
                    &&& op.alive
                    &&& np.nodes@ == seq![np.nodes@[0]] + op.nodes@
                    &&& stepped(op.nodes@[0], np.current_dir, np.nodes@[0])
                    &&& in_bounds_spec(np.nodes@[0], old(self).space_bounds)
                    &&& !old(self).occupied_nodes@.contains(np.nodes@[0])
                    &&& final(self).occupied_nodes@ == old(self).occupied_nodes@.insert(
                        np.nodes@[0],
                    )
                    &&& np.nodes@.len() < volume(old(self).space_bounds) * 10 / 100 ==> np.alive
                }
            }),
    {
        let color = self.pipe_colors[idx];
        let last_node = self.pipes[idx].get_current_head();
        let last_dir = self.pipes[idx].get_current_dir();
        let turn_chance = self.turn_chance;
        let ghost prew = *self;
        proof {
            assert forall|j: int|
                0 <= j < self.pipes@[idx as int].nodes@.len()
                implies self.occupied_nodes@.contains(
                #[trigger] self.pipes@[idx as int].nodes@[j]) by {
            }
        }
        self.pipes[idx].update(&mut self.occupied_nodes, rng, Some(turn_chance));
        proof {
            let midw = *self;
            let op = prew.pipes@[idx as int];
            let np = midw.pipes@[idx as int];
            if np.nodes@.len() == op.nodes@.len() {
                assert(np.nodes == op.nodes);
                lemma_wf_after_flag_change(prew, midw, idx as int);
            } else {
                lemma_wf_after_growth(prew, midw, idx as int, np.nodes@[0]);
            }
        }
        let current_node = self.pipes[idx].get_current_head();
        let current_dir = self.pipes[idx].get_current_dir();
        let (x_max, y_max, z_max) = self.space_bounds;
        proof {
            assert(x_max * y_max <= x_max * y_max * z_max && 0 < x_max * y_max)
                by (nonlinear_arith)
                requires
                    0 < x_max,
                    0 < y_max,
                    0 < z_max,
            ;
        }
        let total = x_max * y_max * z_max;
        let occupied_count = self.occupied_nodes.len();
        let ghost midw = *self;
        if self.pipes[idx].len() >= total * 10 / 100 {
            if rng.bool_with_chance(occupied_count as u64, total as u64) {
                self.pipes[idx].kill();
                proof {
                    lemma_wf_after_flag_change(midw, *self, idx as int);
                }
            }
        }
        PipeChangeData {
            last_node,
            last_dir,
            current_node,
            current_dir,
            pipe_color: color,
        }
    }

    /// How many pipes have ever been spawned into this world; dead pipes
    /// stay counted and indexed.
    pub fn active_pipes_count(&self) -> (n: usize)
        ensures
            n == self.active_pipes,
    {
        self.active_pipes
    }

    /// Whether another pipe may still be spawned under the given cap.
    pub fn can_spawn_pipe(&self, max_num: u8) -> (r: bool)
        ensures
            r == (self.active_pipes < max_num as usize),
    {
        self.active_pipes < max_num as usize
    }

    /// The configured chance of spawning a new pipe on a tick, as a ratio.
    pub fn new_pipe_chance(&self) -> (r: (u64, u64))
        ensures
            r == self.new_pipe_chance,
    {
        self.new_pipe_chance
    }

    /// Whether the pipe at `idx` is still alive.
    pub fn is_pipe_alive(&self, idx: usize) -> (r: bool)
        requires
            idx < self.pipes@.len(),
        ensures
            r == self.pipes@[idx as int].alive,
    {
        self.pipes[idx].is_alive()
    }

    /// Whether the growth phase of this generation has ended.
    pub fn is_gen_complete(&self) -> (r: bool)
        ensures
            r == self.gen_complete,
    {
        self.gen_complete
    }

    /// Marks the growth phase of this generation as over.
    pub fn set_gen_complete(&mut self)
        ensures
            final(self).gen_complete,
            final(self).pipes == old(self).pipes,
            final(self).pipe_colors == old(self).pipe_colors,
            final(self).occupied_nodes == old(self).occupied_nodes,
            final(self).space_bounds == old(self).space_bounds,
            final(self).new_pipe_chance == old(self).new_pipe_chance,
            final(self).active_pipes == old(self).active_pipes,
            final(self).turn_chance == old(self).turn_chance,
            old(self).wf() ==> final(self).wf(),
    {
        self.gen_complete = true;
    }

    /// Kills the pipe at `idx`; its nodes and everything else stay as they
    /// are.
    pub fn kill_pipe(&mut self, idx: usize)
        requires
            old(self).wf(),
            idx < old(self).pipes@.len(),
        ensures
            final(self).wf(),
            final(self).pipes@.len() == old(self).pipes@.len(),
            !final(self).pipes@[idx as int].alive,
            final(self).pipes@[idx as int].nodes == old(self).pipes@[idx as int].nodes,
            final(self).pipes@[idx as int].current_dir == old(self).pipes@[idx as int].current_dir,
            forall|k: int|
                0 <= k < old(self).pipes@.len() && k != idx ==> final(self).pipes@[k] == old(
                    self,
                ).pipes@[k],
            final(self).pipe_colors == old(self).pipe_colors,
            final(self).occupied_nodes == old(self).occupied_nodes,
            final(self).space_bounds == old(self).space_bounds,
            final(self).new_pipe_chance == old(self).new_pipe_chance,
            final(self).active_pipes == old(self).active_pipes,
            final(self).gen_complete == old(self).gen_complete,
            final(self).turn_chance == old(self).turn_chance,
    {
        let ghost prew = *self;
        self.pipes[idx].kill();
        proof {
            lemma_wf_after_flag_change(prew, *self, idx as int);
        }
    }

    /// Kills every pipe of the world, as the scheduler does on the
    /// transition from the growth phase to the freeze phase.
    pub fn force_kill_all(&mut self)
        requires
            old(self).wf(),
        ensures
            final(self).wf(),
            final(self).pipes@.len() == old(self).pipes@.len(),
            forall|k: int| 0 <= k < final(self).pipes@.len() ==> !final(self).pipes@[k].alive,
            forall|k: int|
                0 <= k < old(self).pipes@.len() ==> final(self).pipes@[k].nodes == old(
                    self,
                ).pipes@[k].nodes,
            final(self).pipe_colors == old(self).pipe_colors,
            final(self).occupied_nodes == old(self).occupied_nodes,
            final(self).space_bounds == old(self).space_bounds,
            final(self).new_pipe_chance == old(self).new_pipe_chance,
            final(self).active_pipes == old(self).active_pipes,
            final(self).gen_complete == old(self).gen_complete,
            final(self).turn_chance == old(self).turn_chance,
    {
        let n = self.pipes.len();
        let mut i: usize = 0;
        while i < n
            invariant
                self.wf(),
                i <= n,
                n == self.pipes@.len(),
                n == old(self).pipes@.len(),
                forall|k: int| 0 <= k < i ==> !self.pipes@[k].alive,
                forall|k: int|
                    0 <= k < n ==> self.pipes@[k].nodes == old(self).pipes@[k].nodes,
                forall|k: int| i <= k < n ==> self.pipes@[k] == old(self).pipes@[k],
                self.pipe_colors == old(self).pipe_colors,
                self.occupied_nodes == old(self).occupied_nodes,
                self.space_bounds == old(self).space_bounds,
                self.new_pipe_chance == old(self).new_pipe_chance,
                self.active_pipes == old(self).active_pipes,
                self.gen_complete == old(self).gen_complete,
                self.turn_chance == old(self).turn_chance,
            decreases n - i,
        {
            self.kill_pipe(i);
            i = i + 1;
        }
    }
}

/// No self-collision: a pipe of a well-formed world never visits the same
/// cell twice, and every node it holds is recorded in the shared occupancy
/// set.
pub proof fn lemma_no_self_collision(w: World, i: int)
    requires
        w.wf(),
        0 <= i < w.pipes@.len(),
    ensures
        w.pipes@[i].nodes@.no_duplicates(),
        forall|j: int|
            0 <= j < w.pipes@[i].nodes@.len() ==> w.occupied_nodes@.contains(
                #[trigger] w.pipes@[i].nodes@[j],
            ),
{
    assert(w.pipes@[i].wf());
}

/// No cross-pipe collision: distinct pipes of a well-formed world occupy
/// disjoint sets of cells.
pub proof fn lemma_no_cross_pipe_collision(w: World, i: int, j: int)
    requires
        w.wf(),
        0 <= i < w.pipes@.len(),
        0 <= j < w.pipes@.len(),
        i != j,
    ensures
        w.pipes@[i].node_set().disjoint(w.pipes@[j].node_set()),
{
}

/// Bounds containment: every node of every pipe of a well-formed world lies
/// within the world's bounds.
pub proof fn lemma_bounds_containment(w: World, i: int, j: int)
    requires
        w.wf(),
        0 <= i < w.pipes@.len(),
        0 <= j < w.pipes@[i].nodes@.len(),
    ensures
        in_bounds_spec(w.pipes@[i].nodes@[j], w.space_bounds),
{
    assert(w.pipes@[i].wf());
}

} // verus!
