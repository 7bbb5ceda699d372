use rust_pipes::config::{Configuration, DrawOptions, WorldOptions};
use rust_pipes::occupancy::OccupiedNodes;
use rust_pipes::pipe::Pipe;
use rust_pipes::rng::{EngineRng, StdRng};
use rust_pipes::scheduler::check_time_step;
use rust_pipes::util::Direction;
use rust_pipes::world::World;

struct ScriptRng {
    u8s: Vec<u8>,
    i32s: Vec<i32>,
    bools: Vec<bool>,
}

impl ScriptRng {
    fn new() -> ScriptRng {
        ScriptRng { u8s: Vec::new(), i32s: Vec::new(), bools: Vec::new() }
    }
}

impl EngineRng for ScriptRng {
    fn with_seed(_seed: u64) -> ScriptRng {
        ScriptRng::new()
    }

    fn u8(&mut self, _min: u8, _max: u8) -> u8 {
        self.u8s.remove(0)
    }

    fn u32(&mut self, _min: u32, _max: u32) -> u32 {
        panic!("unexpected u32 draw");
    }

    fn i32(&mut self, _min: i32, _max: i32) -> i32 {
        self.i32s.remove(0)
    }

    fn bool_with_chance(&mut self, _num: u64, _den: u64) -> bool {
        self.bools.remove(0)
    }

    fn shuffle(&mut self, _items: &mut Vec<Direction>) {}
}

fn test_configuration() -> Configuration {
    Configuration {
        draw: DrawOptions { bg_color: (0, 0, 0), angle_subdiv: 16 },
        world: WorldOptions {
            max_pipes: 8,
            max_bounds: (10, 10, 10),
            turn_chance: (3, 10),
            max_gen_time: 15,
            max_freeze_time: 10,
        },
        single_run: false,
        rng_seed: Some(42),
        window_size: None,
    }
}

#[test]
fn world_new_without_config_uses_defaults() {
    let world = World::new(None);
    assert_eq!(world.space_bounds, (20, 20, 20));
    assert_eq!(world.turn_chance, (3, 10));
    assert_eq!(world.new_pipe_chance(), (1, 10));
    assert_eq!(world.active_pipes_count(), 0);
    assert!(!world.is_gen_complete());
}

#[test]
fn world_new_with_config_takes_bounds_and_turn_chance() {
    let cfg = Configuration {
        world: WorldOptions { max_bounds: (9, 12, 15), turn_chance: (1, 4), ..test_configuration().world },
        ..test_configuration()
    };
    let world = World::new(Some(&cfg));
    assert_eq!(world.space_bounds, (9, 12, 15));
    assert_eq!(world.turn_chance, (1, 4));
    assert_eq!(world.new_pipe_chance(), (1, 10));
}

#[test]
fn world_new_pipe_reserves_start_and_aligns_colors() {
    let mut world = World::new(None);
    let mut rng = ScriptRng::new();
    rng.u8s = vec![2, 10, 20, 30];
    rng.i32s = vec![4, 5, 6];

    let data = world.new_pipe(&mut rng);
    assert_eq!(data.start_node, (4, 5, 6));
    assert_eq!(data.color, (10, 20, 30));
    assert_eq!(world.active_pipes_count(), 1);
    assert!(world.is_pipe_alive(0));
    assert!(world.occupied_nodes.contains((4, 5, 6)));
    assert_eq!(world.pipe_colors, vec![(10, 20, 30)]);
}

#[test]
fn world_pipe_update_reports_delta_for_render() {
    let mut world = World::new(None);
    let mut rng = ScriptRng::new();
    rng.u8s = vec![0, 1, 2, 3];
    rng.i32s = vec![4, 5, 6];
    world.new_pipe(&mut rng);

    // Turn draw false (pipe of one node never biases), then the unshuffled
    // order makes North the first candidate; the death draw is false.
    let mut rng2 = ScriptRng::new();
    rng2.bools = vec![false, false];
    let delta = world.pipe_update(0, &mut rng2);

    assert_eq!(delta.last_node, (4, 5, 6));
    assert_eq!(delta.current_node, (5, 5, 6));
    assert_eq!(delta.current_dir, Direction::North);
    assert_eq!(delta.pipe_color, (1, 2, 3));
    assert!(world.occupied_nodes.contains((5, 5, 6)));
}

#[test]
fn world_pipe_update_death_check_runs_after_position_update() {
    // Scenario: the pipe has already reached a tenth of a tiny space, and
    // the death draw succeeds. The position update of this tick must still
    // happen; the pipe dies only afterwards.
    let mut occupied = OccupiedNodes::new();
    occupied.insert((0, 0, 0));
    let world_pipe = Pipe {
        alive: true,
        nodes: vec![(0, 0, 0)],
        current_dir: Direction::East,
        space_bounds: (2, 2, 2),
    };
    let mut world = World {
        pipes: vec![world_pipe],
        pipe_colors: vec![(9, 9, 9)],
        occupied_nodes: occupied,
        space_bounds: (2, 2, 2),
        new_pipe_chance: (1, 10),
        active_pipes: 1,
        gen_complete: false,
        turn_chance: (3, 10),
    };

    let mut rng = ScriptRng::new();
    // One turn draw, then one successful death draw.
    rng.bools = vec![false, true];
    let delta = world.pipe_update(0, &mut rng);

    // The step was taken (North is the first candidate and is free) ...
    assert_eq!(delta.last_node, (0, 0, 0));
    assert_eq!(delta.current_node, (1, 0, 0));
    assert_eq!(world.pipes[0].nodes, vec![(1, 0, 0), (0, 0, 0)]);
    // ... and only then was the pipe killed.
    assert!(!world.is_pipe_alive(0));
}

#[test]
fn world_pipe_update_dead_pipe_changes_nothing() {
    let mut occupied = OccupiedNodes::new();
    occupied.insert((1, 1, 1));
    let dead_pipe = Pipe {
        alive: false,
        nodes: vec![(1, 1, 1)],
        current_dir: Direction::Up,
        space_bounds: (20, 20, 20),
    };
    let mut world = World {
        pipes: vec![dead_pipe],
        pipe_colors: vec![(1, 1, 1)],
        occupied_nodes: occupied,
        space_bounds: (20, 20, 20),
        new_pipe_chance: (1, 10),
        active_pipes: 1,
        gen_complete: false,
        turn_chance: (3, 10),
    };

    let mut rng = ScriptRng::new();
    let delta = world.pipe_update(0, &mut rng);
    assert_eq!(delta.last_node, (1, 1, 1));
    assert_eq!(delta.current_node, (1, 1, 1));
    assert!(!world.is_pipe_alive(0));
    assert_eq!(world.pipes[0].nodes, vec![(1, 1, 1)]);
    assert_eq!(world.occupied_nodes.len(), 1);
}

#[test]
fn world_killed_pipe_stays_dead_across_updates() {
    let mut world = World::new(None);
    let mut rng = StdRng::with_seed(7);
    world.new_pipe(&mut rng);
    world.kill_pipe(0);
    assert!(!world.is_pipe_alive(0));
    let nodes_before = world.pipes[0].nodes.clone();
    for _ in 0..5 {
        world.pipe_update(0, &mut rng);
        assert!(!world.is_pipe_alive(0));
    }
    assert_eq!(world.pipes[0].nodes, nodes_before);
}

#[test]
fn world_can_spawn_pipe_compares_against_cap() {
    let mut world = World::new(None);
    let mut rng = StdRng::with_seed(3);
    assert!(world.can_spawn_pipe(1));
    world.new_pipe(&mut rng);
    assert!(!world.can_spawn_pipe(1));
    assert!(world.can_spawn_pipe(2));
}

#[test]
fn world_force_kill_all_kills_every_pipe_and_keeps_nodes() {
    let mut world = World::new(None);
    let mut rng = StdRng::with_seed(11);
    for _ in 0..4 {
        world.new_pipe(&mut rng);
    }
    let occupied_before = world.occupied_nodes.len();
    world.force_kill_all();
    for i in 0..4 {
        assert!(!world.is_pipe_alive(i));
        assert_eq!(world.pipes[i].nodes.len(), 1);
    }
    assert_eq!(world.occupied_nodes.len(), occupied_before);
}

#[test]
fn world_growth_respects_invariants_over_many_ticks() {
    // Runs a seeded world for a while and checks the concrete outcome: no
    // pipe revisits a cell, distinct pipes stay disjoint, every node is in
    // bounds and in the occupancy set, and the occupancy count never
    // decreases.
    let mut world = World::new(None);
    let mut rng = StdRng::with_seed(1234);
    for _ in 0..3 {
        world.new_pipe(&mut rng);
    }
    let mut last_occupied = world.occupied_nodes.len();
    for _ in 0..200 {
        for i in 0..world.active_pipes_count() {
            if !world.is_pipe_alive(i) {
                continue;
            }
            world.pipe_update(i, &mut rng);
            let now_occupied = world.occupied_nodes.len();
            assert!(now_occupied >= last_occupied);
            last_occupied = now_occupied;
        }
    }
    let bounds = world.space_bounds;
    for i in 0..world.active_pipes_count() {
        let nodes = &world.pipes[i].nodes;
        for (k, node) in nodes.iter().enumerate() {
            assert!(rust_pipes::util::is_in_bounds(*node, bounds));
            assert!(world.occupied_nodes.contains(*node));
            for other in nodes.iter().skip(k + 1) {
                assert_ne!(node, other);
            }
        }
        for j in 0..world.active_pipes_count() {
            if i == j {
                continue;
            }
            for node in world.pipes[i].nodes.iter() {
                assert!(!world.pipes[j].nodes.contains(node));
            }
        }
    }
}

#[test]
fn world_is_space_full_on_saturated_space() {
    let mut occupied = OccupiedNodes::new();
    let mut pipes = Vec::new();
    let mut colors = Vec::new();
    // Fill a 1x1x2 space with one two-cell pipe.
    occupied.insert((0, 0, 0));
    occupied.insert((0, 0, 1));
    pipes.push(Pipe {
        alive: false,
        nodes: vec![(0, 0, 1), (0, 0, 0)],
        current_dir: Direction::East,
        space_bounds: (1, 1, 2),
    });
    colors.push((1, 2, 3));
    let world = World {
        pipes,
        pipe_colors: colors,
        occupied_nodes: occupied,
        space_bounds: (1, 1, 2),
        new_pipe_chance: (1, 10),
        active_pipes: 1,
        gen_complete: false,
        turn_chance: (3, 10),
    };
    assert!(world.is_space_full());

    let empty_world = World::new(None);
    assert!(!empty_world.is_space_full());
}

#[test]
fn check_time_step_keeps_growing_before_gen_time() {
    let cfg = test_configuration();
    let mut world = World::new(Some(&cfg));
    let mut rng = StdRng::with_seed(5);
    world.new_pipe(&mut rng);

    let reset = check_time_step(14, &cfg, &mut world);
    assert!(!reset);
    assert!(!world.is_gen_complete());
    assert!(world.is_pipe_alive(0));
}

#[test]
fn check_time_step_freezes_and_kills_between_gen_and_cycle_end() {
    let cfg = test_configuration();
    let mut world = World::new(Some(&cfg));
    let mut rng = StdRng::with_seed(5);
    world.new_pipe(&mut rng);
    world.new_pipe(&mut rng);

    let reset = check_time_step(15, &cfg, &mut world);
    assert!(!reset);
    assert!(world.is_gen_complete());
    assert!(!world.is_pipe_alive(0));
    assert!(!world.is_pipe_alive(1));
}

#[test]
fn check_time_step_requests_reset_after_cycle_end() {
    let cfg = test_configuration();
    let mut world = World::new(Some(&cfg));
    let reset = check_time_step(25, &cfg, &mut world);
    assert!(reset);
}
