use rust_pipes::occupancy::OccupiedNodes;
use rust_pipes::rng::EngineRng;
use rust_pipes::util::{
    choose_random_direction, find_random_start, get_neighbors, int_to_direction, is_in_bounds,
    step_in_dir, Direction,
};

struct ScriptRng {
    u8s: Vec<u8>,
    u32s: Vec<u32>,
    i32s: Vec<i32>,
    bools: Vec<bool>,
}

impl ScriptRng {
    fn new() -> ScriptRng {
        ScriptRng { u8s: Vec::new(), u32s: Vec::new(), i32s: Vec::new(), bools: Vec::new() }
    }
}

impl EngineRng for ScriptRng {
    fn with_seed(_seed: u64) -> ScriptRng {
        ScriptRng::new()
    }

    fn u8(&mut self, _min: u8, _max: u8) -> u8 {
        self.u8s.remove(0)
    }

    fn u32(&mut self, _min: u32, _max: u32) -> u32 {
        self.u32s.remove(0)
    }

    fn i32(&mut self, _min: i32, _max: i32) -> i32 {
        self.i32s.remove(0)
    }

    fn bool_with_chance(&mut self, _num: u64, _den: u64) -> bool {
        self.bools.remove(0)
    }

    fn shuffle(&mut self, _items: &mut Vec<Direction>) {}
}

#[test]
fn test_step_in_dir() {
    assert_eq!(step_in_dir((0, 0, 0), Direction::North), (1, 0, 0));
    assert_eq!(step_in_dir((0, 0, 0), Direction::South), (-1, 0, 0));
    assert_eq!(step_in_dir((0, 0, 0), Direction::East), (0, 0, 1));
    assert_eq!(step_in_dir((0, 0, 0), Direction::West), (0, 0, -1));
    assert_eq!(step_in_dir((0, 0, 0), Direction::Up), (0, 1, 0));
    assert_eq!(step_in_dir((0, 0, 0), Direction::Down), (0, -1, 0));
}

#[test]
fn test_dir_iterator() {
    let dirs = Direction::iterator();
    let mut dir_iter = dirs.iter();
    assert_eq!(dir_iter.next(), Some(&Direction::North));
    assert_eq!(dir_iter.next(), Some(&Direction::South));
    assert_eq!(dir_iter.next(), Some(&Direction::East));
    assert_eq!(dir_iter.next(), Some(&Direction::West));
    assert_eq!(dir_iter.next(), Some(&Direction::Up));
    assert_eq!(dir_iter.next(), Some(&Direction::Down));
    assert_eq!(dir_iter.next(), None);
}

#[test]
fn test_direction_from_coordinate_cardinal_directions() {
    assert_eq!(Direction::from((1, 0, 0)), Direction::North);
    assert_eq!(Direction::from((-1, 0, 0)), Direction::South);
    assert_eq!(Direction::from((0, 1, 0)), Direction::Up);
    assert_eq!(Direction::from((0, -1, 0)), Direction::Down);
    assert_eq!(Direction::from((0, 0, 1)), Direction::East);
    assert_eq!(Direction::from((0, 0, -1)), Direction::West);
}

#[test]
fn test_is_in_bounds() {
    let bounds = (2, 2, 2);
    assert!(!is_in_bounds((-1, 0, 0), bounds));
    assert!(is_in_bounds((0, 0, 0), bounds));
    assert!(is_in_bounds((1, 0, 0), bounds));
    assert!(!is_in_bounds((2, 0, 0), bounds));

    assert!(!is_in_bounds((0, -1, 0), bounds));
    assert!(is_in_bounds((0, 0, 0), bounds));
    assert!(is_in_bounds((0, 1, 0), bounds));
    assert!(!is_in_bounds((0, 2, 0), bounds));

    assert!(!is_in_bounds((0, 0, -1), bounds));
    assert!(is_in_bounds((0, 0, 0), bounds));
    assert!(is_in_bounds((0, 0, 1), bounds));
    assert!(!is_in_bounds((0, 0, 2), bounds));
}

#[test]
fn test_int_to_direction_enumeration_order() {
    assert_eq!(int_to_direction(0), Direction::North);
    assert_eq!(int_to_direction(1), Direction::South);
    assert_eq!(int_to_direction(2), Direction::East);
    assert_eq!(int_to_direction(3), Direction::West);
    assert_eq!(int_to_direction(4), Direction::Up);
    assert_eq!(int_to_direction(5), Direction::Down);
}

#[test]
fn test_get_neighbors_in_direction_order() {
    let neighbors = get_neighbors((1, 1, 1));
    assert_eq!(
        neighbors,
        vec![(2, 1, 1), (0, 1, 1), (1, 1, 2), (1, 1, 0), (1, 2, 1), (1, 0, 1)]
    );
}

#[test]
fn choose_random_direction_returns_based_on_rng() {
    let mut mock_rng = ScriptRng::new();
    mock_rng.u8s = vec![0, 1, 2, 3, 4, 5];

    assert_eq!(choose_random_direction(&mut mock_rng), Direction::North);
    assert_eq!(choose_random_direction(&mut mock_rng), Direction::South);
    assert_eq!(choose_random_direction(&mut mock_rng), Direction::East);
    assert_eq!(choose_random_direction(&mut mock_rng), Direction::West);
    assert_eq!(choose_random_direction(&mut mock_rng), Direction::Up);
    assert_eq!(choose_random_direction(&mut mock_rng), Direction::Down);
}

#[test]
fn test_find_random_start_no_occupied_uses_rng() {
    let mut mock_rng = ScriptRng::new();
    mock_rng.i32s = vec![1, 1, 1];
    let occupied: OccupiedNodes = OccupiedNodes::new();

    let result = find_random_start(&occupied, (2, 2, 2), &mut mock_rng);
    assert_eq!(result, Some((1, 1, 1)));
}

#[test]
fn test_find_random_start_some_occupied_did_collision_loops_to_next_val() {
    let mut mock_rng = ScriptRng::new();
    let mut occupied = OccupiedNodes::new();
    occupied.insert((1, 1, 1));
    mock_rng.i32s = vec![1, 1, 1, 2, 2, 2];

    let result = find_random_start(&occupied, (2, 2, 2), &mut mock_rng);
    assert_eq!(result, Some((2, 2, 2)));
}

#[test]
fn test_find_random_start_some_occupied_no_collision_does_not_loop() {
    let mut mock_rng = ScriptRng::new();
    let mut occupied = OccupiedNodes::new();
    occupied.insert((0, 0, 0));
    mock_rng.i32s = vec![1, 1, 1];

    let result = find_random_start(&occupied, (2, 2, 2), &mut mock_rng);
    assert_eq!(result, Some((1, 1, 1)));
}

#[test]
fn test_find_random_start_full_space_returns_none_without_drawing() {
    let mut mock_rng = ScriptRng::new();
    let mut occupied = OccupiedNodes::new();
    for x in 0..2 {
        for y in 0..2 {
            for z in 0..2 {
                occupied.insert((x, y, z));
            }
        }
    }

    let result = find_random_start(&occupied, (2, 2, 2), &mut mock_rng);
    assert_eq!(result, None);
}

#[test]
fn test_occupied_nodes_insert_is_idempotent_and_monotonic() {
    let mut occupied = OccupiedNodes::new();
    assert_eq!(occupied.len(), 0);
    assert!(!occupied.contains((3, 4, 5)));
    occupied.insert((3, 4, 5));
    assert!(occupied.contains((3, 4, 5)));
    assert_eq!(occupied.len(), 1);
    occupied.insert((3, 4, 5));
    assert_eq!(occupied.len(), 1);
    occupied.insert((3, 4, 6));
    assert_eq!(occupied.len(), 2);
}
