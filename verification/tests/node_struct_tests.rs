use rust_pipes::node_struct::NodeStruct;
use rust_pipes::rng::EngineRng;
use rust_pipes::util::Direction;

struct ScriptRng {
    u32s: Vec<u32>,
    i32s: Vec<i32>,
}

impl ScriptRng {
    fn new() -> ScriptRng {
        ScriptRng { u32s: Vec::new(), i32s: Vec::new() }
    }
}

impl EngineRng for ScriptRng {
    fn with_seed(_seed: u64) -> ScriptRng {
        ScriptRng::new()
    }

    fn u8(&mut self, _min: u8, _max: u8) -> u8 {
        panic!("unexpected u8 draw");
    }

    fn u32(&mut self, _min: u32, _max: u32) -> u32 {
        self.u32s.remove(0)
    }

    fn i32(&mut self, _min: i32, _max: i32) -> i32 {
        self.i32s.remove(0)
    }

    fn bool_with_chance(&mut self, _num: u64, _den: u64) -> bool {
        panic!("unexpected bool draw");
    }

    fn shuffle(&mut self, _items: &mut Vec<Direction>) {}
}

#[test]
fn node_struct_set_in_bounds_no_panic() {
    let mut node_struct = NodeStruct::new((1, 1, 1));
    node_struct.set((0, 0, 0), true);
}

#[test]
fn node_struct_set_in_bounds_get_same_value() {
    let mut node_struct = NodeStruct::new((1, 1, 1));
    node_struct.set((0, 0, 0), true);
    assert_eq!(node_struct.get((0, 0, 0)), true);
}

#[test]
fn node_struct_larger_size_set_in_bounds_get_same_value() {
    let mut node_struct = NodeStruct::new((2, 2, 2));
    node_struct.set((1, 1, 1), true);
    assert_eq!(node_struct.get((1, 1, 1)), true);
}

#[test]
fn node_struct_larger_size_set_multiple_in_bounds_get_same_value() {
    let mut node_struct = NodeStruct::new((4, 4, 4));
    node_struct.set((2, 2, 2), true);
    node_struct.set((1, 1, 0), true);
    assert_eq!(node_struct.get((2, 2, 2)), true);
    assert_eq!(node_struct.get((1, 1, 0)), true);
}

#[test]
fn node_struct_to_vec_index_propertly_calculates_index() {
    let node_struct = NodeStruct::new((2, 2, 2));
    assert_eq!(node_struct.to_vec_index((0, 0, 0)), 0);
    assert_eq!(node_struct.to_vec_index((0, 0, 1)), 1);
    assert_eq!(node_struct.to_vec_index((0, 1, 0)), 2);
    assert_eq!(node_struct.to_vec_index((0, 1, 1)), 3);
    assert_eq!(node_struct.to_vec_index((1, 0, 0)), 4);
    assert_eq!(node_struct.to_vec_index((1, 0, 1)), 5);
    assert_eq!(node_struct.to_vec_index((1, 1, 0)), 6);
    assert_eq!(node_struct.to_vec_index((1, 1, 1)), 7);
}

#[test]
fn node_struct_to_vec_index_larger_size_propertly_calculates_index() {
    let node_struct = NodeStruct::new((3, 3, 3));
    assert_eq!(node_struct.to_vec_index((0, 0, 0)), 0);
    assert_eq!(node_struct.to_vec_index((0, 0, 1)), 1);
    assert_eq!(node_struct.to_vec_index((0, 0, 2)), 2);
    assert_eq!(node_struct.to_vec_index((0, 1, 0)), 3);
    assert_eq!(node_struct.to_vec_index((0, 1, 1)), 4);
    assert_eq!(node_struct.to_vec_index((0, 1, 2)), 5);
    assert_eq!(node_struct.to_vec_index((0, 2, 0)), 6);
    assert_eq!(node_struct.to_vec_index((0, 2, 1)), 7);
    assert_eq!(node_struct.to_vec_index((0, 2, 2)), 8);
    assert_eq!(node_struct.to_vec_index((1, 0, 0)), 9);
    assert_eq!(node_struct.to_vec_index((1, 0, 1)), 10);
    assert_eq!(node_struct.to_vec_index((1, 0, 2)), 11);
    assert_eq!(node_struct.to_vec_index((1, 1, 0)), 12);
    assert_eq!(node_struct.to_vec_index((1, 1, 1)), 13);
    assert_eq!(node_struct.to_vec_index((1, 1, 2)), 14);
    assert_eq!(node_struct.to_vec_index((1, 2, 0)), 15);
    assert_eq!(node_struct.to_vec_index((1, 2, 1)), 16);
    assert_eq!(node_struct.to_vec_index((1, 2, 2)), 17);
    assert_eq!(node_struct.to_vec_index((2, 0, 0)), 18);
    assert_eq!(node_struct.to_vec_index((2, 0, 1)), 19);
    assert_eq!(node_struct.to_vec_index((2, 0, 2)), 20);
    assert_eq!(node_struct.to_vec_index((2, 1, 0)), 21);
    assert_eq!(node_struct.to_vec_index((2, 1, 1)), 22);
    assert_eq!(node_struct.to_vec_index((2, 1, 2)), 23);
    assert_eq!(node_struct.to_vec_index((2, 2, 0)), 24);
    assert_eq!(node_struct.to_vec_index((2, 2, 1)), 25);
    assert_eq!(node_struct.to_vec_index((2, 2, 2)), 26);
}

#[test]
fn node_struct_count_available_stops_at_boundary_and_occupied() {
    let mut node_struct = NodeStruct::new((4, 4, 4));
    // All free: from (0,0,0) northwards (along +x) there are 3 more cells,
    // but the walk is capped at the distance to the boundary.
    assert_eq!(node_struct.count_available_in_direction((0, 0, 0), Direction::North), 3);
    assert_eq!(node_struct.count_available_in_direction((0, 0, 0), Direction::South), 0);
    // An occupied cell two steps out stops the walk early.
    node_struct.set((2, 0, 0), true);
    assert_eq!(node_struct.count_available_in_direction((0, 0, 0), Direction::North), 2);
    // A walk starting on an occupied cell counts nothing.
    assert_eq!(node_struct.count_available_in_direction((2, 0, 0), Direction::North), 0);
}

#[test]
fn node_struct_find_random_empty_node_skips_occupied() {
    let mut node_struct = NodeStruct::new((2, 2, 2));
    node_struct.set((1, 1, 1), true);
    let mut rng = ScriptRng::new();
    rng.i32s = vec![1, 1, 1, 0, 1, 0];
    let found = node_struct.find_random_empty_node(&mut rng);
    assert_eq!(found, Some((0, 1, 0)));
}

#[test]
fn node_struct_find_random_direction_picks_open_direction() {
    let node_struct = NodeStruct::new((3, 3, 3));
    let mut rng = ScriptRng::new();
    // From the corner, the open directions are North, East and Up; index 1
    // of that list is East.
    rng.u32s = vec![1];
    let result = node_struct.find_random_direction((0, 0, 0), &mut rng);
    assert_eq!(result.unwrap(), Direction::East);
}

#[test]
fn node_struct_find_random_direction_errs_when_boxed_in() {
    let node_struct = NodeStruct::new((1, 1, 1));
    let mut rng = ScriptRng::new();
    let result = node_struct.find_random_direction((0, 0, 0), &mut rng);
    assert!(result.is_err());
}
