use std::collections::BTreeMap;
use turtle_control::astar::{
    Pos, abs_diff, add_chunk_to_map, build_barrier_map, pathfind_chunk_coordinates, range_calculator, smart_goal,
};
use turtle_control::chunks::{BlockData, Chunk, WhitelistMap};
use turtle_control::coordinates::Coordinate;

fn stone() -> BlockData {
    BlockData::from_parts("minecraft:stone".to_string(), Vec::new()).unwrap()
}

#[test]
fn range_around_start() {
    assert_eq!(range_calculator(3, 5), -2..8);
    assert_eq!(range_calculator(-1, 0), -1..-1);
}

#[test]
fn successors_skip_barriers() {
    let mut map = BTreeMap::new();
    map.insert((1, 0, 0), false);
    map.insert((0, 0, -1), false);
    let s = Pos(0, 0, 0).successors(&map);
    let positions: Vec<Pos> = s.iter().map(|p| p.0.clone()).collect();
    assert_eq!(positions, vec![Pos(-1, 0, 0), Pos(0, -1, 0), Pos(0, 0, 1), Pos(0, 1, 0)]);
    assert!(s.iter().all(|p| p.1 == 1));
}

#[test]
fn successors_in_open_space() {
    let map = BTreeMap::new();
    let s = Pos(5, -7, 9).successors(&map);
    let positions: Vec<Pos> = s.iter().map(|p| p.0.clone()).collect();
    assert_eq!(
        positions,
        vec![Pos(4, -7, 9), Pos(5, -8, 9), Pos(5, -7, 8), Pos(5, -7, 10), Pos(5, -6, 9), Pos(6, -7, 9)]
    );
}

#[test]
fn chunk_barriers_in_world_coordinates() {
    let mut c = Chunk::new(&Coordinate::new(1, 0, -1));
    c.set_block(&Coordinate::new(2, 3, 4), &stone());
    let w = WhitelistMap::new("w");
    let mut map = BTreeMap::new();
    map.insert((100, 100, 100), true);
    add_chunk_to_map(&c, &mut map, &w);
    assert_eq!(map.len(), 2);
    assert_eq!(map.get(&(18, 3, -12)), Some(&false));
    assert_eq!(map.get(&(100, 100, 100)), Some(&true));
}

#[test]
fn whitelist_decides_barriers() {
    let c = Chunk::new(&Coordinate::new(0, 0, 0));
    let w = WhitelistMap::from_names(vec!["minecraft:stone".to_string()], "").unwrap();
    let map = build_barrier_map(&vec![c], &w);
    assert_eq!(map.len(), 16 * 16 * 16);
    assert!(map.contains_key(&(0, 0, 0)));
    assert!(map.contains_key(&(15, 15, 15)));
    assert!(!map.contains_key(&(16, 0, 0)));
}

#[test]
fn searched_chunks_surround_start() {
    let cs = pathfind_chunk_coordinates(&Coordinate::new(17, 0, -1));
    assert_eq!(cs.len(), 1000);
    assert_eq!(cs[0], Coordinate::new(-4, -5, -6));
    assert_eq!(cs[1], Coordinate::new(-4, -5, -5));
    assert_eq!(cs[10], Coordinate::new(-4, -4, -6));
    assert_eq!(cs[100], Coordinate::new(-3, -5, -6));
    assert_eq!(cs[999], Coordinate::new(5, 4, 3));
}

#[test]
fn smart_goal_stops_at_goal_or_far_away() {
    let start = Pos(0, 0, 0);
    let goal = Pos(5, 5, 5);
    assert!(smart_goal(&goal, &Pos(5, 5, 5), &start));
    assert!(!smart_goal(&goal, &Pos(100, 99, 0), &start));
    assert!(smart_goal(&goal, &Pos(100, 100, 0), &start));
    assert!(smart_goal(&goal, &Pos(-100, 0, -100), &start));
}

#[test]
fn abs_diff_extremes() {
    assert_eq!(abs_diff(i32::MIN, i32::MAX), u32::MAX);
    assert_eq!(abs_diff(3, -4), 7);
    assert_eq!(abs_diff(-4, 3), 7);
}

#[test]
fn added_barrier_lies_in_its_chunk() {
    let mut c = Chunk::new(&Coordinate::new(-1, 0, 2));
    c.set_block(&Coordinate::new(1, 2, 3), &stone());
    let w = WhitelistMap::new("w");
    let mut map = BTreeMap::new();
    add_chunk_to_map(&c, &mut map, &w);
    assert_eq!(map.len(), 1);
    let (p, _) = map.iter().next().unwrap();
    let world = Coordinate::new(p.0, p.1, p.2);
    assert_eq!(world.world_to_chunk_coords(), Coordinate::new(-1, 0, 2));
    assert_eq!(world.world_to_local_coords(), Coordinate::new(1, 2, 3));
}
