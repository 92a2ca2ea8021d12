use std::collections::HashSet;
use swarm_core::assign::assign;
use swarm_core::geometry::{cell_coord, grid_key, squared_distance, Point, CELL_SIZE};
use swarm_core::grid::GridIndex;
use swarm_core::nearest::find_nearest;

fn pt(x: i32, y: i32) -> Point {
    Point { x, y }
}

#[test]
fn cell_size_is_fifty_units() {
    assert_eq!(CELL_SIZE, 50_000);
}

#[test]
fn cell_coord_rounds_down() {
    assert_eq!(cell_coord(0), 0);
    assert_eq!(cell_coord(49_999), 0);
    assert_eq!(cell_coord(50_000), 1);
    assert_eq!(cell_coord(-1), -1);
    assert_eq!(cell_coord(-50_000), -1);
    assert_eq!(cell_coord(-50_001), -2);
    assert_eq!(cell_coord(i32::MAX), 42_949);
    assert_eq!(cell_coord(i32::MIN), -42_950);
}

#[test]
fn grid_key_tells_cells_apart() {
    assert_eq!(grid_key(0, 0), 0);
    assert_eq!(grid_key(1, 0), 4_294_967_296);
    assert_eq!(grid_key(0, 1), 1);
    assert_eq!(grid_key(-1, 2), -4_294_967_294);
    assert_ne!(grid_key(1, -1), grid_key(0, 1));
}

#[test]
fn squared_distance_is_exact() {
    assert_eq!(squared_distance(pt(0, 0), pt(3, 4)), 25);
    assert_eq!(squared_distance(pt(-3, 4), pt(0, 0)), 25);
    assert_eq!(squared_distance(pt(7, 7), pt(7, 7)), 0);
    assert_eq!(
        squared_distance(pt(i32::MIN, i32::MIN), pt(i32::MAX, i32::MAX)),
        2 * 4_294_967_295u128 * 4_294_967_295u128
    );
}

#[test]
fn grid_lists_targets_by_cell_in_ascending_order() {
    let targets = vec![pt(10_000, 10_000), pt(60_000, 0), pt(20_000, 30_000), pt(-1, 0)];
    let grid = GridIndex::build(&targets);
    assert_eq!(grid.lookup(0, 0), Some(&vec![0usize, 2]));
    assert_eq!(grid.lookup(1, 0), Some(&vec![1usize]));
    assert_eq!(grid.lookup(-1, 0), Some(&vec![3usize]));
    assert_eq!(grid.lookup(0, 1), None);
}

#[test]
fn find_nearest_takes_the_closest_unused_target_of_the_block() {
    let targets = vec![pt(90_000, 0), pt(10_000, 0), pt(500_000, 0)];
    let grid = GridIndex::build(&targets);
    let mut used: HashSet<usize> = HashSet::new();
    assert_eq!(find_nearest(pt(0, 0), &targets, &grid, &used), Some(1));
    used.insert(1);
    assert_eq!(find_nearest(pt(0, 0), &targets, &grid, &used), Some(0));
    used.insert(0);
    assert_eq!(find_nearest(pt(0, 0), &targets, &grid, &used), None);
    assert_eq!(find_nearest(pt(400_000, 0), &targets, &grid, &used), Some(2));
}

#[test]
fn find_nearest_sees_two_cells_each_way_and_no_further() {
    let targets = vec![pt(149_999, 0), pt(150_000, 0), pt(-100_000, 0), pt(-100_001, 0)];
    let grid = GridIndex::build(&targets);
    let mut used: HashSet<usize> = HashSet::new();
    assert_eq!(find_nearest(pt(0, 0), &targets, &grid, &used), Some(2));
    used.insert(2);
    assert_eq!(find_nearest(pt(0, 0), &targets, &grid, &used), Some(0));
    used.insert(0);
    assert_eq!(find_nearest(pt(0, 0), &targets, &grid, &used), None);
}

#[test]
fn equally_near_targets_go_to_the_one_visited_first() {
    // The column of cells to the left is searched before the particle's own.
    let targets = vec![pt(0, 1_000), pt(-1_000, 0)];
    assert_eq!(assign(&vec![pt(0, 0)], &targets), vec![Some(1)]);
    // Within one cell the lower index is visited first.
    let targets = vec![pt(1_000, 0), pt(0, 1_000)];
    assert_eq!(assign(&vec![pt(0, 0)], &targets), vec![Some(0)]);
}

#[test]
fn first_pass_assigns_nearest_then_second_pass_fills_in_order() {
    let targets = vec![pt(90_000, 0), pt(10_000, 0), pt(500_000, 0)];
    let particles = vec![pt(0, 0), pt(400_000, 0), pt(-1_000_000, 0)];
    assert_eq!(assign(&particles, &targets), vec![Some(1), Some(2), Some(0)]);
}

#[test]
fn second_pass_skips_targets_taken_in_the_first() {
    let targets = vec![pt(0, 0), pt(5_000, 0)];
    let particles = vec![pt(2_000_000, 2_000_000), pt(1_000, 0)];
    assert_eq!(assign(&particles, &targets), vec![Some(1), Some(0)]);
}

#[test]
fn far_particles_take_targets_in_ascending_order() {
    let targets = vec![pt(0, 0), pt(1, 1), pt(2, 2), pt(3, 3), pt(4, 4)];
    let particles = vec![pt(900_000_000, 0), pt(900_000_000, 5), pt(900_000_000, 9)];
    assert_eq!(assign(&particles, &targets), vec![Some(0), Some(1), Some(2)]);
}

#[test]
fn enough_targets_give_every_particle_its_own() {
    let targets: Vec<Point> = (0..40).map(|i| pt(i * 7_000, (i % 5) * 30_000)).collect();
    let particles: Vec<Point> = (0..25).map(|i| pt((i % 6) * 45_000, i * 9_000)).collect();
    let slots = assign(&particles, &targets);
    assert_eq!(slots.len(), 25);
    let mut seen: HashSet<usize> = HashSet::new();
    for slot in &slots {
        let j = slot.expect("every particle has a target");
        assert!(j < targets.len());
        assert!(seen.insert(j));
    }
}

#[test]
fn scarce_targets_go_to_the_first_particles() {
    let targets = vec![pt(0, 0), pt(700_000, 0)];
    let particles = vec![pt(1, 1), pt(2, 2), pt(3, 3), pt(700_000, 1), pt(5, 5)];
    let slots = assign(&particles, &targets);
    assert_eq!(slots, vec![Some(0), Some(1), None, None, None]);
    assert_eq!(slots.iter().filter(|s| s.is_some()).count(), targets.len());
}

#[test]
fn no_targets_leave_every_particle_without_one() {
    let particles = vec![pt(1, 1), pt(2, 2), pt(3, 3)];
    assert_eq!(assign(&particles, &Vec::new()), vec![None, None, None]);
    assert_eq!(assign(&Vec::new(), &vec![pt(0, 0)]), Vec::<Option<usize>>::new());
}

#[test]
fn assigning_twice_gives_the_same_result() {
    let targets: Vec<Point> = (0..12).map(|i| pt(i * 20_000, 40_000 - i * 3_000)).collect();
    let particles: Vec<Point> = (0..9).map(|i| pt(200_000 - i * 25_000, i * 5_000)).collect();
    assert_eq!(assign(&particles, &targets), assign(&particles, &targets));
}
