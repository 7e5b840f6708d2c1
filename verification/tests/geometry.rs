use basic_movement::geometry::{Arena, Position};

fn at(x: i32, z: i32) -> Position {
    Position { x, z }
}

#[test]
fn arena_new_rejects_negative_lengths() {
    assert!(Arena::new(-1, 1000).is_none());
    assert!(Arena::new(9000, -1).is_none());
    assert!(Arena::new(i32::MIN, i32::MIN).is_none());
    assert!(Arena::new(0, 0).is_some());
    assert!(Arena::new(i32::MAX, i32::MAX).is_some());
}

#[test]
fn arena_getters_return_what_was_given() {
    let arena = Arena::new(9000, 1000).unwrap();
    assert_eq!(arena.half_extent(), 9000);
    assert_eq!(arena.exclusion_radius(), 1000);
}

#[test]
fn arena_contains_includes_both_edges() {
    let arena = Arena::new(9000, 1000).unwrap();
    assert!(arena.contains(at(0, 0)));
    assert!(arena.contains(at(9000, -9000)));
    assert!(arena.contains(at(-9000, 9000)));
    assert!(!arena.contains(at(9001, 0)));
    assert!(!arena.contains(at(0, -9001)));
    assert!(!arena.contains(at(i32::MIN, i32::MAX)));
}

#[test]
fn candidate_inside_radius_is_rejected_and_outside_is_accepted() {
    // One grid step is a thousandth of a world unit: radius 1.0, candidates at
    // (0.5, 0.0) and (2.0, 0.0) against an entity at the origin.
    let arena = Arena::new(9000, 1000).unwrap();
    let occupied = vec![at(0, 0)];
    assert!(arena.is_blocked(at(500, 0), &occupied));
    assert!(!arena.is_blocked(at(2000, 0), &occupied));
}

#[test]
fn exclusion_boundary_is_inclusive() {
    let arena = Arena::new(9000, 1000).unwrap();
    assert!(arena.too_close(at(1000, 0), at(0, 0)));
    assert!(arena.too_close(at(0, -1000), at(0, 0)));
    // 600^2 + 800^2 == 1000^2
    assert!(arena.too_close(at(600, 800), at(0, 0)));
    assert!(!arena.too_close(at(601, 800), at(0, 0)));
    assert!(!arena.too_close(at(1001, 0), at(0, 0)));
    assert!(!arena.too_close(at(708, 708), at(0, 0)));
    assert!(arena.too_close(at(707, 707), at(0, 0)));
}

#[test]
fn too_close_is_symmetric_and_translation_free() {
    let arena = Arena::new(9000, 1000).unwrap();
    assert!(arena.too_close(at(3500, -2000), at(3000, -2000)));
    assert!(arena.too_close(at(3000, -2000), at(3500, -2000)));
    assert!(!arena.too_close(at(3000, -2000), at(5000, -2000)));
}

#[test]
fn too_close_does_not_overflow_at_the_ends_of_the_grid() {
    let arena = Arena::new(i32::MAX, i32::MAX).unwrap();
    assert!(!arena.too_close(at(i32::MIN, i32::MIN), at(i32::MAX, i32::MAX)));
    assert!(arena.too_close(at(i32::MIN, 0), at(-1, 0)));
    assert!(!arena.too_close(at(i32::MIN, 0), at(0, 0)));
    let point = Arena::new(0, 0).unwrap();
    assert!(point.too_close(at(5, 5), at(5, 5)));
    assert!(!point.too_close(at(5, 5), at(5, 6)));
}

#[test]
fn nothing_occupied_blocks_nothing() {
    let arena = Arena::new(9000, 1000).unwrap();
    let occupied: Vec<Position> = Vec::new();
    assert!(!arena.is_blocked(at(0, 0), &occupied));
    assert!(!arena.is_blocked(at(9000, 9000), &occupied));
}

#[test]
fn any_one_occupied_position_blocks() {
    let arena = Arena::new(9000, 1000).unwrap();
    let occupied = vec![at(-8000, -8000), at(0, 0), at(4000, 4000)];
    assert!(arena.is_blocked(at(4000, 4999), &occupied));
    assert!(arena.is_blocked(at(-8500, -8500), &occupied));
    assert!(arena.is_blocked(at(100, -100), &occupied));
    assert!(!arena.is_blocked(at(2000, 2000), &occupied));
    assert_eq!(occupied, vec![at(-8000, -8000), at(0, 0), at(4000, 4000)]);
}
