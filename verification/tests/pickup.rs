use basic_movement::geometry::Position;
use basic_movement::pickup::{age, Pickup};

fn at(x: i32, z: i32) -> Position {
    Position { x, z }
}

#[test]
fn new_pickup_is_alive_and_has_lived_nothing() {
    let pickup = Pickup::new(42, at(1500, -250), 3500);
    assert_eq!(pickup.id(), 42);
    assert_eq!(pickup.position(), at(1500, -250));
    assert_eq!(pickup.elapsed(), 0);
    assert_eq!(pickup.lifetime(), 3500);
    assert!(!pickup.is_expired());
}

#[test]
fn advance_adds_time_until_the_lifetime_is_complete() {
    let mut pickup = Pickup::new(1, at(0, 0), 3500);
    assert!(!pickup.advance(1000));
    assert_eq!(pickup.elapsed(), 1000);
    assert!(!pickup.advance(2499));
    assert_eq!(pickup.elapsed(), 3499);
    assert!(!pickup.is_expired());
    assert!(pickup.advance(1));
    assert!(pickup.is_expired());
    assert_eq!(pickup.elapsed(), 3500);
}

#[test]
fn advance_caps_time_lived_at_the_lifetime() {
    let mut pickup = Pickup::new(1, at(0, 0), 3500);
    assert!(pickup.advance(10_000));
    assert_eq!(pickup.elapsed(), 3500);
    assert!(pickup.is_expired());
}

#[test]
fn expired_pickup_is_left_as_it_is() {
    let mut pickup = Pickup::new(1, at(7, 8), 3500);
    assert!(pickup.advance(3500));
    assert!(!pickup.advance(1000));
    assert!(!pickup.advance(0));
    assert_eq!(pickup.elapsed(), 3500);
    assert_eq!(pickup.id(), 1);
    assert_eq!(pickup.position(), at(7, 8));
    assert!(pickup.is_expired());
}

#[test]
fn advance_saturates_instead_of_overflowing() {
    let mut pickup = Pickup::new(1, at(0, 0), u64::MAX);
    assert!(!pickup.advance(u64::MAX - 1));
    assert!(pickup.advance(u64::MAX));
    assert_eq!(pickup.elapsed(), u64::MAX);
}

#[test]
fn pickup_with_zero_lifetime_expires_on_its_first_aging() {
    let mut pickups = vec![Pickup::new(9, at(0, 0), 0)];
    assert!(!pickups[0].is_expired());
    assert_eq!(age(0, &mut pickups), vec![9]);
    assert_eq!(age(0, &mut pickups), Vec::<u64>::new());
}

#[test]
fn age_of_no_pickups_removes_nothing() {
    let mut pickups: Vec<Pickup> = Vec::new();
    assert_eq!(age(1000, &mut pickups), Vec::<u64>::new());
    assert!(pickups.is_empty());
}

#[test]
fn age_advances_every_pickup_in_place() {
    let mut pickups = vec![
        Pickup::new(1, at(0, 0), 3500),
        Pickup::new(2, at(10, 10), 5000),
        Pickup::new(3, at(20, 20), 900),
    ];
    let removed = age(1000, &mut pickups);
    assert_eq!(removed, vec![3]);
    assert_eq!(pickups.len(), 3);
    assert_eq!(pickups[0].elapsed(), 1000);
    assert_eq!(pickups[1].elapsed(), 1000);
    assert_eq!(pickups[2].elapsed(), 900);
    assert!(!pickups[0].is_expired());
    assert!(!pickups[1].is_expired());
    assert!(pickups[2].is_expired());
    assert_eq!(pickups[1].id(), 2);
    assert_eq!(pickups[1].position(), at(10, 10));
}

#[test]
fn age_lists_expiring_ids_in_the_order_of_the_pickups() {
    let mut pickups = vec![
        Pickup::new(30, at(0, 0), 100),
        Pickup::new(10, at(0, 0), 5000),
        Pickup::new(20, at(0, 0), 100),
        Pickup::new(5, at(0, 0), 99),
    ];
    assert_eq!(age(100, &mut pickups), vec![30, 20, 5]);
    assert_eq!(age(4899, &mut pickups), Vec::<u64>::new());
    assert_eq!(age(1, &mut pickups), vec![10]);
}

#[test]
fn age_names_a_pickup_exactly_once_even_if_it_is_not_removed() {
    let mut pickups = vec![Pickup::new(7, at(0, 0), 3500), Pickup::new(8, at(5, 5), 6000)];
    let mut times_named = 0;
    let mut other_named = 0;
    for _ in 0..10 {
        let removed = age(500, &mut pickups);
        times_named += removed.iter().filter(|id| **id == 7).count();
        other_named += removed.iter().filter(|id| **id == 8).count();
    }
    assert_eq!(times_named, 1);
    assert_eq!(other_named, 0);
    for _ in 0..10 {
        let removed = age(500, &mut pickups);
        times_named += removed.iter().filter(|id| **id == 7).count();
        other_named += removed.iter().filter(|id| **id == 8).count();
    }
    assert_eq!(times_named, 1);
    assert_eq!(other_named, 1);
}

#[test]
fn age_names_the_pickup_on_the_call_that_completes_its_lifetime() {
    let mut pickups = vec![Pickup::new(7, at(0, 0), 3500)];
    let lists: Vec<Vec<u64>> = [1200u64, 1200, 1099, 1, 1200].iter().map(|dt| age(*dt, &mut pickups)).collect();
    assert_eq!(lists, vec![vec![], vec![], vec![], vec![7], vec![]]);
}

#[test]
fn pickup_short_of_its_lifetime_is_never_named() {
    let mut pickups = vec![Pickup::new(7, at(0, 0), 3500)];
    for _ in 0..3499 {
        assert_eq!(age(1, &mut pickups), Vec::<u64>::new());
    }
    assert_eq!(pickups[0].elapsed(), 3499);
    assert!(!pickups[0].is_expired());
}
