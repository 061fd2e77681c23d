use hackathon_shooter::input::input;
use hackathon_shooter::input::InputActions;
use hackathon_shooter::magnitude::is_valid;
use hackathon_shooter::magnitude::INFINITY;
use hackathon_shooter::projectile::find_obstacle;
use hackathon_shooter::projectile::has_stopped;
use hackathon_shooter::projectile::projectile;
use hackathon_shooter::projectile::sample_times;
use hackathon_shooter::projectile::Flight;
use hackathon_shooter::projectile::Obstacle;
use hackathon_shooter::projectile::SampleTimes;
use hackathon_shooter::projectile::TIME_DELTA_FOR_RENDER;

type Point = (f32, f32);

fn distance_squared(a: Point, b: Point) -> f32 {
    (a.0 - b.0) * (a.0 - b.0) + (a.1 - b.1) * (a.1 - b.1)
}

fn project(point: Point, tail: Point, head: Point) -> Point {
    let length = distance_squared(tail, head);
    if length == 0.0 {
        return tail;
    }
    let along = ((point.0 - tail.0) * (head.0 - tail.0) + (point.1 - tail.1) * (head.1 - tail.1))
        / length;
    let along = along.clamp(0.0, 1.0);
    (tail.0 + along * (head.0 - tail.0), tail.1 + along * (head.1 - tail.1))
}

fn measure(entity: u64, centre: Point, radius: f32, tail: Point, head: Point) -> Obstacle {
    let contact = project(centre, tail, head);
    Obstacle {
        entity,
        radius_squared: (radius * radius).to_bits(),
        contact_distance_squared: distance_squared(centre, contact).to_bits(),
        tail_distance_squared: distance_squared(centre, tail).to_bits(),
    }
}

#[test]
fn obstacle_on_the_sweep_is_hit() {
    let tail = (0.0, 0.0);
    let head = (10.0, 0.0);
    assert_eq!(project((5.0, 0.0), tail, head), (5.0, 0.0));
    let obstacles = vec![measure(1, (5.0, 0.0), 1.0, tail, head)];
    assert_eq!(find_obstacle(None, &obstacles), Some(0));
}

#[test]
fn obstacle_beside_the_sweep_is_not_hit() {
    let tail = (0.0, 0.0);
    let head = (10.0, 0.0);
    let obstacles = vec![measure(1, (5.0, 5.0), 1.0, tail, head)];
    assert_eq!(find_obstacle(None, &obstacles), None);
}

#[test]
fn the_hit_closest_to_the_tail_is_chosen() {
    let tail = (0.0, 0.0);
    let head = (10.0, 0.0);
    let obstacles = vec![
        measure(1, (8.0, 0.5), 1.0, tail, head),
        measure(2, (5.0, 5.0), 1.0, tail, head),
        measure(3, (3.0, -0.5), 1.0, tail, head),
        measure(4, (6.0, 0.0), 1.0, tail, head),
    ];
    assert_eq!(find_obstacle(None, &obstacles), Some(2));
}

#[test]
fn the_shooter_is_never_hit() {
    let tail = (0.0, 0.0);
    let head = (10.0, 0.0);
    let obstacles = vec![
        measure(7, (0.5, 0.0), 1.0, tail, head),
        measure(8, (9.0, 0.0), 1.0, tail, head),
    ];
    assert_eq!(find_obstacle(Some(7), &obstacles), Some(1));
    assert_eq!(find_obstacle(Some(8), &obstacles), Some(0));
    assert_eq!(find_obstacle(None, &obstacles), Some(0));
}

#[test]
fn equal_distances_go_to_the_first_seen() {
    let tail = (0.0, 0.0);
    let head = (10.0, 0.0);
    let obstacles = vec![
        measure(1, (5.0, 5.0), 1.0, tail, head),
        measure(2, (4.0, 0.5), 1.0, tail, head),
        measure(3, (4.0, -0.5), 1.0, tail, head),
    ];
    assert_eq!(find_obstacle(None, &obstacles), Some(1));
}

#[test]
fn a_sweep_without_movement_is_tested_against_a_point() {
    let at = (2.0, 2.0);
    let obstacles = vec![
        measure(1, (4.0, 2.0), 1.0, at, at),
        measure(2, (2.5, 2.0), 1.0, at, at),
    ];
    assert_eq!(find_obstacle(None, &obstacles), Some(1));
}

#[test]
fn a_body_that_the_sweep_only_touches_is_not_hit() {
    let tail = (0.0, 0.0);
    let head = (10.0, 0.0);
    let obstacles = vec![measure(1, (5.0, 1.0), 1.0, tail, head)];
    assert_eq!(find_obstacle(None, &obstacles), None);
    assert_eq!(find_obstacle(None, &Vec::new()), None);
}

#[test]
fn sample_times_look_back_one_tick_and_one_frame() {
    let times = sample_times(1_000_000_000, 16_000_000);
    assert_eq!(
        times,
        SampleTimes { head: 1_000_000_000, tail: 984_000_000, tail_visual: 975_000_000 }
    );
    let slow = sample_times(1_000_000_000, 40_000_000);
    assert_eq!(
        slow,
        SampleTimes { head: 1_000_000_000, tail: 960_000_000, tail_visual: 960_000_000 }
    );
    assert_eq!(TIME_DELTA_FOR_RENDER, 25_000_000);
}

#[test]
fn sample_times_do_not_reach_before_startup() {
    let times = sample_times(10_000_000, 16_000_000);
    assert_eq!(times, SampleTimes { head: 10_000_000, tail: 0, tail_visual: 0 });
    let early = sample_times(20_000_000, 16_000_000);
    assert_eq!(early, SampleTimes { head: 20_000_000, tail: 4_000_000, tail_visual: 0 });
}

#[test]
fn a_projectile_stops_below_the_least_speed() {
    let least = 0.5f32.to_bits();
    assert!(has_stopped(0.25f32.to_bits(), least));
    assert!(has_stopped(0.0f32.to_bits(), least));
    assert!(!has_stopped(0.5f32.to_bits(), least));
    assert!(!has_stopped(80.0f32.to_bits(), least));
}

#[test]
fn a_stopped_projectile_is_removed_a_tick_later() {
    let tail = (0.0, 0.0);
    let head = (10.0, 0.0);
    let obstacles = vec![measure(1, (5.0, 0.0), 1.0, tail, head)];
    let fast = 50.0f32.to_bits();
    let least = 1.0f32.to_bits();
    let first = projectile(false, None, &obstacles, fast, least);
    assert_eq!(first, Flight::Advance { hit: Some(0), stopped: true });
    let second = projectile(true, None, &obstacles, fast, least);
    assert_eq!(second, Flight::Despawn);
}

#[test]
fn a_projectile_flies_on_where_nothing_is_in_its_way() {
    let fast = 50.0f32.to_bits();
    let slow = 0.5f32.to_bits();
    let least = 1.0f32.to_bits();
    let none = Vec::new();
    assert_eq!(
        projectile(false, Some(3), &none, fast, least),
        Flight::Advance { hit: None, stopped: false }
    );
    assert_eq!(
        projectile(false, Some(3), &none, slow, least),
        Flight::Advance { hit: None, stopped: true }
    );
}

#[test]
fn escape_exits_and_tab_releases_the_cursor() {
    assert_eq!(input(false, false), InputActions { exit: false, release_cursor: false });
    assert_eq!(input(true, false), InputActions { exit: true, release_cursor: false });
    assert_eq!(input(false, true), InputActions { exit: false, release_cursor: true });
    assert_eq!(input(true, true), InputActions { exit: true, release_cursor: true });
}

#[test]
fn magnitudes_are_the_patterns_up_to_infinity() {
    assert!(is_valid(0.0f32.to_bits()));
    assert!(is_valid(1.5f32.to_bits()));
    assert!(is_valid(f32::MIN_POSITIVE.to_bits()));
    assert!(is_valid(f32::MAX.to_bits()));
    assert!(is_valid(f32::INFINITY.to_bits()));
    assert_eq!(f32::INFINITY.to_bits(), INFINITY);
    assert!(!is_valid(f32::NAN.to_bits()));
    assert!(!is_valid((-0.0f32).to_bits()));
    assert!(!is_valid((-1.0f32).to_bits()));
    assert!(!is_valid(u32::MAX));
}

#[test]
fn magnitudes_are_ordered_as_their_numbers() {
    let numbers = [0.0f32, 1.0e-45, 1.0e-40, f32::MIN_POSITIVE, 0.5, 1.0, 1.5, 2.0, 1.0e30, f32::MAX, f32::INFINITY];
    for a in numbers.iter() {
        for b in numbers.iter() {
            assert_eq!(a < b, a.to_bits() < b.to_bits());
            assert_eq!(a == b, a.to_bits() == b.to_bits());
        }
    }
}
