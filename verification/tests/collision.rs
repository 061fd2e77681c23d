use hackathon_shooter::arguments::Arguments;
use hackathon_shooter::collision::append_solution;
use hackathon_shooter::collision::collision_find;
use hackathon_shooter::collision::pairs;
use hackathon_shooter::collision::CollisionSolution;
use hackathon_shooter::collision::CollisionSystemData;
use hackathon_shooter::collision::Measure;
use hackathon_shooter::collision::Term;

struct Body {
    entity_id: u32,
    centre: (f32, f32),
    radius: f32,
}

fn measure_all(bodies: &[Body]) -> Vec<Measure> {
    pairs(bodies.len())
        .into_iter()
        .map(|(i, j)| {
            let (a, b) = (&bodies[i], &bodies[j]);
            let dx = a.centre.0 - b.centre.0;
            let dy = a.centre.1 - b.centre.1;
            Measure {
                first: a.entity_id,
                second: b.entity_id,
                separation: (dx * dx + dy * dy).sqrt().to_bits(),
                reach: (a.radius + b.radius).to_bits(),
            }
        })
        .collect()
}

fn direct(pair: usize) -> Term {
    Term { pair, reversed: false }
}

fn reversed(pair: usize) -> Term {
    Term { pair, reversed: true }
}

#[test]
fn pairs_lists_every_pair_once_in_order() {
    assert_eq!(pairs(0), Vec::<(usize, usize)>::new());
    assert_eq!(pairs(1), Vec::<(usize, usize)>::new());
    assert_eq!(pairs(2), vec![(0, 1)]);
    assert_eq!(pairs(4), vec![(0, 1), (0, 2), (0, 3), (1, 2), (1, 3), (2, 3)]);
    assert_eq!(pairs(30).len(), 30 * 29 / 2);
}

#[test]
fn overlap_is_detected_below_the_sum_of_the_radii() {
    let near = Measure { first: 1, second: 2, separation: 1.9f32.to_bits(), reach: 2.0f32.to_bits() };
    let touching =
        Measure { first: 1, second: 2, separation: 2.0f32.to_bits(), reach: 2.0f32.to_bits() };
    let apart = Measure { first: 1, second: 2, separation: 2.1f32.to_bits(), reach: 2.0f32.to_bits() };
    let same_centre =
        Measure { first: 1, second: 2, separation: 0.0f32.to_bits(), reach: 0.1f32.to_bits() };
    assert!(near.is_overlap());
    assert!(!touching.is_overlap());
    assert!(!apart.is_overlap());
    assert!(same_centre.is_overlap());
}

#[test]
fn nothing_overlaps_nothing_is_solved() {
    let bodies = [
        Body { entity_id: 1, centre: (0.0, 0.0), radius: 1.0 },
        Body { entity_id: 2, centre: (5.0, 0.0), radius: 1.0 },
        Body { entity_id: 3, centre: (0.0, 5.0), radius: 1.0 },
    ];
    let mut data = CollisionSystemData::default();
    assert_eq!(collision_find(&measure_all(&bodies), &mut data), Vec::new());
    assert_eq!(collision_find(&Vec::new(), &mut data), Vec::new());
    assert_eq!(data.previous_solutions(), 0);
}

#[test]
fn a_single_overlap_gives_each_body_one_term() {
    let bodies = [
        Body { entity_id: 10, centre: (0.0, 0.0), radius: 1.0 },
        Body { entity_id: 20, centre: (1.5, 0.0), radius: 1.0 },
    ];
    let mut data = CollisionSystemData::default();
    let solutions = collision_find(&measure_all(&bodies), &mut data);
    assert_eq!(
        solutions,
        vec![
            CollisionSolution { entity_id: 10, terms: vec![direct(0)] },
            CollisionSolution { entity_id: 20, terms: vec![reversed(0)] },
        ]
    );
    assert_eq!(data.previous_solutions(), 2);
}

#[test]
fn a_body_between_two_others_collects_both_corrections() {
    // 2 touches 1 and 3; 1 and 3 do not touch each other.
    let bodies = [
        Body { entity_id: 1, centre: (0.0, 0.0), radius: 1.0 },
        Body { entity_id: 2, centre: (1.5, 0.0), radius: 1.0 },
        Body { entity_id: 3, centre: (3.0, 0.0), radius: 1.0 },
    ];
    let measures = measure_all(&bodies);
    assert_eq!(measures.len(), 3);
    let mut data = CollisionSystemData::default();
    let solutions = collision_find(&measures, &mut data);
    // Pairs are measured as (1,2), (1,3), (2,3): places 0 and 2 overlap.
    assert_eq!(
        solutions,
        vec![
            CollisionSolution { entity_id: 1, terms: vec![direct(0)] },
            CollisionSolution { entity_id: 2, terms: vec![reversed(0), direct(2)] },
            CollisionSolution { entity_id: 3, terms: vec![reversed(2)] },
        ]
    );
    assert_eq!(data.previous_solutions(), 3);
}

#[test]
fn every_body_has_at_most_one_solution() {
    let bodies: Vec<Body> = (0..12u32)
        .map(|n| Body { entity_id: 100 + n, centre: (n as f32 * 0.5, 0.0), radius: 0.6 })
        .collect();
    let mut data = CollisionSystemData::default();
    let measures = measure_all(&bodies);
    let solutions = collision_find(&measures, &mut data);
    assert_eq!(solutions.len(), 12);
    for (i, a) in solutions.iter().enumerate() {
        for (j, b) in solutions.iter().enumerate() {
            assert_eq!(a.entity_id == b.entity_id, i == j);
        }
    }
    let overlaps = measures.iter().filter(|m| m.is_overlap()).count();
    let terms: usize = solutions.iter().map(|s| s.terms.len()).sum();
    assert_eq!(terms, 2 * overlaps);
    assert_eq!(data.previous_solutions(), 12);
}

#[test]
fn append_joins_an_existing_solution_or_starts_one() {
    let mut solutions = Vec::new();
    append_solution(&mut solutions, 5, direct(0));
    append_solution(&mut solutions, 6, reversed(0));
    append_solution(&mut solutions, 5, reversed(3));
    assert_eq!(
        solutions,
        vec![
            CollisionSolution { entity_id: 5, terms: vec![direct(0), reversed(3)] },
            CollisionSolution { entity_id: 6, terms: vec![reversed(0)] },
        ]
    );
}

#[test]
fn arguments_hold_the_start_up_choices() {
    let arguments = Arguments { host: true, join: false, config: String::from("./config.toml") };
    assert!(arguments.host);
    assert!(!arguments.join);
    assert_eq!(arguments.config, "./config.toml");
}
