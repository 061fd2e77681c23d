//! The decisions of the projectile engine: which instants of a tick are
//! sampled, which obstacle a sweep strikes first, and when a projectile
//! stops and disappears.
//!
//! Positions and velocities are measured by the caller. What is decided
//! here rests on comparisons of magnitudes alone (see [`crate::magnitude`]),
//! which are compared by their bit patterns.

use crate::magnitude::is_magnitude;
use crate::magnitude::scaled_value;
use vstd::prelude::*;

verus! {

/// The span behind the head that the drawn trail covers at least, in
/// nanoseconds (one frame at 40 frames per second).
pub const TIME_DELTA_FOR_RENDER: u128 = 25_000_000;

/// The instants, in nanoseconds since startup, at which a projectile's
/// trajectory is sampled in one tick.
#[derive(Clone, Copy, PartialEq, Eq, Debug)]
pub struct SampleTimes {
    /// Now: where the head is.
    pub head: u128,
    /// One tick ago: where the swept segment starts.
    pub tail: u128,
    /// Where the drawn trail starts.
    pub tail_visual: u128,
}

/// `a - b`, or zero where `b` is the larger.
pub open spec fn saturating_difference(a: u128, b: u128) -> u128 {
    if a >= b {
        (a - b) as u128
    } else {
        0
    }
}

/// The larger of two spans.
pub open spec fn longer(a: u128, b: u128) -> u128 {
    if a >= b {
        a
    } else {
        b
    }
}

/// The sample instants of a tick that ends at `since_startup` and took
/// `delta`.
pub fn sample_times(since_startup: u128, delta: u128) -> (times: SampleTimes)
    ensures
        times.head == since_startup,
        times.tail == saturating_difference(since_startup, delta),
        times.tail_visual == saturating_difference(
            since_startup,
            longer(delta, TIME_DELTA_FOR_RENDER),
        ),
        times.tail_visual <= times.tail <= times.head,
{
    let visual: u128 = if delta >= TIME_DELTA_FOR_RENDER {
        delta
    } else {
        TIME_DELTA_FOR_RENDER
    };
    SampleTimes {
        head: since_startup,
        tail: if since_startup >= delta {
            since_startup - delta
        } else {
            0
        },
        tail_visual: if since_startup >= visual {
            since_startup - visual
        } else {
            0
        },
    }
}

/// A collidable body as one sweep sees it.
#[derive(Clone, Copy, PartialEq, Eq, Debug)]
pub struct Obstacle {
    /// The handle of the body's entity.
    pub entity: u64,
    /// The square of the body's radius.
    pub radius_squared: u32,
    /// The squared distance from the body's centre to the nearest point of
    /// the swept segment.
    pub contact_distance_squared: u32,
    /// The squared distance from the body's centre to the segment's tail.
    pub tail_distance_squared: u32,
}

impl Obstacle {
    /// Whether all three measurements are magnitudes.
    pub open spec fn is_measured(self) -> bool {
        &&& is_magnitude(self.radius_squared)
        &&& is_magnitude(self.contact_distance_squared)
        &&& is_magnitude(self.tail_distance_squared)
    }
}

/// Whether the sweep of a projectile fired by `shooter` strikes the
/// obstacle: it is not the shooter, and the pattern of the squared distance
/// to the segment is below that of the squared radius. For an obstacle that
/// [`is_measured`](Obstacle::is_measured) this says that the segment comes
/// closer to its centre than its radius.
pub open spec fn is_hit(shooter: Option<u64>, obstacle: Obstacle) -> bool {
    shooter != Some(obstacle.entity) && obstacle.contact_distance_squared
        < obstacle.radius_squared
}

/// Whether the obstacle at `place` is the one that the sweep strikes first:
/// it is struck, no struck obstacle is closer to the tail, and of those as
/// close as it none comes earlier in the sequence.
pub open spec fn is_first_hit(shooter: Option<u64>, obstacles: Seq<Obstacle>, place: int) -> bool {
    &&& 0 <= place < obstacles.len()
    &&& is_hit(shooter, obstacles[place])
    &&& forall|other: int|
        0 <= other < obstacles.len() && is_hit(shooter, #[trigger] obstacles[other])
            ==> obstacles[place].tail_distance_squared <= obstacles[other].tail_distance_squared
    &&& forall|other: int|
        0 <= other < place && is_hit(shooter, #[trigger] obstacles[other])
            ==> obstacles[place].tail_distance_squared < obstacles[other].tail_distance_squared
}

/// Whether the sweep strikes anything.
pub open spec fn strikes(shooter: Option<u64>, obstacles: Seq<Obstacle>) -> bool {
    exists|place: int| 0 <= place < obstacles.len() && is_hit(shooter, #[trigger] obstacles[place])
}

/// A sweep has at most one first hit: the choice is fixed by the obstacles
/// and their order.
pub proof fn lemma_first_hit_is_unique(
    shooter: Option<u64>,
    obstacles: Seq<Obstacle>,
    a: int,
    b: int,
)
    requires
        is_first_hit(shooter, obstacles, a),
        is_first_hit(shooter, obstacles, b),
    ensures
        a == b,
{
    if a < b {
        assert(is_hit(shooter, obstacles[a]));
        assert(obstacles[b].tail_distance_squared < obstacles[a].tail_distance_squared);
        assert(is_hit(shooter, obstacles[b]));
    } else if b < a {
        assert(is_hit(shooter, obstacles[b]));
        assert(obstacles[a].tail_distance_squared < obstacles[b].tail_distance_squared);
        assert(is_hit(shooter, obstacles[a]));
    }
}

/// An obstacle is struck exactly where it is not the shooter and its squared
/// distance to the segment is, as a number, below its squared radius.
pub proof fn lemma_hit_compares_numbers(shooter: Option<u64>, obstacle: Obstacle)
    requires
        obstacle.is_measured(),
    ensures
        is_hit(shooter, obstacle) <==> shooter != Some(obstacle.entity) && scaled_value(
            obstacle.contact_distance_squared,
        ) < scaled_value(obstacle.radius_squared),
{
    crate::magnitude::lemma_magnitudes_compare_as_numbers(
        obstacle.contact_distance_squared,
        obstacle.radius_squared,
    );
}

/// The first hit is the earliest along the sweep: no struck obstacle is, as
/// a number, closer to the tail, and none that comes before it in the
/// sequence is as close.
pub proof fn lemma_first_hit_is_nearest(
    shooter: Option<u64>,
    obstacles: Seq<Obstacle>,
    place: int,
    other: int,
)
    requires
        is_first_hit(shooter, obstacles, place),
        0 <= other < obstacles.len(),
        is_hit(shooter, obstacles[other]),
        obstacles[place].is_measured(),
        obstacles[other].is_measured(),
    ensures
        scaled_value(obstacles[place].tail_distance_squared) <= scaled_value(
            obstacles[other].tail_distance_squared,
        ),
        other < place ==> scaled_value(obstacles[place].tail_distance_squared) < scaled_value(
            obstacles[other].tail_distance_squared,
        ),
{
    crate::magnitude::lemma_magnitudes_compare_as_numbers(
        obstacles[place].tail_distance_squared,
        obstacles[other].tail_distance_squared,
    );
}

/// A projectile has stopped exactly where its speed is, as a number, below
/// the least speed of flight.
pub proof fn lemma_stop_compares_numbers(speed: u32, least_speed: u32)
    requires
        is_magnitude(speed),
        is_magnitude(least_speed),
    ensures
        speed < least_speed <==> scaled_value(speed) < scaled_value(least_speed),
{
    crate::magnitude::lemma_magnitudes_compare_as_numbers(speed, least_speed);
}

/// A sweep with no movement is tested like any other, a body that the
/// segment only touches is not struck, and the shooter is never struck.
pub proof fn lemma_hit_edges(shooter: Option<u64>, obstacle: Obstacle)
    ensures
        obstacle.contact_distance_squared == obstacle.radius_squared ==> !is_hit(
            shooter,
            obstacle,
        ),
        shooter == Some(obstacle.entity) ==> !is_hit(shooter, obstacle),
        obstacle.radius_squared == 0 ==> !is_hit(shooter, obstacle),
{
}

/// The place of the obstacle that the sweep strikes first, if it strikes
/// any.
pub fn find_obstacle(shooter: Option<u64>, obstacles: &Vec<Obstacle>) -> (result: Option<usize>)
    ensures
        match result {
            Some(place) => is_first_hit(shooter, obstacles@, place as int),
            None => !strikes(shooter, obstacles@),
        },
{
    let mut result: Option<usize> = None;
    let mut next: usize = 0;
    while next < obstacles.len()
        invariant
            next <= obstacles.len(),
            match result {
                Some(place) => place < next && is_first_hit(
                    shooter,
                    obstacles@.take(next as int),
                    place as int,
                ),
                None => !strikes(shooter, obstacles@.take(next as int)),
            },
        decreases obstacles.len() - next,
    {
        let obstacle = obstacles[next];
        let ghost seen = obstacles@.take(next as int);
        let ghost grown = obstacles@.take(next + 1);
        let is_shooter = match shooter {
            Some(entity) => entity == obstacle.entity,
            None => false,
        };
        let struck = !is_shooter && obstacle.contact_distance_squared < obstacle.radius_squared;
        let nearer = match result {
            Some(place) => obstacle.tail_distance_squared
                < obstacles[place].tail_distance_squared,
            None => true,
        };
        proof {
            assert(grown[next as int] == obstacle);
            assert(forall|i: int| 0 <= i < next ==> grown[i] == seen[i]);
            assert(struck == is_hit(shooter, obstacle));
        }
        if struck && nearer {
            proof {
                match result {
                    Some(place) => {
                        assert forall|other: int|
                            0 <= other < grown.len() && is_hit(shooter, #[trigger] grown[other])
                            implies obstacle.tail_distance_squared
                            <= grown[other].tail_distance_squared by {
                            if other < next {
                                assert(is_hit(shooter, seen[other]));
                            }
                        }
                        assert forall|other: int|
                            0 <= other < next && is_hit(shooter, #[trigger] grown[other])
                            implies obstacle.tail_distance_squared
                            < grown[other].tail_distance_squared by {
                            assert(is_hit(shooter, seen[other]));
                        }
                    },
                    None => {
                        assert forall|other: int|
                            0 <= other < next implies !is_hit(shooter, #[trigger] grown[other]) by {
                            assert(seen[other] == grown[other]);
                        }
                    },
                }
            }
            result = Some(next);
        } else {
            proof {
                match result {
                    Some(place) => {
                        let kept = place as int;
                        assert forall|other: int|
                            0 <= other < grown.len() && is_hit(shooter, #[trigger] grown[other])
                            implies grown[kept].tail_distance_squared
                            <= grown[other].tail_distance_squared by {
                            if other < next {
                                assert(is_hit(shooter, seen[other]));
                            }
                        }
                        assert forall|other: int|
                            0 <= other < kept && is_hit(shooter, #[trigger] grown[other])
                            implies grown[kept].tail_distance_squared
                            < grown[other].tail_distance_squared by {
                            assert(is_hit(shooter, seen[other]));
                        }
                    },
                    None => {
                        assert forall|other: int| 0 <= other < grown.len() implies !is_hit(
                            shooter,
                            #[trigger] grown[other],
                        ) by {
                            if other < next {
                                assert(seen[other] == grown[other]);
                            }
                        }
                    },
                }
            }
        }
        next = next + 1;
    }
    proof {
        assert(obstacles@.take(next as int) =~= obstacles@);
    }
    result
}

/// Whether a projectile has slowed down to a stop: its speed is below the
/// least speed of flight.
pub fn has_stopped(speed: u32, least_speed: u32) -> (stopped: bool)
    ensures
        stopped == (speed < least_speed),
{
    speed < least_speed
}

/// What becomes of one projectile in one tick.
#[derive(Clone, Copy, PartialEq, Eq, Debug)]
pub enum Flight {
    /// It stopped a tick ago: it is removed now.
    Despawn,
    /// It is drawn for this tick. `hit` is the place of the obstacle that it
    /// struck, where its head is held at the point of contact; `stopped`
    /// says that this is its last tick.
    Advance { hit: Option<usize>, stopped: bool },
}

/// Decides what becomes of one projectile in one tick.
///
/// A projectile that was stopped before is removed, and nothing is struck.
/// Any other is tested against the obstacles; it stops where it strikes
/// one, and also where its speed at the head has fallen below `least_speed`.
pub fn projectile(
    stopped: bool,
    shooter: Option<u64>,
    obstacles: &Vec<Obstacle>,
    head_speed: u32,
    least_speed: u32,
) -> (flight: Flight)
    ensures
        stopped ==> flight == Flight::Despawn,
        !stopped ==> match flight {
            Flight::Despawn => false,
            Flight::Advance { hit, stopped: last } => {
                &&& match hit {
                    Some(place) => is_first_hit(shooter, obstacles@, place as int),
                    None => !strikes(shooter, obstacles@),
                }
                &&& last == (hit is Some || head_speed < least_speed)
            },
        },
{
    if stopped {
        return Flight::Despawn;
    }
    let hit = find_obstacle(shooter, obstacles);
    let slow = has_stopped(head_speed, least_speed);
    Flight::Advance { hit, stopped: hit.is_some() || slow }
}

} // verus!
