//! The animal behavior system. Its transitions and tuning are deliberately
//! unconstrained — only its scheduling position between movement and
//! collision, and its side effects, are part of the contract: it touches
//! velocity, position, state and wander target alone, keeps every animal on
//! the map, and keeps velocities bounded. Randomness arrives as plain
//! values drawn by the caller.

use vstd::prelude::*;

use crate::collision::Collider;
use crate::mathx::{clamp_i64, div_trunc, isqrt};
use crate::scheduler::MAP_MAX_MILLI;
use crate::world::{AiState, AiTarget, AnimalType, Health};

verus! {

/// The largest velocity magnitude per component an animal can hold.
pub const ANIMAL_VEL_LIMIT: i64 = 100_000;

/// A wolf's wander speed in milli-units per second.
pub const WOLF_SPEED_MILLI: i64 = 35_000;

/// A fish's speed band in milli-units per second.
pub const FISH_MAX_SPEED_MILLI: i64 = 60_000;

pub const FISH_MIN_SPEED_MILLI: i64 = 20_000;

/// How close a wolf gets to its wander target before redrawing it.
pub const RETARGET_D2_MILLI: i64 = 25_000_000;

/// Half the span of a redrawn wander target's offset.
pub const WANDER_RANGE_MILLI: i64 = 256_000;

/// Soft-turn margin at the map border, and the per-tick turn impulse.
pub const BORDER_MARGIN_MILLI: i64 = 200_000;

pub const TURN_FACTOR_MILLI: i64 = 2_000;

/// One animal entity.
pub struct Animal {
    pub x: i64,
    pub y: i64,
    pub vx: i64,
    pub vy: i64,
    pub animal_type: AnimalType,
    pub state: AiState,
    pub target: AiTarget,
    pub health: Health,
}

impl Animal {
    /// On the map, bounded velocity, wander target on the map.
    pub open spec fn wf(self) -> bool {
        &&& 0 <= self.x <= MAP_MAX_MILLI
        &&& 0 <= self.y <= MAP_MAX_MILLI
        &&& -ANIMAL_VEL_LIMIT <= self.vx <= ANIMAL_VEL_LIMIT
        &&& -ANIMAL_VEL_LIMIT <= self.vy <= ANIMAL_VEL_LIMIT
        &&& 0 <= self.target.x <= MAP_MAX_MILLI
        &&& 0 <= self.target.y <= MAP_MAX_MILLI
    }
}

/// Builds one animal of the given kind at a position: a wolf is the larger,
/// hardier kind; both start idle, at rest, with their wander target where
/// they stand.
pub fn spawn_animal(animal_type: AnimalType, x: i64, y: i64) -> (r: (Animal, Collider))
    requires
        0 <= x <= MAP_MAX_MILLI,
        0 <= y <= MAP_MAX_MILLI,
    ensures
        r.0.wf(),
        r.0.x == x && r.0.y == y,
        r.0.vx == 0 && r.0.vy == 0,
        r.0.animal_type == animal_type,
        r.0.state == AiState::Idle,
        r.0.target == (AiTarget { target: None, x, y }),
        r.0.health.current == r.0.health.max,
        match animal_type {
            AnimalType::Wolf => r.0.health.max == 80_000 && r.1.rad == 25_000,
            AnimalType::Fish => r.0.health.max == 20_000 && r.1.rad == 10_000,
        },
        r.1.wf(),
{
    let (health, radius): (i64, i64) = match animal_type {
        AnimalType::Wolf => (80_000, 25_000),
        AnimalType::Fish => (20_000, 10_000),
    };
    let animal = Animal {
        x,
        y,
        vx: 0,
        vy: 0,
        animal_type,
        state: AiState::Idle,
        target: AiTarget { target: None, x, y },
        health: Health { current: health, max: health },
    };
    (animal, Collider::circle(radius))
}

/// One random draw for an animal, confined to the wander range; a caller
/// that supplies no randomness gets zero.
fn draw(rng: &Vec<i64>, idx: usize) -> (r: i64)
    ensures
        -WANDER_RANGE_MILLI <= r <= WANDER_RANGE_MILLI,
{
    if rng.len() == 0 {
        0
    } else {
        clamp_i64(rng[idx % rng.len()], -WANDER_RANGE_MILLI, WANDER_RANGE_MILLI)
    }
}

/// Advances every animal's behavior by one tick: an idle animal bleeds
/// speed; a wandering wolf chases its wander point and redraws it from the
/// supplied randomness when it arrives; a wandering fish drifts with a
/// random nudge, its speed held inside the species' band; near the map
/// border every animal is turned softly inward; finally the velocity is
/// applied and the position hard-clamped to the map. Health, kind and the
/// behavior state are not touched here.
pub fn animal_ai_system(animals: &mut Vec<Animal>, rng: &Vec<i64>)
    requires
        old(animals)@.len() <= 0x1000_0000,
        forall|k: int| 0 <= k < old(animals)@.len() ==> (#[trigger] old(animals)@[k]).wf(),
    ensures
        final(animals)@.len() == old(animals)@.len(),
        forall|k: int| 0 <= k < old(animals)@.len() ==> (#[trigger] final(animals)@[k]).wf(),
        forall|k: int|
            0 <= k < old(animals)@.len() ==> {
                &&& (#[trigger] final(animals)@[k]).animal_type == old(animals)@[k].animal_type
                &&& final(animals)@[k].state == old(animals)@[k].state
                &&& final(animals)@[k].health == old(animals)@[k].health
                &&& 0 <= final(animals)@[k].x <= MAP_MAX_MILLI
                &&& 0 <= final(animals)@[k].y <= MAP_MAX_MILLI
            },
{
    let n = animals.len();
    let mut i: usize = 0;
    while i < n
        invariant
            i <= n,
            n == animals@.len() == old(animals)@.len(),
            n <= 0x1000_0000,
            forall|k: int| 0 <= k < n ==> (#[trigger] old(animals)@[k]).wf(),
            forall|k: int| i <= k < n ==> animals@[k] == old(animals)@[k],
            forall|k: int|
                0 <= k < i ==> {
                    &&& (#[trigger] animals@[k]).wf()
                    &&& animals@[k].animal_type == old(animals)@[k].animal_type
                    &&& animals@[k].state == old(animals)@[k].state
                    &&& animals@[k].health == old(animals)@[k].health
                },
        decreases n - i,
    {
        let x0 = animals[i].x;
        let y0 = animals[i].y;
        let vx0 = animals[i].vx;
        let vy0 = animals[i].vy;
        let kind = animals[i].animal_type;
        let state = animals[i].state;
        let tx0 = animals[i].target.x;
        let ty0 = animals[i].target.y;

        let mut vx: i64 = vx0;
        let mut vy: i64 = vy0;
        let mut tx: i64 = tx0;
        let mut ty: i64 = ty0;

        match state {
            AiState::Idle => {
                vx = div_trunc(vx * 9, 10);
                vy = div_trunc(vy * 9, 10);
            },
            AiState::Wander => {
                match kind {
                    AnimalType::Wolf => {
                        let dx = tx - x0;
                        let dy = ty - y0;
                        proof {
                            assert(0 <= dx * dx <= 8_192_000i64 * 8_192_000i64 && 0 <= dy * dy
                                <= 8_192_000i64 * 8_192_000i64) by (nonlinear_arith)
                                requires
                                    -8_192_000 <= dx <= 8_192_000 && -8_192_000 <= dy
                                        <= 8_192_000,
                            ;
                        }
                        let d2 = dx * dx + dy * dy;
                        if d2 < RETARGET_D2_MILLI {
                            tx = clamp_i64(x0 + draw(rng, 2 * i), 0, MAP_MAX_MILLI);
                            ty = clamp_i64(y0 + draw(rng, 2 * i + 1), 0, MAP_MAX_MILLI);
                        } else {
                            let dist = isqrt(d2);
                            proof {
                                crate::collision::lemma_component_le_isqrt(dx as int, dy as int);
                                crate::collision::lemma_component_le_isqrt(dy as int, dx as int);
                                assert(dy as int * dy as int + dx as int * dx as int == d2 as int);
                                assert(dist >= 1) by {
                                    if dist == 0 {
                                        assert((dist as int + 1) * (dist as int + 1) == 1)
                                            by (nonlinear_arith)
                                            requires
                                                dist == 0,
                                        ;
                                    }
                                }
                                assert(-(dist * WOLF_SPEED_MILLI) <= dx * WOLF_SPEED_MILLI <= dist
                                    * WOLF_SPEED_MILLI && -(dist * WOLF_SPEED_MILLI) <= dy
                                    * WOLF_SPEED_MILLI <= dist * WOLF_SPEED_MILLI)
                                    by (nonlinear_arith)
                                    requires
                                        -dist <= dx <= dist && -dist <= dy <= dist
                                            && WOLF_SPEED_MILLI > 0,
                                ;
                                crate::mathx::lemma_tdiv_bound(
                                    (dx * WOLF_SPEED_MILLI) as int,
                                    dist as int,
                                    WOLF_SPEED_MILLI as int,
                                );
                                crate::mathx::lemma_tdiv_bound(
                                    (dy * WOLF_SPEED_MILLI) as int,
                                    dist as int,
                                    WOLF_SPEED_MILLI as int,
                                );
                            }
                            vx = div_trunc(dx * WOLF_SPEED_MILLI, dist);
                            vy = div_trunc(dy * WOLF_SPEED_MILLI, dist);
                        }
                    },
                    AnimalType::Fish => {
                        let jx = div_trunc(draw(rng, 2 * i), 512);
                        let jy = div_trunc(draw(rng, 2 * i + 1), 512);
                        vx = vx + jx;
                        vy = vy + jy;
                        proof {
                            assert(0 <= vx * vx <= 101_000i64 * 101_000i64 && 0 <= vy * vy
                                <= 101_000i64 * 101_000i64) by (nonlinear_arith)
                                requires
                                    -101_000 <= vx <= 101_000 && -101_000 <= vy <= 101_000,
                            ;
                        }
                        let s2 = vx * vx + vy * vy;
                        let speed = isqrt(s2);
                        proof {
                            crate::collision::lemma_component_le_isqrt(vx as int, vy as int);
                            crate::collision::lemma_component_le_isqrt(vy as int, vx as int);
                            assert(vy as int * vy as int + vx as int * vx as int == s2 as int);
                        }
                        if speed > FISH_MAX_SPEED_MILLI {
                            proof {
                                lemma_rescale(vx as int, speed as int, FISH_MAX_SPEED_MILLI as int);
                                lemma_rescale(vy as int, speed as int, FISH_MAX_SPEED_MILLI as int);
                            }
                            let sx = div_trunc(vx * FISH_MAX_SPEED_MILLI, speed);
                            let sy = div_trunc(vy * FISH_MAX_SPEED_MILLI, speed);
                            vx = sx;
                            vy = sy;
                        } else if speed > 0 && speed < FISH_MIN_SPEED_MILLI {
                            proof {
                                lemma_rescale(vx as int, speed as int, FISH_MIN_SPEED_MILLI as int);
                                lemma_rescale(vy as int, speed as int, FISH_MIN_SPEED_MILLI as int);
                            }
                            let sx = div_trunc(vx * FISH_MIN_SPEED_MILLI, speed);
                            let sy = div_trunc(vy * FISH_MIN_SPEED_MILLI, speed);
                            vx = sx;
                            vy = sy;
                        }
                    },
                }
            },
            _ => {},
        }

        // Soft turn away from the map border.
        if x0 < BORDER_MARGIN_MILLI {
            vx = clamp_i64(vx + TURN_FACTOR_MILLI, -ANIMAL_VEL_LIMIT, ANIMAL_VEL_LIMIT);
        }
        if x0 > MAP_MAX_MILLI - BORDER_MARGIN_MILLI {
            vx = clamp_i64(vx - TURN_FACTOR_MILLI, -ANIMAL_VEL_LIMIT, ANIMAL_VEL_LIMIT);
        }
        if y0 < BORDER_MARGIN_MILLI {
            vy = clamp_i64(vy + TURN_FACTOR_MILLI, -ANIMAL_VEL_LIMIT, ANIMAL_VEL_LIMIT);
        }
        if y0 > MAP_MAX_MILLI - BORDER_MARGIN_MILLI {
            vy = clamp_i64(vy - TURN_FACTOR_MILLI, -ANIMAL_VEL_LIMIT, ANIMAL_VEL_LIMIT);
        }
        proof {
            assert(-ANIMAL_VEL_LIMIT <= vx <= ANIMAL_VEL_LIMIT && -ANIMAL_VEL_LIMIT <= vy
                <= ANIMAL_VEL_LIMIT);
        }

        // Apply the velocity, then the hard clamp as the safety net.
        let nx = clamp_i64(x0 + vx, 0, MAP_MAX_MILLI);
        let ny = clamp_i64(y0 + vy, 0, MAP_MAX_MILLI);
        let a = &mut animals[i];
        a.x = nx;
        a.y = ny;
        a.vx = vx;
        a.vy = vy;
        a.target = AiTarget { target: a.target.target, x: tx, y: ty };
        i = i + 1;
    }
}

/// Rescaling a component of a vector of length `speed` to a new length `c`
/// keeps its magnitude at most `c`.
proof fn lemma_rescale(v: int, speed: int, c: int)
    requires
        speed >= 1,
        -speed <= v <= speed,
        c >= 0,
    ensures
        -c <= crate::mathx::spec_tdiv(v * c, speed) <= c,
{
    assert(-(speed * c) <= v * c <= speed * c) by (nonlinear_arith)
        requires
            -speed <= v <= speed && c >= 0,
    ;
    crate::mathx::lemma_tdiv_bound(v * c, speed, c);
}

} // verus!
