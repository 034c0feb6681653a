//! The simulation tick: the intent queue's application in arrival order,
//! the player movement system, the collision pass over the player set, and
//! the snapshot broadcast. All intents drained in a tick are applied before
//! any system runs, so clients never observe an intermediate state.

use vstd::prelude::*;

use crate::collision::{
    collision_resolution_system, spec_resolved, Body, Obstacle, POS_CLAMP, REACT_LIMIT,
};
use crate::mathx::{clamp_i64, div_trunc, isqrt, spec_clamp, spec_isqrt, spec_tdiv};
use crate::codec::spec_u32_le;
use crate::wire::{
    encode_frame, spec_bool_byte, spec_frame_bytes, spec_players_bytes, AddPlayerData, PlayerTO,
    UpdatePlayerData,
};

verus! {

/// A player's top speed in milli-units per second.
pub const MAX_SPEED_MILLI: i64 = 45_000;

/// The largest velocity change one tick's acceleration can apply.
pub const ACCEL_STEP_MILLI: i64 = 54_000;

/// The velocity friction removes per tick from an uncontrolled player.
pub const FRICTION_DROP_MILLI: i64 = 40_500;

/// The tick period as a fraction of a second: numerator and denominator.
pub const DT_NUM: i64 = 45;

pub const DT_DEN: i64 = 100;

/// The playable map's extent in milli-units.
pub const MAP_MAX_MILLI: i64 = 8_192_000;

/// Where new players spawn: the map's center.
pub const SPAWN_POS_MILLI: i64 = 4_096_000;

/// Every player's collision radius in milli-units.
pub const PLAYER_RADIUS_MILLI: i64 = 10_000;

/// The length of a unit direction vector's components.
pub const DIR_UNIT_MILLI: i64 = 1000;

/// The square of the top speed: the Euclidean speed cap.
pub const SPEED_CAP_SQ: i64 = 2_025_000_000;

/// One player entity, owned by the simulation world.
pub struct Player {
    pub id: u8,
    pub name: Vec<u8>,
    pub x: i64,
    pub y: i64,
    pub vx: i64,
    pub vy: i64,
    pub move_dir: Option<(i64, i64)>,
    pub attacked: bool,
    pub weapon_index: Option<u8>,
}

impl Player {
    /// Position within the clamp region, velocity within top speed — per
    /// component and in the Euclidean norm — any held direction inside the
    /// unit disc, and the name encodable.
    pub open spec fn wf(self) -> bool {
        &&& -POS_CLAMP <= self.x <= POS_CLAMP
        &&& -POS_CLAMP <= self.y <= POS_CLAMP
        &&& -MAX_SPEED_MILLI <= self.vx <= MAX_SPEED_MILLI
        &&& -MAX_SPEED_MILLI <= self.vy <= MAX_SPEED_MILLI
        &&& self.vx * self.vx + self.vy * self.vy <= SPEED_CAP_SQ
        &&& match self.move_dir {
            Option::Some(d) => {
                &&& -DIR_UNIT_MILLI <= d.0 <= DIR_UNIT_MILLI
                &&& -DIR_UNIT_MILLI <= d.1 <= DIR_UNIT_MILLI
                &&& d.0 * d.0 + d.1 * d.1 <= DIR_UNIT_MILLI * DIR_UNIT_MILLI
            },
            Option::None => true,
        }
        &&& self.name@.len() <= u32::MAX
    }
}

/// A decoded client action queued for the tick to apply.
pub enum InternalGameMessages {
    /// Create this connection's player under the given display name.
    AddPlayer { name: Vec<u8> },
    /// Hold this movement direction, a vector inside the unit disc, in
    /// milli-units.
    MovePlayer { dir_x: i64, dir_y: i64 },
    /// Destroy this connection's player.
    Disconnect,
}

/// Whether some player carries the id.
pub open spec fn spec_has_id(ps: Seq<Player>, id: u8) -> bool {
    exists|i: int| 0 <= i < ps.len() && (#[trigger] ps[i]).id == id
}

/// The entity a spawn request creates: at the map center, at rest, with no
/// held direction.
pub open spec fn spec_spawn_player(id: u8, name: Vec<u8>) -> Player {
    Player {
        id,
        name,
        x: SPAWN_POS_MILLI,
        y: SPAWN_POS_MILLI,
        vx: 0,
        vy: 0,
        move_dir: None,
        attacked: false,
        weapon_index: None,
    }
}

/// One intent's effect on the player set. A spawn for an id that already
/// has an entity, a move or disconnect for one that has none, are skipped
/// silently, as is a direction outside the unit disc (no angle encodes
/// one); a disconnect
/// removes the id's entity.
pub open spec fn spec_apply_one(
    ps: Seq<Player>,
    id: u8,
    msg: InternalGameMessages,
) -> Seq<Player> {
    match msg {
        InternalGameMessages::AddPlayer { name } => {
            if spec_has_id(ps, id) {
                ps
            } else {
                ps.push(spec_spawn_player(id, name))
            }
        },
        InternalGameMessages::MovePlayer { dir_x, dir_y } => {
            if dir_x * dir_x + dir_y * dir_y <= DIR_UNIT_MILLI * DIR_UNIT_MILLI {
                ps.map_values(
                    |p: Player|
                        if p.id == id {
                            Player { move_dir: Some((dir_x, dir_y)), ..p }
                        } else {
                            p
                        },
                )
            } else {
                ps
            }
        },
        InternalGameMessages::Disconnect => ps.filter(|p: Player| p.id != id),
    }
}

/// The player set after the first `k` queued intents, in arrival order.
pub open spec fn spec_apply_all(
    ps: Seq<Player>,
    intents: Seq<(u8, InternalGameMessages)>,
    k: int,
) -> Seq<Player>
    decreases k,
{
    if k <= 0 {
        ps
    } else {
        let prev = spec_apply_all(ps, intents, k - 1);
        spec_apply_one(prev, intents[k - 1].0, intents[k - 1].1)
    }
}

/// The players created by the first `k` queued intents, in creation order.
pub open spec fn spec_spawned(
    ps: Seq<Player>,
    intents: Seq<(u8, InternalGameMessages)>,
    k: int,
) -> Seq<Player>
    decreases k,
{
    if k <= 0 {
        Seq::empty()
    } else {
        let prev_world = spec_apply_all(ps, intents, k - 1);
        let prev = spec_spawned(ps, intents, k - 1);
        match intents[k - 1].1 {
            InternalGameMessages::AddPlayer { name } => {
                if spec_has_id(prev_world, intents[k - 1].0) {
                    prev
                } else {
                    prev.push(spec_spawn_player(intents[k - 1].0, name))
                }
            },
            InternalGameMessages::MovePlayer { .. } => prev,
            InternalGameMessages::Disconnect => prev,
        }
    }
}

/// All players well-formed and no id carried twice.
pub open spec fn spec_players_wf(ps: Seq<Player>) -> bool {
    &&& forall|i: int| 0 <= i < ps.len() ==> (#[trigger] ps[i]).wf()
    &&& forall|i: int, j: int| 0 <= i < j < ps.len() ==> ps[i].id != ps[j].id
}

/// The simulation world: the active player entities, exactly one per
/// connected, spawned player id.
pub struct GameWorld {
    pub players: Vec<Player>,
}

impl GameWorld {
    pub open spec fn wf(self) -> bool {
        spec_players_wf(self.players@)
    }

    /// An empty world.
    pub fn new() -> (r: GameWorld)
        ensures
            r.wf(),
            r.players@.len() == 0,
    {
        GameWorld { players: Vec::new() }
    }
}

/// Tests whether some player carries the id.
fn has_id(players: &Vec<Player>, id: u8) -> (r: bool)
    ensures
        r == spec_has_id(players@, id),
{
    let n = players.len();
    let mut i: usize = 0;
    while i < n
        invariant
            i <= n,
            n == players@.len(),
            forall|t: int| 0 <= t < i ==> (#[trigger] players@[t]).id != id,
        decreases n - i,
    {
        if players[i].id == id {
            return true;
        }
        i = i + 1;
    }
    false
}

/// What an intent must satisfy before it is queued: a spawn name fits its
/// wire length field.
pub open spec fn spec_msg_wf(msg: InternalGameMessages) -> bool {
    match msg {
        InternalGameMessages::AddPlayer { name } => name@.len() <= u32::MAX,
        InternalGameMessages::MovePlayer { .. } => true,
        InternalGameMessages::Disconnect => true,
    }
}

/// Applies one intent to the world; reports whether it created a player.
pub fn apply_intent(world: &mut GameWorld, id: u8, msg: InternalGameMessages) -> (created: bool)
    requires
        old(world).wf(),
        old(world).players@.len() < usize::MAX,
        spec_msg_wf(msg),
    ensures
        final(world).wf(),
        final(world).players@ == spec_apply_one(old(world).players@, id, msg),
        created == (msg is AddPlayer && !spec_has_id(old(world).players@, id)),
        created ==> final(world).players@.len() == old(world).players@.len() + 1,
        !created ==> final(world).players@.len() <= old(world).players@.len(),
{
    match msg {
        InternalGameMessages::AddPlayer { name } => {
            if has_id(&world.players, id) {
                proof {
                    assert(world.players@ =~= spec_apply_one(
                        old(world).players@,
                        id,
                        InternalGameMessages::AddPlayer { name },
                    ));
                }
                false
            } else {
                let p = Player {
                    id,
                    name,
                    x: SPAWN_POS_MILLI,
                    y: SPAWN_POS_MILLI,
                    vx: 0,
                    vy: 0,
                    move_dir: None,
                    attacked: false,
                    weapon_index: None,
                };
                world.players.push(p);
                proof {
                    assert forall|i: int, j: int|
                        0 <= i < j < world.players@.len() implies world.players@[i].id
                        != world.players@[j].id by {
                        if j == world.players@.len() - 1 {
                            assert(!spec_has_id(old(world).players@, id));
                            assert(old(world).players@[i].id != id);
                        }
                    }
                }
                true
            }
        },
        InternalGameMessages::MovePlayer { dir_x, dir_y } => {
            // A direction outside the unit disc cannot come from an angle;
            // the intent is skipped silently, like any other invalid one.
            let boxed = dir_x >= -DIR_UNIT_MILLI && dir_x <= DIR_UNIT_MILLI && dir_y
                >= -DIR_UNIT_MILLI && dir_y <= DIR_UNIT_MILLI;
            let mut in_disc = false;
            if boxed {
                proof {
                    assert(0 <= dir_x * dir_x <= 1000i64 * 1000i64 && 0 <= dir_y * dir_y
                        <= 1000i64 * 1000i64) by (nonlinear_arith)
                        requires
                            -1000 <= dir_x <= 1000 && -1000 <= dir_y <= 1000,
                    ;
                }
                in_disc = dir_x * dir_x + dir_y * dir_y <= DIR_UNIT_MILLI * DIR_UNIT_MILLI;
            }
            proof {
                if !(dir_x >= -DIR_UNIT_MILLI && dir_x <= DIR_UNIT_MILLI && dir_y
                    >= -DIR_UNIT_MILLI && dir_y <= DIR_UNIT_MILLI) {
                    assert(dir_x * dir_x + dir_y * dir_y > DIR_UNIT_MILLI * DIR_UNIT_MILLI)
                        by (nonlinear_arith)
                        requires
                            DIR_UNIT_MILLI == 1000 && (dir_x < -DIR_UNIT_MILLI || dir_x
                                > DIR_UNIT_MILLI || dir_y < -DIR_UNIT_MILLI || dir_y
                                > DIR_UNIT_MILLI),
                    ;
                }
            }
            if !in_disc {
                return false;
            }
            let ghost target = spec_apply_one(
                old(world).players@,
                id,
                InternalGameMessages::MovePlayer { dir_x, dir_y },
            );
            let n = world.players.len();
            let mut i: usize = 0;
            while i < n
                invariant
                    i <= n,
                    n == world.players@.len(),
                    world.players@.len() == old(world).players@.len(),
                    dir_x * dir_x + dir_y * dir_y <= DIR_UNIT_MILLI * DIR_UNIT_MILLI,
                    -DIR_UNIT_MILLI <= dir_x <= DIR_UNIT_MILLI,
                    -DIR_UNIT_MILLI <= dir_y <= DIR_UNIT_MILLI,
                    target == spec_apply_one(
                        old(world).players@,
                        id,
                        InternalGameMessages::MovePlayer { dir_x, dir_y },
                    ),
                    spec_players_wf(old(world).players@),
                    forall|t: int| 0 <= t < i ==> world.players@[t] == target[t],
                    forall|t: int| i <= t < n ==> world.players@[t] == old(world).players@[t],
                decreases n - i,
            {
                if world.players[i].id == id {
                    let p = &mut world.players[i];
                    p.move_dir = Some((dir_x, dir_y));
                }
                proof {
                    assert(world.players@[i as int] == target[i as int]) by {
                        if old(world).players@[i as int].id == id {
                            assert(target[i as int] == (Player {
                                move_dir: Some((dir_x, dir_y)),
                                ..old(world).players@[i as int]
                            }));
                        } else {
                            assert(target[i as int] == old(world).players@[i as int]);
                        }
                    }
                }
                i = i + 1;
            }
            proof {
                assert(world.players@ =~= target);
            }
            false
        },
        InternalGameMessages::Disconnect => {
            let ghost pred = |p: Player| p.id != id;
            let n = world.players.len();
            let mut at: usize = 0;
            let mut found = false;
            while at < n && !found
                invariant
                    at <= n,
                    n == world.players@.len(),
                    world.players@ == old(world).players@,
                    found ==> at < n && world.players@[at as int].id == id,
                    !found ==> forall|t: int| 0 <= t < at ==> (#[trigger] world.players@[t]).id != id,
                decreases n - at + (if found { 0int } else { 1int }),
            {
                if world.players[at].id == id {
                    found = true;
                } else {
                    at = at + 1;
                }
            }
            if found {
                world.players.remove(at);
                proof {
                    lemma_remove_match_is_filter(old(world).players@, pred, at as int);
                    assert forall|i: int, j: int|
                        0 <= i < j < world.players@.len() implies world.players@[i].id
                        != world.players@[j].id by {
                        let ps = old(world).players@;
                        let ii: int = if i < at { i } else { i + 1 };
                        let jj: int = if j < at { j } else { j + 1 };
                        assert(world.players@[i] == ps[ii] && world.players@[j] == ps[jj]);
                    }
                }
            } else {
                proof {
                    lemma_filter_all_kept(old(world).players@, pred);
                }
            }
            false
        },
    }
}

/// Filtering removes nothing when every element passes.
proof fn lemma_filter_all_kept(ps: Seq<Player>, pred: spec_fn(Player) -> bool)
    requires
        forall|i: int| 0 <= i < ps.len() ==> pred(#[trigger] ps[i]),
    ensures
        ps.filter(pred) == ps,
    decreases ps.len(),
{
    reveal(Seq::filter);
    if ps.len() > 0 {
        lemma_filter_all_kept(ps.drop_last(), pred);
        assert(ps.filter(pred) =~= ps);
    } else {
        assert(ps.filter(pred) =~= ps);
    }
}

/// When exactly one element fails the predicate, filtering equals removing
/// that element.
proof fn lemma_remove_match_is_filter(ps: Seq<Player>, pred: spec_fn(Player) -> bool, t: int)
    requires
        0 <= t < ps.len(),
        !pred(ps[t]),
        forall|i: int| 0 <= i < ps.len() && i != t ==> pred(#[trigger] ps[i]),
    ensures
        ps.filter(pred) == ps.remove(t),
    decreases ps.len(),
{
    reveal(Seq::filter);
    let init = ps.drop_last();
    if t == ps.len() - 1 {
        lemma_filter_all_kept(init, pred);
        assert(ps.filter(pred) =~= ps.remove(t));
    } else {
        lemma_remove_match_is_filter(init, pred, t);
        assert(ps.filter(pred) =~= init.remove(t).push(ps.last()));
        assert(init.remove(t).push(ps.last()) =~= ps.remove(t));
    }
}


/// The velocity one movement step gives a player: steered toward the held
/// direction's target velocity by at most the acceleration step, or slowed
/// by friction toward rest when no direction is held. The target always
/// lies inside the speed cap; where the integer rounding of a steering
/// step would land outside it, the step snaps to the target instead, so the
/// Euclidean speed never exceeds the cap.
pub open spec fn spec_new_velocity(p: Player) -> (int, int) {
    match p.move_dir {
        Option::Some(d) => {
            let tvx = d.0 * 45;
            let tvy = d.1 * 45;
            let ddx = tvx - p.vx;
            let ddy = tvy - p.vy;
            let dist = spec_isqrt(ddx * ddx + ddy * ddy);
            if dist > ACCEL_STEP_MILLI {
                let cx = p.vx + spec_tdiv(ddx * ACCEL_STEP_MILLI, dist);
                let cy = p.vy + spec_tdiv(ddy * ACCEL_STEP_MILLI, dist);
                if cx * cx + cy * cy > SPEED_CAP_SQ {
                    (tvx as int, tvy as int)
                } else {
                    (cx, cy)
                }
            } else {
                (tvx as int, tvy as int)
            }
        },
        Option::None => {
            let speed = spec_isqrt(p.vx * p.vx + p.vy * p.vy);
            if speed > FRICTION_DROP_MILLI {
                (
                    p.vx - spec_tdiv(p.vx * FRICTION_DROP_MILLI, speed),
                    p.vy - spec_tdiv(p.vy * FRICTION_DROP_MILLI, speed),
                )
            } else {
                (0, 0)
            }
        },
    }
}

/// One movement step: the new velocity applied over the tick period, the
/// position confined to the map.
pub open spec fn spec_move_step(p: Player) -> Player {
    let v = spec_new_velocity(p);
    Player {
        x: spec_clamp(
            p.x + spec_tdiv(v.0 * (DT_NUM as int), DT_DEN as int),
            0,
            MAP_MAX_MILLI as int,
        ) as i64,
        y: spec_clamp(
            p.y + spec_tdiv(v.1 * (DT_NUM as int), DT_DEN as int),
            0,
            MAP_MAX_MILLI as int,
        ) as i64,
        vx: v.0 as i64,
        vy: v.1 as i64,
        ..p
    }
}

/// The whole set after one movement step each.
pub open spec fn spec_move_all(ps: Seq<Player>) -> Seq<Player> {
    ps.map_values(|p: Player| spec_move_step(p))
}

/// A step's velocity stays within top speed: the target velocity of an
/// in-disc direction lies inside the cap, a steering step either stays
/// inside the cap or snaps to the target, and friction only shrinks each
/// component. Both the per-component and the Euclidean bounds hold.
pub proof fn lemma_new_velocity_bounds(p: Player)
    requires
        p.wf(),
    ensures
        -MAX_SPEED_MILLI <= spec_new_velocity(p).0 <= MAX_SPEED_MILLI,
        -MAX_SPEED_MILLI <= spec_new_velocity(p).1 <= MAX_SPEED_MILLI,
        spec_new_velocity(p).0 * spec_new_velocity(p).0 + spec_new_velocity(p).1
            * spec_new_velocity(p).1 <= SPEED_CAP_SQ,
{
    match p.move_dir {
        Option::Some(d) => {
            let tvx = d.0 * 45;
            let tvy = d.1 * 45;
            assert(-MAX_SPEED_MILLI <= tvx <= MAX_SPEED_MILLI && -MAX_SPEED_MILLI <= tvy
                <= MAX_SPEED_MILLI && tvx * tvx + tvy * tvy <= SPEED_CAP_SQ) by (nonlinear_arith)
                requires
                    -1000 <= d.0 <= 1000 && -1000 <= d.1 <= 1000 && d.0 * d.0 + d.1 * d.1
                        <= 1_000_000 && tvx == d.0 * 45 && tvy == d.1 * 45 && SPEED_CAP_SQ
                        == 2_025_000_000 && MAX_SPEED_MILLI == 45_000,
            ;
            let ddx = tvx - p.vx;
            let ddy = tvy - p.vy;
            let d2 = ddx * ddx + ddy * ddy;
            assert(ddx * ddx >= 0 && ddy * ddy >= 0) by (nonlinear_arith);
            let dist = spec_isqrt(d2);
            crate::collision::lemma_isqrt_props(d2);
            if dist > ACCEL_STEP_MILLI {
                crate::collision::lemma_component_le_isqrt(ddx, ddy);
                crate::collision::lemma_component_le_isqrt(ddy, ddx);
                assert(ddy * ddy + ddx * ddx == d2);
                lemma_step_within(p.vx as int, tvx as int, ddx, dist);
                lemma_step_within(p.vy as int, tvy as int, ddy, dist);
            }
        },
        Option::None => {
            let d2 = p.vx * p.vx + p.vy * p.vy;
            assert(p.vx * p.vx >= 0 && p.vy * p.vy >= 0) by (nonlinear_arith);
            let speed = spec_isqrt(d2);
            crate::collision::lemma_isqrt_props(d2);
            if speed > FRICTION_DROP_MILLI {
                crate::collision::lemma_component_le_isqrt(p.vx as int, p.vy as int);
                crate::collision::lemma_component_le_isqrt(p.vy as int, p.vx as int);
                assert(p.vy * p.vy + p.vx * p.vx == d2);
                lemma_drop_within(p.vx as int, speed);
                lemma_drop_within(p.vy as int, speed);
                let nvx = p.vx - spec_tdiv(p.vx * FRICTION_DROP_MILLI, speed);
                let nvy = p.vy - spec_tdiv(p.vy * FRICTION_DROP_MILLI, speed);
                assert(nvx * nvx <= p.vx * p.vx && nvy * nvy <= p.vy * p.vy)
                    by (nonlinear_arith)
                    requires
                        (p.vx >= 0 ==> 0 <= nvx <= p.vx) && (p.vx <= 0 ==> p.vx <= nvx <= 0) && (
                        p.vy >= 0 ==> 0 <= nvy <= p.vy) && (p.vy <= 0 ==> p.vy <= nvy <= 0),
                ;
            }
        },
    }
}

/// Steering a component by its share of the acceleration step keeps it
/// between its old value and its target.
proof fn lemma_step_within(v: int, tv: int, dd: int, dist: int)
    requires
        dd == tv - v,
        dist > ACCEL_STEP_MILLI,
        -dist <= dd <= dist,
    ensures
        v <= v + spec_tdiv(dd * ACCEL_STEP_MILLI, dist) <= tv || tv <= v + spec_tdiv(
            dd * ACCEL_STEP_MILLI,
            dist,
        ) <= v,
{
    crate::mathx::lemma_tdiv_sign(dd * ACCEL_STEP_MILLI, dist);
    if dd >= 0 {
        assert(dd * ACCEL_STEP_MILLI >= 0 && -(dist * dd) <= dd * ACCEL_STEP_MILLI <= dist * dd)
            by (nonlinear_arith)
            requires
                dd >= 0 && 0 < ACCEL_STEP_MILLI <= dist,
        ;
        crate::mathx::lemma_tdiv_bound(dd * ACCEL_STEP_MILLI, dist, dd);
    } else {
        assert(dd * ACCEL_STEP_MILLI <= 0 && -(dist * (-dd)) <= dd * ACCEL_STEP_MILLI <= dist * (
        -dd)) by (nonlinear_arith)
            requires
                dd < 0 && 0 < ACCEL_STEP_MILLI <= dist,
        ;
        crate::mathx::lemma_tdiv_bound(dd * ACCEL_STEP_MILLI, dist, -dd);
    }
}

/// Removing the friction share of a component keeps it between zero and its
/// old value.
proof fn lemma_drop_within(v: int, speed: int)
    requires
        speed > FRICTION_DROP_MILLI,
        -speed <= v <= speed,
    ensures
        v >= 0 ==> 0 <= v - spec_tdiv(v * FRICTION_DROP_MILLI, speed) <= v,
        v <= 0 ==> v <= v - spec_tdiv(v * FRICTION_DROP_MILLI, speed) <= 0,
{
    crate::mathx::lemma_tdiv_sign(v * FRICTION_DROP_MILLI, speed);
    if v >= 0 {
        assert(v * FRICTION_DROP_MILLI >= 0 && -(speed * v) <= v * FRICTION_DROP_MILLI <= speed
            * v) by (nonlinear_arith)
            requires
                v >= 0 && 0 < FRICTION_DROP_MILLI <= speed,
        ;
        crate::mathx::lemma_tdiv_bound(v * FRICTION_DROP_MILLI, speed, v);
    } else {
        assert(v * FRICTION_DROP_MILLI <= 0 && -(speed * (-v)) <= v * FRICTION_DROP_MILLI <= speed
            * (-v)) by (nonlinear_arith)
            requires
                v < 0 && 0 < FRICTION_DROP_MILLI <= speed,
        ;
        crate::mathx::lemma_tdiv_bound(v * FRICTION_DROP_MILLI, speed, -v);
    }
}

/// Advances every player by one movement step: the held direction steers
/// the velocity, friction slows an uncontrolled player, and the position
/// integrates the new velocity over the tick period, confined to the map.
/// Movement changes position and velocity alone.
pub fn movement_system(players: &mut Vec<Player>)
    requires
        spec_players_wf(old(players)@),
    ensures
        final(players)@.len() == old(players)@.len(),
        forall|k: int|
            0 <= k < old(players)@.len() ==> final(players)@[k] == spec_move_step(
                #[trigger] old(players)@[k],
            ),
        spec_players_wf(final(players)@),
{
    let n = players.len();
    let mut i: usize = 0;
    while i < n
        invariant
            i <= n,
            n == players@.len() == old(players)@.len(),
            spec_players_wf(old(players)@),
            forall|k: int|
                0 <= k < i ==> players@[k] == spec_move_step(#[trigger] old(players)@[k]),
            forall|k: int| i <= k < n ==> players@[k] == old(players)@[k],
            forall|k: int| 0 <= k < i ==> (#[trigger] players@[k]).wf(),
        decreases n - i,
    {
        proof {
            assert(old(players)@[i as int].wf());
        }
        let vx0 = players[i].vx;
        let vy0 = players[i].vy;
        let dir = players[i].move_dir;
        let (nvx, nvy): (i64, i64) = match dir {
            Option::Some(d) => {
                let tvx = d.0 * 45;
                let tvy = d.1 * 45;
                proof {
                    assert(-MAX_SPEED_MILLI <= tvx <= MAX_SPEED_MILLI && -MAX_SPEED_MILLI <= tvy
                        <= MAX_SPEED_MILLI) by (nonlinear_arith)
                        requires
                            -1000 <= d.0 <= 1000 && -1000 <= d.1 <= 1000 && tvx == d.0 * 45 && tvy
                                == d.1 * 45,
                    ;
                }
                let ddx = tvx - vx0;
                let ddy = tvy - vy0;
                proof {
                    assert(0 <= ddx * ddx <= 90_000i64 * 90_000i64 && 0 <= ddy * ddy <= 90_000i64
                        * 90_000i64) by (nonlinear_arith)
                        requires
                            -90_000 <= ddx <= 90_000 && -90_000 <= ddy <= 90_000,
                    ;
                }
                let d2 = ddx * ddx + ddy * ddy;
                let dist = isqrt(d2);
                proof {
                    crate::mathx::lemma_isqrt_is(d2 as int, dist as int);
                    crate::collision::lemma_component_le_isqrt(ddx as int, ddy as int);
                    crate::collision::lemma_component_le_isqrt(ddy as int, ddx as int);
                    assert(ddy as int * ddy as int + ddx as int * ddx as int == d2 as int);
                }
                if dist > ACCEL_STEP_MILLI {
                    proof {
                        assert(-(dist * 90_000) <= ddx * ACCEL_STEP_MILLI <= dist * 90_000 && -(
                        dist * 90_000) <= ddy * ACCEL_STEP_MILLI <= dist * 90_000)
                            by (nonlinear_arith)
                            requires
                                -dist <= ddx <= dist && -dist <= ddy <= dist && 0
                                    < ACCEL_STEP_MILLI <= 90_000 && dist >= 0,
                        ;
                        crate::mathx::lemma_tdiv_bound(
                            (ddx * ACCEL_STEP_MILLI) as int,
                            dist as int,
                            90_000,
                        );
                        crate::mathx::lemma_tdiv_bound(
                            (ddy * ACCEL_STEP_MILLI) as int,
                            dist as int,
                            90_000,
                        );
                        lemma_step_within(vx0 as int, tvx as int, ddx as int, dist as int);
                        lemma_step_within(vy0 as int, tvy as int, ddy as int, dist as int);
                    }
                    let sx = div_trunc(ddx * ACCEL_STEP_MILLI, dist);
                    let sy = div_trunc(ddy * ACCEL_STEP_MILLI, dist);
                    let cx = vx0 + sx;
                    let cy = vy0 + sy;
                    proof {
                        assert(0 <= cx * cx <= 135_000i64 * 135_000i64 && 0 <= cy * cy
                            <= 135_000i64 * 135_000i64) by (nonlinear_arith)
                            requires
                                -135_000 <= cx <= 135_000 && -135_000 <= cy <= 135_000,
                        ;
                    }
                    if cx * cx + cy * cy > SPEED_CAP_SQ {
                        (tvx, tvy)
                    } else {
                        (cx, cy)
                    }
                } else {
                    (tvx, tvy)
                }
            },
            Option::None => {
                proof {
                    assert(0 <= vx0 * vx0 <= 45_000i64 * 45_000i64 && 0 <= vy0 * vy0 <= 45_000i64
                        * 45_000i64) by (nonlinear_arith)
                        requires
                            -45_000 <= vx0 <= 45_000 && -45_000 <= vy0 <= 45_000,
                    ;
                }
                let d2 = vx0 * vx0 + vy0 * vy0;
                let speed = isqrt(d2);
                proof {
                    crate::mathx::lemma_isqrt_is(d2 as int, speed as int);
                    crate::collision::lemma_component_le_isqrt(vx0 as int, vy0 as int);
                    crate::collision::lemma_component_le_isqrt(vy0 as int, vx0 as int);
                    assert(vy0 as int * vy0 as int + vx0 as int * vx0 as int == d2 as int);
                }
                if speed > FRICTION_DROP_MILLI {
                    proof {
                        assert(-(speed * 45_000) <= vx0 * FRICTION_DROP_MILLI <= speed * 45_000
                            && -(speed * 45_000) <= vy0 * FRICTION_DROP_MILLI <= speed * 45_000)
                            by (nonlinear_arith)
                            requires
                                -speed <= vx0 <= speed && -speed <= vy0 <= speed && 0
                                    < FRICTION_DROP_MILLI <= 45_000 && speed >= 0,
                        ;
                        crate::mathx::lemma_tdiv_bound(
                            (vx0 * FRICTION_DROP_MILLI) as int,
                            speed as int,
                            45_000,
                        );
                        crate::mathx::lemma_tdiv_bound(
                            (vy0 * FRICTION_DROP_MILLI) as int,
                            speed as int,
                            45_000,
                        );
                        lemma_drop_within(vx0 as int, speed as int);
                        lemma_drop_within(vy0 as int, speed as int);
                    }
                    let sx = div_trunc(vx0 * FRICTION_DROP_MILLI, speed);
                    let sy = div_trunc(vy0 * FRICTION_DROP_MILLI, speed);
                    (vx0 - sx, vy0 - sy)
                } else {
                    (0, 0)
                }
            },
        };
        proof {
            lemma_new_velocity_bounds(old(players)@[i as int]);
            assert((nvx as int, nvy as int) == spec_new_velocity(old(players)@[i as int]));
        }
        let stepx = div_trunc(nvx * DT_NUM, DT_DEN);
        let stepy = div_trunc(nvy * DT_NUM, DT_DEN);
        proof {
            assert(-(100i64 * 45_000) <= nvx * DT_NUM <= 100i64 * 45_000 && -(100i64 * 45_000)
                <= nvy * DT_NUM <= 100i64 * 45_000) by (nonlinear_arith)
                requires
                    -45_000 <= nvx <= 45_000 && -45_000 <= nvy <= 45_000 && DT_NUM == 45,
            ;
            crate::mathx::lemma_tdiv_bound((nvx * DT_NUM) as int, DT_DEN as int, 45_000);
            crate::mathx::lemma_tdiv_bound((nvy * DT_NUM) as int, DT_DEN as int, 45_000);
        }
        let x0 = players[i].x;
        let y0 = players[i].y;
        let nx = clamp_i64(x0 + stepx, 0, MAP_MAX_MILLI);
        let ny = clamp_i64(y0 + stepy, 0, MAP_MAX_MILLI);
        let p = &mut players[i];
        p.x = nx;
        p.y = ny;
        p.vx = nvx;
        p.vy = nvy;
        proof {
            assert(players@[i as int] == spec_move_step(old(players)@[i as int]));
            assert(players@[i as int].wf());
        }
        i = i + 1;
    }
    proof {
        assert forall|a: int, b: int|
            0 <= a < b < players@.len() implies players@[a].id != players@[b].id by {
            assert(players@[a].id == old(players)@[a].id && players@[b].id == old(
                players,
            )@[b].id);
        }
    }
}

/// Under a held due-east unit direction, a player at rest vertically and
/// not moving backwards advances strictly in x every movement step until
/// the map's eastern edge, and keeps a positive eastward velocity.
pub proof fn lemma_held_direction_advances(p: Player)
    requires
        p.wf(),
        p.move_dir == Some((1000i64, 0i64)),
        p.vx >= 0,
        p.vy == 0,
        0 <= p.x < MAP_MAX_MILLI,
    ensures
        spec_move_step(p).x > p.x,
        spec_move_step(p).vx == MAX_SPEED_MILLI,
        spec_move_step(p).vy == 0,
{
    let d = (1000i64, 0i64);
    let tvx = 1000 * 45;
    let ddx = tvx - p.vx;
    let d2 = ddx * ddx;
    assert(0 <= ddx <= 45_000);
    assert(spec_isqrt(d2) == ddx) by {
        assert(ddx * ddx <= d2 < (ddx + 1) * (ddx + 1)) by (nonlinear_arith)
            requires
                d2 == ddx * ddx && ddx >= 0,
        ;
        crate::mathx::lemma_isqrt_is(d2, ddx as int);
    }
    assert(spec_new_velocity(p) == (45_000int, 0int));
    assert(spec_tdiv(45_000int * 45, 100) == 20_250);
    assert(spec_move_step(p).x == spec_clamp(p.x + 20_250, 0, MAP_MAX_MILLI as int));
}


/// Field-wise sameness of two players, with names compared by content.
pub open spec fn spec_player_like(a: Player, b: Player) -> bool {
    &&& a.id == b.id
    &&& a.name@ == b.name@
    &&& a.x == b.x
    &&& a.y == b.y
    &&& a.vx == b.vx
    &&& a.vy == b.vy
    &&& a.move_dir == b.move_dir
    &&& a.attacked == b.attacked
    &&& a.weapon_index == b.weapon_index
}

/// Every queued intent is applied in arrival order, before any system runs;
/// the returned list holds one copy of each player the queue created, in
/// creation order.
pub fn apply_intents(world: &mut GameWorld, intents: Vec<(u8, InternalGameMessages)>) -> (spawned:
    Vec<Player>)
    requires
        old(world).wf(),
        old(world).players@.len() + intents@.len() < usize::MAX,
        forall|k: int| 0 <= k < intents@.len() ==> spec_msg_wf((#[trigger] intents@[k]).1),
    ensures
        final(world).wf(),
        final(world).players@ == spec_apply_all(
            old(world).players@,
            intents@,
            intents@.len() as int,
        ),
        final(world).players@.len() <= old(world).players@.len() + intents@.len(),
        spawned@.len() == spec_spawned(old(world).players@, intents@, intents@.len() as int).len(),
        forall|k: int|
            0 <= k < spawned@.len() ==> spec_player_like(
                #[trigger] spawned@[k],
                spec_spawned(old(world).players@, intents@, intents@.len() as int)[k],
            ),
{
    let ghost intents0 = intents@;
    let mut intents = intents;
    let mut spawned: Vec<Player> = Vec::new();
    let n = intents.len();
    let mut i: usize = 0;
    while i < n
        invariant
            i <= n,
            n == intents0.len(),
            intents@ == intents0.subrange(i as int, n as int),
            forall|k: int| 0 <= k < intents0.len() ==> spec_msg_wf((#[trigger] intents0[k]).1),
            world.wf(),
            world.players@ == spec_apply_all(old(world).players@, intents0, i as int),
            world.players@.len() <= old(world).players@.len() + i,
            old(world).players@.len() + n < usize::MAX,
            spawned@.len() == spec_spawned(old(world).players@, intents0, i as int).len(),
            forall|k: int|
                0 <= k < spawned@.len() ==> spec_player_like(
                    #[trigger] spawned@[k],
                    spec_spawned(old(world).players@, intents0, i as int)[k],
                ),
        decreases n - i,
    {
        let (id, msg) = intents.remove(0);
        proof {
            assert((id, msg) == intents0[i as int]);
            assert(intents@ =~= intents0.subrange(i + 1, n as int));
        }
        let created = apply_intent(world, id, msg);
        if created {
            let tail = world.players.len() - 1;
            let p = &world.players[tail];
            let copied = Player {
                id: p.id,
                name: crate::codec::read_exact(&p.name, 0, p.name.len()),
                x: p.x,
                y: p.y,
                vx: p.vx,
                vy: p.vy,
                move_dir: p.move_dir,
                attacked: p.attacked,
                weapon_index: p.weapon_index,
            };
            spawned.push(copied);
        }
        proof {
            let ghost sp_next = spec_spawned(old(world).players@, intents0, i + 1);
            let ghost sp_prev = spec_spawned(old(world).players@, intents0, i as int);
            if created {
                let last = world.players@[world.players@.len() - 1];
                assert(last == spec_spawn_player(id, intents0[i as int].1->AddPlayer_name));
                assert(spawned@[spawned@.len() - 1].name@ =~= last.name@);
                assert(sp_next =~= sp_prev.push(
                    spec_spawn_player(id, intents0[i as int].1->AddPlayer_name),
                ));
                assert(spec_player_like(
                    spawned@[spawned@.len() - 1],
                    sp_next[sp_next.len() - 1],
                ));
            } else {
                assert(sp_next =~= sp_prev);
            }
        }
        i = i + 1;
    }
    spawned
}

/// Where one outbound message goes.
#[derive(Clone, Copy, Debug, PartialEq, Eq, Structural)]
pub enum Target {
    /// One connection, by player id.
    One(u8),
    /// Every connection but one.
    AllExcept(u8),
    /// Every connection.
    All,
}

/// One message for the registry to deliver.
pub struct OutboundMsg {
    pub to: Target,
    pub bytes: Vec<u8>,
}

/// The add-player payload announcing a spawned player.
pub open spec fn spec_add_player_bytes(p: Player, is_mine: bool) -> Seq<u8> {
    spec_bool_byte(is_mine) + crate::wire::spec_player_bytes(
        p.id,
        p.name@,
        p.x as i32,
        p.y as i32,
        p.weapon_index,
    )
}

/// The snapshot records of a player set, each with its position in wire
/// scale.
pub open spec fn spec_snapshot_records(ps: Seq<Player>) -> Seq<u8>
    decreases ps.len(),
{
    if ps.len() == 0 {
        Seq::empty()
    } else {
        crate::wire::spec_player_bytes(
            ps[0].id,
            ps[0].name@,
            ps[0].x as i32,
            ps[0].y as i32,
            ps[0].weapon_index,
        ) + spec_snapshot_records(ps.drop_first())
    }
}

/// The full snapshot payload: the count, then every record in order.
pub open spec fn spec_snapshot_bytes(ps: Seq<Player>) -> Seq<u8> {
    spec_u32_le(ps.len() as u32) + spec_snapshot_records(ps)
}

/// Record lists with pointwise-equal record bytes serialize identically.
proof fn lemma_records_congruent(tos: Seq<PlayerTO>, ps: Seq<Player>)
    requires
        tos.len() == ps.len(),
        forall|k: int|
            0 <= k < ps.len() ==> (#[trigger] tos[k]).spec_bytes() == crate::wire::spec_player_bytes(
                ps[k].id,
                ps[k].name@,
                ps[k].x as i32,
                ps[k].y as i32,
                ps[k].weapon_index,
            ),
    ensures
        spec_players_bytes(tos) == spec_snapshot_records(ps),
    decreases ps.len(),
{
    if ps.len() > 0 {
        lemma_records_congruent(tos.drop_first(), ps.drop_first());
        assert forall|k: int| 0 <= k < ps.drop_first().len() implies (
        #[trigger] tos.drop_first()[k]).spec_bytes() == crate::wire::spec_player_bytes(
            ps.drop_first()[k].id,
            ps.drop_first()[k].name@,
            ps.drop_first()[k].x as i32,
            ps.drop_first()[k].y as i32,
            ps.drop_first()[k].weapon_index,
        ) by {
            assert(tos.drop_first()[k] == tos[k + 1]);
        }
    }
}

/// Builds one player's wire record, copying its name bytes.
fn to_record(p: &Player) -> (r: PlayerTO)
    requires
        p.wf(),
    ensures
        r.wf(),
        r.spec_bytes() == crate::wire::spec_player_bytes(
            p.id,
            p.name@,
            p.x as i32,
            p.y as i32,
            p.weapon_index,
        ),
{
    let r = PlayerTO {
        id: p.id,
        name: crate::codec::read_exact(&p.name, 0, p.name.len()),
        x_milli: p.x as i32,
        y_milli: p.y as i32,
        weapon_index: p.weapon_index,
    };
    proof {
        assert(r.name@ =~= p.name@);
    }
    r
}

/// Serializes the tick's full player-state snapshot as one broadcast frame.
pub fn snapshot_players(players: &Vec<Player>) -> (msg: OutboundMsg)
    requires
        spec_players_wf(players@),
        players@.len() <= u32::MAX,
    ensures
        msg.to == Target::All,
        msg.bytes@ == spec_frame_bytes(3, spec_snapshot_bytes(players@)),
{
    let n = players.len();
    let mut tos: Vec<PlayerTO> = Vec::new();
    let mut i: usize = 0;
    while i < n
        invariant
            i <= n,
            n == players@.len(),
            spec_players_wf(players@),
            tos@.len() == i,
            forall|k: int|
                0 <= k < i ==> (#[trigger] tos@[k]).wf() && tos@[k].spec_bytes()
                    == crate::wire::spec_player_bytes(
                    players@[k].id,
                    players@[k].name@,
                    players@[k].x as i32,
                    players@[k].y as i32,
                    players@[k].weapon_index,
                ),
        decreases n - i,
    {
        proof {
            assert(players@[i as int].wf());
        }
        let r = to_record(&players[i]);
        tos.push(r);
        i = i + 1;
    }
    let update = UpdatePlayerData { players: tos };
    let payload = update.encode();
    proof {
        lemma_records_congruent(update.players@, players@);
    }
    let bytes = encode_frame(3, &payload);
    OutboundMsg { to: Target::All, bytes }
}

/// Builds the spawn notifications of the tick's newly created players, in
/// creation order: for each, first the creating connection's own notice
/// (marked as its own player), then the notice broadcast to everyone else.
pub fn spawn_notifications(spawned: &Vec<Player>) -> (msgs: Vec<OutboundMsg>)
    requires
        forall|k: int| 0 <= k < spawned@.len() ==> (#[trigger] spawned@[k]).wf(),
    ensures
        msgs@.len() == 2 * spawned@.len(),
        forall|k: int|
            0 <= k < spawned@.len() ==> {
                &&& (#[trigger] msgs@[2 * k]).to == Target::One(spawned@[k].id)
                &&& msgs@[2 * k].bytes@ == spec_frame_bytes(
                    1,
                    spec_add_player_bytes(spawned@[k], true),
                )
                &&& msgs@[2 * k + 1].to == Target::AllExcept(spawned@[k].id)
                &&& msgs@[2 * k + 1].bytes@ == spec_frame_bytes(
                    1,
                    spec_add_player_bytes(spawned@[k], false),
                )
            },
{
    let n = spawned.len();
    let mut msgs: Vec<OutboundMsg> = Vec::new();
    let mut i: usize = 0;
    while i < n
        invariant
            i <= n,
            n == spawned@.len(),
            forall|k: int| 0 <= k < spawned@.len() ==> (#[trigger] spawned@[k]).wf(),
            msgs@.len() == 2 * i,
            forall|k: int|
                0 <= k < i ==> {
                    &&& (#[trigger] msgs@[2 * k]).to == Target::One(spawned@[k].id)
                    &&& msgs@[2 * k].bytes@ == spec_frame_bytes(
                        1,
                        spec_add_player_bytes(spawned@[k], true),
                    )
                    &&& msgs@[2 * k + 1].to == Target::AllExcept(spawned@[k].id)
                    &&& msgs@[2 * k + 1].bytes@ == spec_frame_bytes(
                        1,
                        spec_add_player_bytes(spawned@[k], false),
                    )
                },
        decreases n - i,
    {
        proof {
            assert(spawned@[i as int].wf());
        }
        let p = &spawned[i];
        let id = p.id;
        let mine = AddPlayerData { is_mine: true, data: to_record(p) };
        let mine_payload = mine.encode();
        let mine_bytes = encode_frame(1, &mine_payload);
        msgs.push(OutboundMsg { to: Target::One(id), bytes: mine_bytes });
        let others = AddPlayerData { is_mine: false, data: to_record(p) };
        let others_payload = others.encode();
        let others_bytes = encode_frame(1, &others_payload);
        msgs.push(OutboundMsg { to: Target::AllExcept(id), bytes: others_bytes });
        i = i + 1;
    }
    msgs
}

/// Collects the ids of every player whose attack flag is raised; deciding
/// what an attack hits is left to a later system.
pub fn attack_system(players: &Vec<Player>) -> (attackers: Vec<u8>)
    ensures
        attackers@ == players@.filter(|p: Player| p.attacked).map_values(|p: Player| p.id),
{
    let ghost pred = |p: Player| p.attacked;
    let n = players.len();
    let mut attackers: Vec<u8> = Vec::new();
    let mut i: usize = 0;
    while i < n
        invariant
            i <= n,
            n == players@.len(),
            pred == (|p: Player| p.attacked),
            attackers@ == players@.subrange(0, i as int).filter(pred).map_values(
                |p: Player| p.id,
            ),
        decreases n - i,
    {
        proof {
            reveal(Seq::filter);
            assert(players@.subrange(0, i + 1).drop_last() =~= players@.subrange(0, i as int));
        }
        if players[i].attacked {
            attackers.push(players[i].id);
        }
        proof {
            assert(attackers@ =~= players@.subrange(0, i + 1).filter(pred).map_values(
                |p: Player| p.id,
            ));
        }
        i = i + 1;
    }
    proof {
        assert(players@.subrange(0, n as int) =~= players@);
    }
    attackers
}

/// The collision body of one player.
pub open spec fn spec_body_of(p: Player) -> Body {
    Body { x: p.x, y: p.y, radius: PLAYER_RADIUS_MILLI }
}

/// The bodies the collision pass sees: every player as a circle of the
/// player radius.
pub open spec fn spec_bodies(ps: Seq<Player>) -> Seq<Body> {
    ps.map_values(|p: Player| spec_body_of(p))
}

/// The player set after the collision pass wrote the resolved positions
/// back; nothing but positions changes.
pub open spec fn spec_collide_all(ps: Seq<Player>, obs: Seq<Obstacle>) -> Seq<Player> {
    Seq::new(
        ps.len(),
        |k: int|
            Player {
                x: spec_resolved(spec_bodies(ps), obs, k).x,
                y: spec_resolved(spec_bodies(ps), obs, k).y,
                ..ps[k]
            },
    )
}

/// Runs the collision engine over the players and writes the resolved
/// positions back.
pub fn run_collision(players: &mut Vec<Player>, obstacles: &Vec<Obstacle>)
    requires
        spec_players_wf(old(players)@),
        old(players)@.len() <= REACT_LIMIT,
        forall|t: int| 0 <= t < obstacles@.len() ==> (#[trigger] obstacles@[t]).wf(),
        forall|t: int|
            0 <= t < old(players)@.len() ==> 0 <= (#[trigger] old(players)@[t]).x
                <= MAP_MAX_MILLI && 0 <= old(players)@[t].y <= MAP_MAX_MILLI,
    ensures
        final(players)@ == spec_collide_all(old(players)@, obstacles@),
        spec_players_wf(final(players)@),
{
    let n = players.len();
    let mut bodies: Vec<Body> = Vec::new();
    let mut i: usize = 0;
    while i < n
        invariant
            i <= n,
            n == players@.len(),
            players@ == old(players)@,
            spec_players_wf(players@),
            forall|t: int|
                0 <= t < n ==> 0 <= (#[trigger] players@[t]).x <= MAP_MAX_MILLI && 0
                    <= players@[t].y <= MAP_MAX_MILLI,
            bodies@.len() == i,
            forall|k: int| 0 <= k < i ==> #[trigger] bodies@[k] == spec_body_of(players@[k]),
        decreases n - i,
    {
        let p = &players[i];
        bodies.push(Body { x: p.x, y: p.y, radius: PLAYER_RADIUS_MILLI });
        i = i + 1;
    }
    proof {
        assert(bodies@ =~= spec_bodies(players@));
        assert forall|t: int| 0 <= t < bodies@.len() implies (#[trigger] bodies@[t]).wf() by {
            assert(players@[t].x == bodies@[t].x && players@[t].y == bodies@[t].y);
        }
    }
    let resolved = collision_resolution_system(&bodies, obstacles);
    proof {
        assert forall|t: int|
            0 <= t < n implies (#[trigger] resolved@[t]).radius == bodies@[t].radius
            && crate::collision::spec_body_in_clamp(resolved@[t]) by {
            crate::collision::lemma_resolved_props(bodies@, obstacles@, t);
        }
    }
    let mut k: usize = 0;
    while k < n
        invariant
            k <= n,
            n == players@.len() == old(players)@.len(),
            bodies@ == spec_bodies(old(players)@),
            resolved@.len() == n,
            forall|t: int|
                0 <= t < n ==> #[trigger] resolved@[t] == spec_resolved(bodies@, obstacles@, t),
            forall|t: int|
                0 <= t < n ==> (#[trigger] resolved@[t]).radius == bodies@[t].radius
                    && crate::collision::spec_body_in_clamp(resolved@[t]),
            spec_players_wf(old(players)@),
            forall|t: int|
                0 <= t < k ==> #[trigger] players@[t] == spec_collide_all(
                    old(players)@,
                    obstacles@,
                )[t],
            forall|t: int| k <= t < n ==> #[trigger] players@[t] == old(players)@[t],
        decreases n - k,
    {
        let b = resolved[k];
        let p = &mut players[k];
        p.x = b.x;
        p.y = b.y;
        proof {
            assert(players@[k as int] == spec_collide_all(old(players)@, obstacles@)[k as int]);
        }
        k = k + 1;
    }
    proof {
        assert(players@ =~= spec_collide_all(old(players)@, obstacles@));
        assert forall|a: int, b: int|
            0 <= a < b < players@.len() implies players@[a].id != players@[b].id by {
            assert(players@[a].id == old(players)@[a].id && players@[b].id == old(
                players,
            )@[b].id);
        }
        assert forall|a: int| 0 <= a < players@.len() implies (#[trigger] players@[a]).wf() by {
            assert(old(players)@[a].wf());
        }
    }
}

/// One authoritative tick. All drained intents are applied in arrival order
/// first; then the movement system advances every player; then the
/// collision engine resolves overlaps against the players and the static
/// obstacles; finally the messages to send are returned: the spawn
/// notification pair of every player the intents created, followed by one
/// snapshot broadcast of the finished state.
#[verifier::rlimit(50)]
pub fn run_tick(
    world: &mut GameWorld,
    intents: Vec<(u8, InternalGameMessages)>,
    obstacles: &Vec<Obstacle>,
) -> (msgs: Vec<OutboundMsg>)
    requires
        old(world).wf(),
        old(world).players@.len() + intents@.len() <= REACT_LIMIT,
        forall|k: int| 0 <= k < intents@.len() ==> spec_msg_wf((#[trigger] intents@[k]).1),
        forall|t: int| 0 <= t < obstacles@.len() ==> (#[trigger] obstacles@[t]).wf(),
    ensures
        final(world).wf(),
        final(world).players@ == spec_collide_all(
            spec_move_all(
                spec_apply_all(old(world).players@, intents@, intents@.len() as int),
            ),
            obstacles@,
        ),
        msgs@.len() == 2 * spec_spawned(
            old(world).players@,
            intents@,
            intents@.len() as int,
        ).len() + 1,
        forall|k: int|
            0 <= k < spec_spawned(old(world).players@, intents@, intents@.len() as int).len()
                ==> {
                let sp = spec_spawned(old(world).players@, intents@, intents@.len() as int)[k];
                &&& (#[trigger] msgs@[2 * k]).to == Target::One(sp.id)
                &&& msgs@[2 * k].bytes@ == spec_frame_bytes(1, spec_add_player_bytes(sp, true))
                &&& msgs@[2 * k + 1].to == Target::AllExcept(sp.id)
                &&& msgs@[2 * k + 1].bytes@ == spec_frame_bytes(
                    1,
                    spec_add_player_bytes(sp, false),
                )
            },
        msgs@[msgs@.len() - 1].to == Target::All,
        msgs@[msgs@.len() - 1].bytes@ == spec_frame_bytes(
            3,
            spec_snapshot_bytes(final(world).players@),
        ),
{
    let ghost ps0 = world.players@;
    let ghost intents0 = intents@;
    let spawned = apply_intents(world, intents);
    movement_system(&mut world.players);
    proof {
        assert forall|t: int|
            0 <= t < world.players@.len() implies 0 <= (#[trigger] world.players@[t]).x
            <= MAP_MAX_MILLI && 0 <= world.players@[t].y <= MAP_MAX_MILLI by {
            let before = spec_apply_all(ps0, intents0, intents0.len() as int)[t];
            assert(world.players@[t] == spec_move_step(before));
        }
    }
    proof {
        assert(world.players@ =~= spec_move_all(
            spec_apply_all(ps0, intents0, intents0.len() as int),
        ));
    }
    run_collision(&mut world.players, obstacles);
    proof {
        let sp = spec_spawned(ps0, intents0, intents0.len() as int);
        assert forall|k: int| 0 <= k < spawned@.len() implies (#[trigger] spawned@[k]).wf() by {
            lemma_spawned_wf(ps0, intents0, intents0.len() as int, k);
            assert(spec_player_like(spawned@[k], sp[k]));
        }
        assert forall|k: int| 0 <= k < sp.len() implies spec_add_player_bytes(spawned@[k], true)
            == spec_add_player_bytes(sp[k], true) && spec_add_player_bytes(spawned@[k], false)
            == spec_add_player_bytes(sp[k], false) && (#[trigger] sp[k]).id
            == spawned@[k].id by {
            assert(spec_player_like(spawned@[k], sp[k]));
        }
    }
    let mut msgs = spawn_notifications(&spawned);
    let snap = snapshot_players(&world.players);
    msgs.push(snap);
    msgs
}

/// Every entry of the spawned list is well-formed: it was built by the
/// spawn constructor from a well-formed name.
proof fn lemma_spawned_wf(ps: Seq<Player>, intents: Seq<(u8, InternalGameMessages)>, k: int, t: int)
    requires
        forall|i: int| 0 <= i < intents.len() ==> spec_msg_wf((#[trigger] intents[i]).1),
        0 <= k <= intents.len(),
        0 <= t < spec_spawned(ps, intents, k).len(),
    ensures
        spec_spawned(ps, intents, k)[t].wf(),
    decreases k,
{
    if k > 0 {
        let prev = spec_spawned(ps, intents, k - 1);
        if t < prev.len() {
            lemma_spawned_wf(ps, intents, k - 1, t);
        }
    }
}

/// The connection registry's verified core: the monotonically assigned id
/// space and the set of live ids. The outbound stream handles keyed by
/// these ids live with the connection tasks.
pub struct ConnectionRegistry {
    pub next_id: u8,
    pub active: Vec<u8>,
}

impl ConnectionRegistry {
    /// Ids are unique and below the allocation counter.
    pub open spec fn wf(self) -> bool {
        &&& forall|i: int, j: int| 0 <= i < j < self.active@.len() ==> self.active@[i] != self.active@[j]
        &&& forall|i: int| 0 <= i < self.active@.len() ==> (#[trigger] self.active@[i]) < self.next_id
    }

    /// An empty registry: the first connection gets id zero.
    pub fn new() -> (r: ConnectionRegistry)
        ensures
            r.wf(),
            r.next_id == 0,
            r.active@.len() == 0,
    {
        ConnectionRegistry { next_id: 0, active: Vec::new() }
    }

    /// Registers a new connection under the next id. Ids are assigned
    /// monotonically and never reused while the counter lasts; when the id
    /// space is exhausted the connection is refused rather than risking a
    /// collision with a still-connected player.
    pub fn allocate(&mut self) -> (r: Option<u8>)
        requires
            old(self).wf(),
        ensures
            final(self).wf(),
            match r {
                Some(id) => {
                    &&& id == old(self).next_id
                    &&& final(self).next_id == old(self).next_id + 1
                    &&& final(self).active@ == old(self).active@.push(id)
                },
                None => old(self).next_id == u8::MAX && *final(self) == *old(self),
            },
    {
        if self.next_id == u8::MAX {
            return None;
        }
        let id = self.next_id;
        self.next_id = self.next_id + 1;
        self.active.push(id);
        proof {
            assert forall|i: int, j: int|
                0 <= i < j < self.active@.len() implies self.active@[i] != self.active@[j] by {
                if j == self.active@.len() - 1 {
                    assert(old(self).active@[i] < id);
                }
            }
        }
        Some(id)
    }

    /// Whether an id is registered.
    pub fn contains(&self, id: u8) -> (r: bool)
        ensures
            r == self.active@.contains(id),
    {
        let n = self.active.len();
        let mut i: usize = 0;
        while i < n
            invariant
                i <= n,
                n == self.active@.len(),
                forall|t: int| 0 <= t < i ==> self.active@[t] != id,
            decreases n - i,
        {
            if self.active[i] == id {
                return true;
            }
            i = i + 1;
        }
        false
    }

    /// Removes a connection's id — called on every exit path of its task —
    /// and hands back the synthetic disconnect intent to enqueue, so the
    /// simulation's view of connectivity never keeps a stale entry.
    pub fn deregister(&mut self, id: u8) -> (intent: InternalGameMessages)
        requires
            old(self).wf(),
        ensures
            final(self).wf(),
            final(self).next_id == old(self).next_id,
            final(self).active@ == old(self).active@.filter(|a: u8| a != id),
            !final(self).active@.contains(id),
            intent == InternalGameMessages::Disconnect,
    {
        let ghost pred = |a: u8| a != id;
        let n = self.active.len();
        let mut kept: Vec<u8> = Vec::new();
        let mut i: usize = 0;
        while i < n
            invariant
                i <= n,
                n == self.active@.len(),
                self.active@ == old(self).active@,
                pred == (|a: u8| a != id),
                kept@ == old(self).active@.subrange(0, i as int).filter(pred),
            decreases n - i,
        {
            proof {
                reveal(Seq::filter);
                assert(self.active@.subrange(0, i + 1).drop_last() =~= self.active@.subrange(
                    0,
                    i as int,
                ));
            }
            let a = self.active[i];
            if a != id {
                kept.push(a);
            }
            proof {
                assert(kept@ =~= old(self).active@.subrange(0, i + 1).filter(pred));
            }
            i = i + 1;
        }
        proof {
            assert(old(self).active@.subrange(0, n as int) =~= old(self).active@);
        }
        self.active = kept;
        proof {
            broadcast use vstd::seq_lib::group_filter_ensures;

            let fs = old(self).active@.filter(pred);
            assert forall|i: int, j: int| 0 <= i < j < fs.len() implies fs[i] != fs[j] by {
                lemma_filter_u8_unique(old(self).active@, pred, i, j);
            }
            assert forall|i: int| 0 <= i < fs.len() implies (#[trigger] fs[i])
                < self.next_id by {
                assert(fs.contains(fs[i]));
                old(self).active@.lemma_filter_contains_rev(pred, fs[i]);
                let t = choose|t: int|
                    0 <= t < old(self).active@.len() && old(self).active@[t] == fs[i];
            }
            if fs.contains(id) {
                let t = choose|t: int| 0 <= t < fs.len() && fs[t] == id;
                assert(pred(fs[t]));
            }
        }
        InternalGameMessages::Disconnect
    }
}

/// Distinct positions of a filtered unique sequence hold distinct values.
proof fn lemma_filter_u8_unique(s: Seq<u8>, pred: spec_fn(u8) -> bool, i: int, j: int)
    requires
        forall|a: int, b: int| 0 <= a < b < s.len() ==> s[a] != s[b],
        0 <= i < j < s.len(),
    ensures
        i < j < s.filter(pred).len() ==> s.filter(pred)[i] != s.filter(pred)[j],
    decreases s.len(),
{
    lemma_filter_of_unique(s, pred);
}

/// Filtering a duplicate-free sequence leaves it duplicate-free.
proof fn lemma_filter_of_unique(s: Seq<u8>, pred: spec_fn(u8) -> bool)
    requires
        forall|a: int, b: int| 0 <= a < b < s.len() ==> s[a] != s[b],
    ensures
        forall|a: int, b: int|
            0 <= a < b < s.filter(pred).len() ==> s.filter(pred)[a] != s.filter(pred)[b],
    decreases s.len(),
{
    reveal(Seq::filter);
    if s.len() > 0 {
        let init = s.drop_last();
        lemma_filter_of_unique(init, pred);
        let fi = init.filter(pred);
        let fs = s.filter(pred);
        assert forall|a: int, b: int|
            0 <= a < b < fs.len() implies fs[a] != fs[b] by {
            if pred(s.last()) && b == fs.len() - 1 {
                assert(fs[a] == fi[a]);
                broadcast use vstd::seq_lib::group_filter_ensures;

                assert(init.contains(fi[a])) by {
                    assert(fi.contains(fi[a]));
                    init.lemma_filter_contains_rev(pred, fi[a]);
                }
                let t = choose|t: int| 0 <= t < init.len() && init[t] == fi[a];
                assert(s[t] == fi[a] && s[s.len() - 1] == s.last());
            }
        }
    }
}

/// Applying a disconnect purges its player id, the movement and collision
/// stages neither change any id nor the player count, and a snapshot lists
/// exactly the current players' ids — so after the disconnect is applied no
/// snapshot broadcast includes the departed id until it is reassigned.
pub proof fn lemma_disconnect_purges(ps: Seq<Player>, id: u8, obs: Seq<Obstacle>)
    ensures
        !spec_has_id(spec_apply_one(ps, id, InternalGameMessages::Disconnect), id),
        spec_move_all(ps).len() == ps.len(),
        forall|k: int|
            0 <= k < ps.len() ==> (#[trigger] spec_move_all(ps)[k]).id == ps[k].id,
        spec_collide_all(ps, obs).len() == ps.len(),
        forall|k: int|
            0 <= k < ps.len() ==> (#[trigger] spec_collide_all(ps, obs)[k]).id == ps[k].id,
{
    broadcast use vstd::seq_lib::group_filter_ensures;

    let fs = ps.filter(|p: Player| p.id != id);
    assert forall|i: int| 0 <= i < fs.len() implies (#[trigger] fs[i]).id != id by {
    }
}

} // verus!
