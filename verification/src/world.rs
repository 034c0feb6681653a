//! The simulation's component and configuration records, and the error
//! taxonomy. All distances, speeds and health points are integers in
//! milli-units — one world unit is a thousand of them — so every
//! computation below is exact.

use vstd::prelude::*;

use crate::collision::Obstacle;

verus! {

/// A position in milli-units.
#[derive(Clone, Copy, Debug, PartialEq, Eq, Structural)]
pub struct Position {
    pub x: i64,
    pub y: i64,
}

/// A velocity in milli-units per second.
#[derive(Clone, Copy, Debug, PartialEq, Eq, Structural)]
pub struct Velocity {
    pub vx: i64,
    pub vy: i64,
}

/// A display name, kept as the raw bytes the wire carries.
#[derive(Debug)]
pub struct Name(pub Vec<u8>);

/// Marker component of boundary walls.
#[derive(Clone, Copy, Debug, PartialEq, Eq, Structural)]
pub struct Wall;

/// Marker component of player-controlled entities.
#[derive(Clone, Copy, Debug, PartialEq, Eq, Structural)]
pub struct PlayerEntity;

/// Marker component of animal entities.
#[derive(Clone, Copy, Debug, PartialEq, Eq, Structural)]
pub struct AnimalEntity;

/// Marker component of harvestable resources.
#[derive(Clone, Copy, Debug, PartialEq, Eq, Structural)]
pub struct Resource;

/// Marker of entities that collide but are never moved by resolution.
#[derive(Clone, Copy, Debug, PartialEq, Eq, Structural)]
pub struct NonReactiveCollider;

/// Marker of entities that collision resolution may push.
#[derive(Clone, Copy, Debug, PartialEq, Eq, Structural)]
pub struct ReactiveCollider;

/// The animal variants the world spawns.
#[derive(Clone, Copy, Debug, PartialEq, Eq, Structural)]
pub enum AnimalType {
    Wolf,
    Fish,
}

/// Health in milli-points.
#[derive(Clone, Copy, Debug, PartialEq, Eq, Structural)]
pub struct Health {
    pub current: i64,
    pub max: i64,
}

/// The animal behavior state machine's states.
#[derive(Clone, Copy, Debug, PartialEq, Eq, Structural)]
pub enum AiState {
    Idle,
    Wander,
    Chase,
    Flee,
    Eat,
}

/// An animal's current target: an optional entity id and a wander point.
#[derive(Clone, Copy, Debug, PartialEq, Eq, Structural)]
pub struct AiTarget {
    pub target: Option<u32>,
    pub x: i64,
    pub y: i64,
}

/// Map layout bounds, loaded once at startup.
#[derive(Clone, Copy, Debug, PartialEq, Eq, Structural)]
pub struct MapConfig {
    pub size: u16,
    pub snow_start: u16,
    pub snow_end: u16,
    pub grassland_start: u16,
    pub grassland_end: u16,
    pub desert_start: u16,
    pub desert_end: u16,
    pub lava_start: u16,
    pub lava_end: u16,
    pub ocean_start_x: u16,
    pub ocean_end_x: u16,
}

/// Player physics constants in milli-units.
#[derive(Clone, Copy, Debug, PartialEq, Eq, Structural)]
pub struct PlayerConfig {
    pub update_dt_milli: i64,
    pub player_max_speed: i64,
    pub player_acceleration: i64,
    pub player_friction: i64,
}

/// Per-chunk entity counts, loaded once at startup.
#[derive(Clone, Copy, Debug, PartialEq, Eq, Structural)]
pub struct EntityConfig {
    pub trees_per_chunk: u8,
    pub bushes_per_chunk: u8,
    pub stones_per_chunk: u8,
    pub gold_per_chunk: u8,
}

/// Animal population caps; the turn factor is in milli-units.
#[derive(Clone, Copy, Debug, PartialEq, Eq, Structural)]
pub struct AnimalConfig {
    pub max_fish_alive: u16,
    pub max_wolf: u8,
    pub fish_turn_factor_milli: i64,
}

/// Whole startup configuration.
#[derive(Clone, Copy, Debug, PartialEq, Eq, Structural)]
pub struct Config {
    pub map: MapConfig,
    pub players: PlayerConfig,
    pub entities: EntityConfig,
    pub animals: AnimalConfig,
}

/// Errors the system itself produces.
#[derive(Clone, Copy, Debug, PartialEq, Eq, Structural)]
pub enum InternalError {
    /// Authentication-tag verification failed: treated as tampering.
    DecryptionFailure,
    /// A simulation task ended abnormally.
    SystemPanic,
}

/// Errors induced by a client's behavior.
#[derive(Clone, Copy, Debug, PartialEq, Eq, Structural)]
pub enum ClientProducedError {
    /// The id space is exhausted.
    TooManyConnections,
    /// The connection dropped unexpectedly.
    FaultyConnection,
    /// A malformed message was received.
    FaultyMessage,
}

/// Any error that ends a connection, by origin.
#[derive(Clone, Copy, Debug, PartialEq, Eq, Structural)]
pub enum GameError {
    Internal(InternalError),
    Client(ClientProducedError),
}

impl GameError {
    /// Wraps an internal error.
    pub fn from_internal(e: InternalError) -> (r: GameError)
        ensures
            r == GameError::Internal(e),
    {
        GameError::Internal(e)
    }

    /// Wraps a client-induced error.
    pub fn from_client(e: ClientProducedError) -> (r: GameError)
        ensures
            r == GameError::Client(e),
    {
        GameError::Client(e)
    }
}

impl ClientProducedError {
    /// The error charged to a client whose payload would not decode.
    pub fn from_decode_failure() -> (r: ClientProducedError)
        ensures
            r == ClientProducedError::FaultyMessage,
    {
        ClientProducedError::FaultyMessage
    }
}

/// Builds one boundary wall: an immovable rectangular obstacle.
pub fn spawn_wall(x: i64, y: i64, half_width: i64, half_height: i64) -> (r: (
    Obstacle,
    Wall,
))
    requires
        -crate::collision::POS_RANGE <= x <= crate::collision::POS_RANGE,
        -crate::collision::POS_RANGE <= y <= crate::collision::POS_RANGE,
        0 <= half_width <= crate::collision::OB_HALF_LIMIT,
        0 <= half_height <= crate::collision::OB_HALF_LIMIT,
    ensures
        r.0.wf(),
        r.0.x == x && r.0.y == y,
        r.0.collider.shape == (crate::collision::Shape::Rect {
            half_w: half_width,
            half_h: half_height,
        }),
{
    let collider = crate::collision::Collider::rect(half_width, half_height);
    (Obstacle { x, y, collider }, Wall)
}

} // verus!
