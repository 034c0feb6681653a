//! Tests of the spatial index, the collision engine, the chunk streaming
//! subsystem, the tick scheduler and the connection registry.

use mumu_core::chunks::{
    classify_tile, generate_chunk_tiles, pack_key, stream_chunks_for_player, ChunkAction,
    ChunkStore,
};
use mumu_core::collision::{collision_resolution_system, Body, Collider, Obstacle, Shape};
use mumu_core::quadtree::{Point, Quadtree, Rect};
use mumu_core::scheduler::{
    run_tick, ConnectionRegistry, GameWorld, InternalGameMessages, Target,
};
use mumu_core::animal::{animal_ai_system, spawn_animal};
use mumu_core::scheduler::attack_system;
use mumu_core::spatial_hash::SpatialHash;
use mumu_core::wire::TileType;
use mumu_core::world::{
    AiState, AnimalType, ClientProducedError, GameError, InternalError, spawn_wall,
};

#[test]
fn quadtree_root_query_returns_exactly_the_inserted_points() {
    let boundary = Rect::new(4_096_000, 4_096_000, 4_096_000, 4_096_000);
    let mut tree = Quadtree::new(boundary, 4);
    let mut inserted: Vec<Point> = Vec::new();
    // Enough points to force several subdivisions, including duplicates of
    // one position under distinct indices.
    for i in 0..40usize {
        let p = Point {
            x: (i as i64 % 7) * 1_000_000 + 500_000,
            y: (i as i64 % 5) * 1_500_000 + 250_000,
            index: i,
        };
        assert!(tree.insert(p));
        inserted.push(p);
    }
    // A point outside the root boundary is refused and stored nowhere.
    assert!(!tree.insert(Point {
        x: 9_000_000,
        y: 100,
        index: 99
    }));

    let mut found: Vec<Point> = Vec::new();
    tree.query(&boundary, &mut found);
    assert_eq!(found.len(), inserted.len());
    let mut found_sorted = found.clone();
    found_sorted.sort_by_key(|p| p.index);
    let mut inserted_sorted = inserted.clone();
    inserted_sorted.sort_by_key(|p| p.index);
    assert_eq!(found_sorted, inserted_sorted);
}

#[test]
fn quadtree_query_prunes_to_the_requested_rectangle() {
    let boundary = Rect::new(4_096_000, 4_096_000, 4_096_000, 4_096_000);
    let mut tree = Quadtree::new(boundary, 2);
    let inside = Point {
        x: 1_000_000,
        y: 1_000_000,
        index: 0,
    };
    let outside = Point {
        x: 7_000_000,
        y: 7_000_000,
        index: 1,
    };
    assert!(tree.insert(inside));
    assert!(tree.insert(outside));
    let window = Rect::new(1_000_000, 1_000_000, 500_000, 500_000);
    let mut found: Vec<Point> = Vec::new();
    tree.query(&window, &mut found);
    assert_eq!(found, vec![inside]);
}

#[test]
fn two_overlapping_circles_separate_by_the_penetration_depth() {
    // Two circular reactive bodies of radius 10 units placed 5 units apart:
    // penetration 15 units, split evenly, so the centers end 20 units apart
    // (within the 0.1-unit tolerance of 19.8) and the combined displacement
    // equals the original penetration depth.
    let a = Body {
        x: 4_000_000,
        y: 4_000_000,
        radius: 10_000,
    };
    let b = Body {
        x: 4_005_000,
        y: 4_000_000,
        radius: 10_000,
    };
    let out = collision_resolution_system(&vec![a, b], &Vec::new());
    assert_eq!(out[0].x, 3_992_500);
    assert_eq!(out[1].x, 4_012_500);
    assert_eq!(out[0].y, 4_000_000);
    assert_eq!(out[1].y, 4_000_000);
    let distance = out[1].x - out[0].x;
    assert!(distance >= 19_800);
    let moved_a = a.x - out[0].x;
    let moved_b = out[1].x - b.x;
    assert_eq!(moved_a + moved_b, 15_000);
}

#[test]
fn distant_bodies_are_untouched() {
    let a = Body {
        x: 1_000_000,
        y: 1_000_000,
        radius: 10_000,
    };
    let b = Body {
        x: 2_000_000,
        y: 2_000_000,
        radius: 10_000,
    };
    let out = collision_resolution_system(&vec![a, b], &Vec::new());
    assert_eq!(out, vec![a, b]);
}

#[test]
fn obstacle_pushes_a_body_fully_out() {
    // A circle of radius 10 units overlapping a circular obstacle of radius
    // 20 units by 10 units is pushed out by the full penetration.
    let e = Body {
        x: 1_020_000,
        y: 1_000_000,
        radius: 10_000,
    };
    let wall = Obstacle {
        x: 1_000_000,
        y: 1_000_000,
        collider: Collider::circle(20_000),
    };
    let out = collision_resolution_system(&vec![e], &vec![wall]);
    // dist 20 units, combined radius 30: pushed east by the 10-unit
    // penetration to exactly touching.
    assert_eq!(out[0].x, 1_030_000);
    assert_eq!(out[0].y, 1_000_000);
}

#[test]
fn rect_collider_bounding_radius_covers_the_diagonal() {
    let c = Collider::rect(30_000, 40_000);
    match c.shape {
        Shape::Rect { half_w, half_h } => {
            assert_eq!(half_w, 30_000);
            assert_eq!(half_h, 40_000);
        }
        _ => panic!("expected a rectangle"),
    }
    // isqrt(30000^2 + 40000^2) + 1 = 50001.
    assert_eq!(c.rad, 50_001);
}

#[test]
fn tiles_classify_by_biased_weighted_noise() {
    // Weighted sum 0.7c + 0.15i + 0.05d, biased by -0.35, thresholded at 0
    // and 0.05.
    assert_eq!(classify_tile(0, 0, 0), TileType::Ocean);
    assert_eq!(classify_tile(510_000, 0, 0), TileType::Sand); // 0.357 - 0.35 = 0.007
    assert_eq!(classify_tile(1_000_000, 0, 0), TileType::Grass); // 0.7 - 0.35 = 0.35
    assert_eq!(classify_tile(500_000, -1_000_000, 0), TileType::Ocean); // 0.35 - 0.15 - 0.35 < 0
    let tiles = generate_chunk_tiles(&vec![(0, 0, 0), (1_000_000, 0, 0)]);
    assert_eq!(tiles, vec![TileType::Ocean, TileType::Grass]);
}

#[test]
fn same_chunk_requested_twice_dispatches_once() {
    let mut store = ChunkStore::new();
    let key = pack_key(3, -2);
    // The check and the pending mark are one step: the first request
    // dispatches, every later one is refused until the chunk is committed,
    // and a committed chunk is never regenerated.
    assert!(store.begin_generation(key));
    assert!(!store.begin_generation(key));
    store.commit(key, vec![TileType::Grass; 4]);
    assert!(!store.begin_generation(key));
}

#[test]
fn two_players_streaming_the_same_area_dispatch_each_chunk_once() {
    let mut store = ChunkStore::new();
    let mut sent_a = std::collections::HashSet::new();
    let mut sent_b = std::collections::HashSet::new();
    let actions_a = stream_chunks_for_player(&mut store, &mut sent_a, 1_000_000, 1_000_000);
    let actions_b = stream_chunks_for_player(&mut store, &mut sent_b, 1_000_000, 1_000_000);
    // The first pass dispatches the whole load window, the second nothing.
    assert_eq!(actions_a.len(), 25 * 25);
    assert!(actions_a.iter().all(|a| matches!(a, ChunkAction::Dispatch { .. })));
    assert!(actions_b.is_empty());

    // Once committed, both players receive identical tile data.
    let key = pack_key(1, 1);
    store.commit(key, vec![TileType::Sand; 1024]);
    let again_a = stream_chunks_for_player(&mut store, &mut sent_a, 1_000_000, 1_000_000);
    let again_b = stream_chunks_for_player(&mut store, &mut sent_b, 1_000_000, 1_000_000);
    let frame_a = match &again_a[..] {
        [ChunkAction::Send { key: k, frame }] => {
            assert_eq!(*k, key);
            frame.clone()
        }
        _ => panic!("expected exactly one send"),
    };
    let frame_b = match &again_b[..] {
        [ChunkAction::Send { key: k, frame }] => {
            assert_eq!(*k, key);
            frame.clone()
        }
        _ => panic!("expected exactly one send"),
    };
    assert_eq!(frame_a, frame_b);
}

#[test]
fn spawn_then_held_direction_advances_eastward() {
    let mut world = GameWorld::new();
    let obstacles: Vec<Obstacle> = Vec::new();

    // Tick 1: the spawn intent creates the player and announces it, first
    // to its own connection with the is-mine flag set.
    let intents = vec![(
        7u8,
        InternalGameMessages::AddPlayer {
            name: b"Alice".to_vec(),
        },
    )];
    let msgs = run_tick(&mut world, intents, &obstacles);
    assert_eq!(msgs.len(), 3);
    assert_eq!(msgs[0].to, Target::One(7));
    assert_eq!(msgs[0].bytes[0], 1); // opcode: add-player
    assert_eq!(msgs[0].bytes[1], 1); // is_mine
    assert_eq!(msgs[1].to, Target::AllExcept(7));
    assert_eq!(msgs[1].bytes[1], 0); // not mine
    assert_eq!(msgs[2].to, Target::All);
    assert_eq!(msgs[2].bytes[0], 3); // opcode: snapshot
    let x1 = world.players[0].x;

    // Tick 2: hold direction 0.0 (due east, unit vector (1000, 0)).
    let intents = vec![(
        7u8,
        InternalGameMessages::MovePlayer {
            dir_x: 1000,
            dir_y: 0,
        },
    )];
    let _ = run_tick(&mut world, intents, &obstacles);
    let x2 = world.players[0].x;
    assert!(x2 > x1);
    assert_eq!(world.players[0].y, 4_096_000);

    // Tick 3: the direction is still held; x keeps increasing.
    let _ = run_tick(&mut world, Vec::new(), &obstacles);
    let x3 = world.players[0].x;
    assert!(x3 > x2);
}

#[test]
fn out_of_disc_direction_is_refused() {
    let mut world = GameWorld::new();
    let _ = run_tick(
        &mut world,
        vec![(
            3u8,
            InternalGameMessages::AddPlayer {
                name: b"d".to_vec(),
            },
        )],
        &Vec::new(),
    );
    // The fast diagonal is no angle's unit vector: the intent is skipped and
    // the player keeps no held direction, so the speed cap stands.
    let _ = run_tick(
        &mut world,
        vec![(
            3u8,
            InternalGameMessages::MovePlayer {
                dir_x: 1000,
                dir_y: 1000,
            },
        )],
        &Vec::new(),
    );
    assert_eq!(world.players[0].move_dir, None);
    let vx = world.players[0].vx;
    let vy = world.players[0].vy;
    assert!(vx * vx + vy * vy <= 2_025_000_000);

    // A unit direction is accepted.
    let _ = run_tick(
        &mut world,
        vec![(
            3u8,
            InternalGameMessages::MovePlayer {
                dir_x: 0,
                dir_y: -1000,
            },
        )],
        &Vec::new(),
    );
    assert_eq!(world.players[0].move_dir, Some((0, -1000)));
    let vx = world.players[0].vx;
    let vy = world.players[0].vy;
    assert!(vx * vx + vy * vy <= 2_025_000_000);
}

#[test]
fn duplicate_spawn_for_one_id_keeps_one_entity() {
    let mut world = GameWorld::new();
    let intents = vec![
        (
            1u8,
            InternalGameMessages::AddPlayer {
                name: b"first".to_vec(),
            },
        ),
        (
            1u8,
            InternalGameMessages::AddPlayer {
                name: b"second".to_vec(),
            },
        ),
    ];
    let msgs = run_tick(&mut world, intents, &Vec::new());
    assert_eq!(world.players.len(), 1);
    assert_eq!(world.players[0].name, b"first".to_vec());
    // One spawn pair plus the snapshot.
    assert_eq!(msgs.len(), 3);
}

#[test]
fn disconnect_removes_the_player_from_later_broadcasts() {
    let mut world = GameWorld::new();
    let _ = run_tick(
        &mut world,
        vec![
            (
                1u8,
                InternalGameMessages::AddPlayer {
                    name: b"a".to_vec(),
                },
            ),
            (
                2u8,
                InternalGameMessages::AddPlayer {
                    name: b"b".to_vec(),
                },
            ),
        ],
        &Vec::new(),
    );
    assert_eq!(world.players.len(), 2);

    let msgs = run_tick(
        &mut world,
        vec![(1u8, InternalGameMessages::Disconnect)],
        &Vec::new(),
    );
    assert_eq!(world.players.len(), 1);
    assert_eq!(world.players[0].id, 2);
    // The snapshot lists one record: count 1 and the id byte 2.
    let snapshot = &msgs[msgs.len() - 1];
    assert_eq!(snapshot.to, Target::All);
    assert_eq!(&snapshot.bytes[1..5], &[1, 0, 0, 0]);
    assert_eq!(snapshot.bytes[5], 2);
}

#[test]
fn error_taxonomy_wraps_by_origin() {
    assert_eq!(
        GameError::from_internal(InternalError::DecryptionFailure),
        GameError::Internal(InternalError::DecryptionFailure)
    );
    assert_eq!(
        GameError::from_client(ClientProducedError::TooManyConnections),
        GameError::Client(ClientProducedError::TooManyConnections)
    );
    assert_eq!(
        ClientProducedError::from_decode_failure(),
        ClientProducedError::FaultyMessage
    );
}

#[test]
fn tile_codes_round_trip() {
    assert_eq!(TileType::Ocean.to_u8(), 0);
    assert_eq!(TileType::Sand.to_u8(), 1);
    assert_eq!(TileType::Grass.to_u8(), 2);
    assert_eq!(TileType::from_u8(0), Some(TileType::Ocean));
    assert_eq!(TileType::from_u8(2), Some(TileType::Grass));
    assert_eq!(TileType::from_u8(3), None);
}

#[test]
fn animals_stay_on_the_map() {
    let (mut wolf, _) = spawn_animal(AnimalType::Wolf, 100_000, 100_000);
    wolf.state = AiState::Wander;
    let (mut fish, _) = spawn_animal(AnimalType::Fish, 8_100_000, 8_100_000);
    fish.state = AiState::Wander;
    let mut animals = vec![wolf, fish];
    let rng: Vec<i64> = vec![300_000, -300_000, 120_000, -5_000];
    for _ in 0..50 {
        animal_ai_system(&mut animals, &rng);
        for a in &animals {
            assert!(a.x >= 0 && a.x <= 8_192_000);
            assert!(a.y >= 0 && a.y <= 8_192_000);
        }
    }
    assert_eq!(animals[0].animal_type, AnimalType::Wolf);
    assert_eq!(animals[1].animal_type, AnimalType::Fish);
}

#[test]
fn attack_system_lists_attacking_ids() {
    let mut world = GameWorld::new();
    let _ = run_tick(
        &mut world,
        vec![
            (4u8, InternalGameMessages::AddPlayer { name: b"p".to_vec() }),
            (5u8, InternalGameMessages::AddPlayer { name: b"q".to_vec() }),
        ],
        &Vec::new(),
    );
    world.players[1].attacked = true;
    assert_eq!(attack_system(&world.players), vec![5u8]);
}

#[test]
fn walls_spawn_as_rectangular_obstacles() {
    let (wall, _marker) = spawn_wall(4_096_000, 0, 4_000_000, 24_000);
    assert_eq!(wall.x, 4_096_000);
    assert_eq!(wall.y, 0);
    match wall.collider.shape {
        Shape::Rect { half_w, half_h } => {
            assert_eq!(half_w, 4_000_000);
            assert_eq!(half_h, 24_000);
        }
        _ => panic!("expected a rectangle"),
    }
}

#[test]
fn spatial_hash_bins_and_queries_by_cell() {
    let mut grid = SpatialHash::new(100_000);
    grid.insert(50_000, 50_000, 0); // cell (0, 0)
    grid.insert(150_000, 50_000, 1); // cell (1, 0)
    grid.insert(950_000, 950_000, 2); // cell (9, 9), far away
    let mut found: Vec<usize> = Vec::new();
    grid.query(100_000, 50_000, 60_000, &mut found);
    found.sort();
    assert_eq!(found, vec![0, 1]);
    grid.clear();
    let mut found2: Vec<usize> = Vec::new();
    grid.query(100_000, 50_000, 60_000, &mut found2);
    assert!(found2.is_empty());
}

#[test]
fn registry_assigns_monotonic_ids_and_deregisters() {
    let mut reg = ConnectionRegistry::new();
    let a = reg.allocate().expect("id");
    let b = reg.allocate().expect("id");
    assert_eq!(a, 0);
    assert_eq!(b, 1);
    assert!(reg.contains(a));
    assert!(reg.contains(b));
    let intent = reg.deregister(a);
    assert!(matches!(intent, InternalGameMessages::Disconnect));
    assert!(!reg.contains(a));
    assert!(reg.contains(b));
}

#[test]
fn registry_refuses_connections_at_the_id_boundary() {
    // The id counter is a small fixed-width monotonic counter with no reuse:
    // at its maximum the registry refuses the connection instead of
    // colliding with a still-connected player.
    let mut reg = ConnectionRegistry::new();
    let mut last = 0u8;
    while let Some(id) = reg.allocate() {
        last = id;
    }
    assert_eq!(last, u8::MAX - 1);
    assert!(reg.allocate().is_none());
}
