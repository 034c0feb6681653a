//! The world-streaming subsystem. Chunks are keyed by integer grid
//! coordinates derived from a player's position; a committed map holds
//! generated chunks, a pending set the coordinates whose generation has been
//! dispatched to the background pool and not yet committed. A coordinate is
//! dispatched only while it is neither committed nor pending, so each chunk
//! is generated at most once; committing is idempotent and clears the
//! pending mark. Per-player visibility trackers grow monotonically.
//!
//! Tile classification is the library's own logic: the background worker
//! samples the coherent-noise layers and hands their values in as plain
//! scaled integers.

use vstd::prelude::*;

use std::collections::HashMap;
use std::collections::HashSet;

use crate::mathx::spec_tdiv;
use crate::wire::{encode_frame, spec_frame_bytes, spec_map_chunk_bytes, TileType};

verus! {

broadcast use vstd::std_specs::hash::group_hash_axioms;

/// Tiles per chunk side.
pub const CHUNK_SIZE: i32 = 32;

/// Tile side length in milli-units.
pub const TILE_SIZE_MILLI: i64 = 24_000;

/// Chunk side length in milli-units.
pub const CHUNK_SPAN_MILLI: i64 = 768_000;

/// Chebyshev radius, in chunks, loaded around each player.
pub const LOAD_DISTANCE: i32 = 12;

/// Noise values arrive scaled by this factor.
pub const NOISE_SCALE: i64 = 1_000_000;

/// One chunk coordinate packed into a map key: the two 32-bit halves.
pub open spec fn spec_pack_key(cx: i32, cy: i32) -> u64 {
    ((cx as u32 as u64) << 32) | (cy as u32 as u64)
}

/// Packs a chunk coordinate into its map key.
pub fn pack_key(cx: i32, cy: i32) -> (r: u64)
    ensures
        r == spec_pack_key(cx, cy),
{
    ((cx as u32 as u64) << 32) | (cy as u32 as u64)
}

/// Distinct coordinates pack to distinct keys, so the committed map holds
/// at most one entry per chunk coordinate.
pub proof fn lemma_pack_key_injective(ax: i32, ay: i32, bx: i32, by: i32)
    requires
        spec_pack_key(ax, ay) == spec_pack_key(bx, by),
    ensures
        ax == bx && ay == by,
{
    let a = ax as u32;
    let b = ay as u32;
    let c = bx as u32;
    let d = by as u32;
    assert((((a as u64) << 32) | (b as u64)) == (((c as u64) << 32) | (d as u64)) ==> a == c && b
        == d) by (bit_vector);
    assert(ax as u32 == bx as u32 ==> ax == bx) by (bit_vector);
    assert(ay as u32 == by as u32 ==> ay == by) by (bit_vector);
}

/// The chunk-grid coordinate of a position: the position divided by the
/// chunk span, rounded toward negative infinity.
pub fn chunk_coord_of(pos_milli: i64) -> (r: i64)
    requires
        -0x4000_0000_0000 <= pos_milli <= 0x4000_0000_0000,
    ensures
        r == pos_milli as int / CHUNK_SPAN_MILLI as int,
        -0x600_0000 <= r <= 0x600_0000,
{
    let r = crate::mathx::floor_div(pos_milli, CHUNK_SPAN_MILLI);
    proof {
        let a = pos_milli as int;
        let b = CHUNK_SPAN_MILLI as int;
        assert(-0x600_0000 <= a / b <= 0x600_0000) by (nonlinear_arith)
            requires
                -0x4000_0000_0000 <= a <= 0x4000_0000_0000 && b == 768_000,
        ;
    }
    r
}

/// Classifies one tile from the three noise layers, each scaled by
/// `NOISE_SCALE`: the layers are combined with fixed weights, biased down,
/// and thresholded into ocean, sand or grass.
pub open spec fn spec_classify_tile(continent: int, island: int, detail: int) -> TileType {
    let v = spec_tdiv(continent * 70 + island * 15 + detail * 5, 100) - 350_000;
    if v < 0 {
        TileType::Ocean
    } else if v < 50_000 {
        TileType::Sand
    } else {
        TileType::Grass
    }
}

/// Classifies one tile from its three scaled noise values.
pub fn classify_tile(continent: i64, island: i64, detail: i64) -> (r: TileType)
    requires
        -NOISE_SCALE <= continent <= NOISE_SCALE,
        -NOISE_SCALE <= island <= NOISE_SCALE,
        -NOISE_SCALE <= detail <= NOISE_SCALE,
    ensures
        r == spec_classify_tile(continent as int, island as int, detail as int),
{
    let v = crate::mathx::div_trunc(continent * 70 + island * 15 + detail * 5, 100) - 350_000;
    if v < 0 {
        TileType::Ocean
    } else if v < 50_000 {
        TileType::Sand
    } else {
        TileType::Grass
    }
}

/// The tiles of one chunk classified from per-tile noise triples, in the
/// order the triples arrive (row-major).
pub open spec fn spec_tiles_of_noise(noise: Seq<(i64, i64, i64)>) -> Seq<TileType> {
    noise.map_values(
        |t: (i64, i64, i64)| spec_classify_tile(t.0 as int, t.1 as int, t.2 as int),
    )
}

/// Builds one chunk's tiles from the noise triples its generator sampled.
pub fn generate_chunk_tiles(noise: &Vec<(i64, i64, i64)>) -> (tiles: Vec<TileType>)
    requires
        forall|i: int|
            0 <= i < noise@.len() ==> (-NOISE_SCALE <= (#[trigger] noise@[i]).0 <= NOISE_SCALE
                && -NOISE_SCALE <= noise@[i].1 <= NOISE_SCALE && -NOISE_SCALE <= noise@[i].2
                <= NOISE_SCALE),
    ensures
        tiles@ == spec_tiles_of_noise(noise@),
{
    let n = noise.len();
    let mut tiles: Vec<TileType> = Vec::new();
    let mut i: usize = 0;
    while i < n
        invariant
            i <= n,
            n == noise@.len(),
            forall|t: int|
                0 <= t < noise@.len() ==> (-NOISE_SCALE <= (#[trigger] noise@[t]).0 <= NOISE_SCALE
                    && -NOISE_SCALE <= noise@[t].1 <= NOISE_SCALE && -NOISE_SCALE <= noise@[t].2
                    <= NOISE_SCALE),
            tiles@ == spec_tiles_of_noise(noise@.subrange(0, i as int)),
        decreases n - i,
    {
        let t = noise[i];
        tiles.push(classify_tile(t.0, t.1, t.2));
        proof {
            assert(noise@.subrange(0, i + 1) =~= noise@.subrange(0, i as int).push(
                noise@[i as int],
            ));
            assert(tiles@ =~= spec_tiles_of_noise(noise@.subrange(0, i + 1)));
        }
        i = i + 1;
    }
    proof {
        assert(noise@.subrange(0, n as int) =~= noise@);
    }
    tiles
}

/// Whether generation of a key may be dispatched: the chunk is neither
/// committed nor already pending.
pub open spec fn spec_dispatch_allowed(
    committed: Map<u64, Vec<TileType>>,
    pending: Set<u64>,
    key: u64,
) -> bool {
    !committed.dom().contains(key) && !pending.contains(key)
}

/// The chunk store shared between the tick and the background generators:
/// the committed chunks and the pending-generation marks. The two never
/// overlap, and a key leaves the pending set only by being committed, so a
/// coordinate's generation is dispatched at most once.
pub struct ChunkStore {
    pub committed: HashMap<u64, Vec<TileType>>,
    pub pending: HashSet<u64>,
}

impl ChunkStore {
    /// Pending and committed keys never overlap, and every committed chunk
    /// fits its wire length field.
    pub open spec fn wf(self) -> bool {
        &&& forall|k: u64|
            self.pending@.contains(k) ==> !(#[trigger] self.committed@.dom().contains(k))
        &&& forall|k: u64|
            #[trigger] self.committed@.dom().contains(k) ==> self.committed@[k]@.len() <= u32::MAX
    }

    /// An empty store.
    pub fn new() -> (r: ChunkStore)
        ensures
            r.wf(),
            r.committed@ == Map::<u64, Vec<TileType>>::empty(),
            r.pending@ == Set::<u64>::empty(),
    {
        ChunkStore { committed: HashMap::new(), pending: HashSet::new() }
    }

    /// Marks a key pending and reports true exactly when the key is neither
    /// committed nor already pending — the check and the mark are one
    /// operation, so two requests for the same coordinate dispatch one
    /// generation.
    pub fn begin_generation(&mut self, key: u64) -> (r: bool)
        requires
            old(self).wf(),
        ensures
            final(self).wf(),
            r == spec_dispatch_allowed(old(self).committed@, old(self).pending@, key),
            final(self).committed@ == old(self).committed@,
            r ==> final(self).pending@ == old(self).pending@.insert(key),
            !r ==> final(self).pending@ == old(self).pending@,
            !spec_dispatch_allowed(final(self).committed@, final(self).pending@, key),
    {
        if !self.committed.contains_key(&key) && !self.pending.contains(&key) {
            self.pending.insert(key);
            true
        } else {
            false
        }
    }

    /// Commits a generated chunk and clears its pending mark. Re-committing
    /// an already-committed key is harmless: the committed map ends holding
    /// the given tiles either way.
    pub fn commit(&mut self, key: u64, tiles: Vec<TileType>)
        requires
            old(self).wf(),
            tiles@.len() <= u32::MAX,
        ensures
            final(self).wf(),
            final(self).committed@ == old(self).committed@.insert(key, tiles),
            final(self).pending@ == old(self).pending@.remove(key),
            !spec_dispatch_allowed(final(self).committed@, final(self).pending@, key),
    {
        self.committed.insert(key, tiles);
        self.pending.remove(&key);
        proof {
            assert forall|k: u64| final(self).pending@.contains(k) implies !(
            #[trigger] final(self).committed@.dom().contains(k)) by {
                assert(old(self).pending@.contains(k));
                assert(k != key);
            }
            assert forall|k: u64| #[trigger]
                final(self).committed@.dom().contains(k) implies final(self).committed@[k]@.len()
                <= u32::MAX by {
                if k != key {
                    assert(old(self).committed@.dom().contains(k));
                }
            }
        }
    }

    /// Looks a committed chunk up.
    pub fn get_chunk(&self, key: u64) -> (r: Option<&Vec<TileType>>)
        ensures
            match r {
                Some(tiles) => self.committed@.dom().contains(key) && tiles@
                    == self.committed@[key]@,
                None => !self.committed@.dom().contains(key),
            },
    {
        self.committed.get(&key)
    }
}

/// Once a key's generation has been dispatched, no later request may
/// dispatch it again: a successful `begin_generation` leaves the key
/// pending, a commit moves it to the committed map, and both states refuse
/// a new dispatch.
pub proof fn lemma_dispatch_at_most_once(
    committed: Map<u64, Vec<TileType>>,
    pending: Set<u64>,
    key: u64,
    tiles: Vec<TileType>,
)
    ensures
        !spec_dispatch_allowed(committed, pending.insert(key), key),
        !spec_dispatch_allowed(committed.insert(key, tiles), pending.remove(key), key),
{
}

/// What one visibility pass tells its caller to do for one coordinate.
pub enum ChunkAction {
    /// Send this already-encoded chunk frame to the player.
    Send { key: u64, frame: Vec<u8> },
    /// Generate the chunk at this coordinate on the background pool.
    Dispatch { key: u64 },
}

impl ChunkAction {
    /// The key the action concerns.
    pub open spec fn spec_key(self) -> u64 {
        match self {
            ChunkAction::Send { key, .. } => key,
            ChunkAction::Dispatch { key } => key,
        }
    }

    /// Whether the action dispatches generation.
    pub open spec fn is_dispatch(self) -> bool {
        self is Dispatch
    }
}

/// Whether an action in the list concerns the key.
pub open spec fn spec_has_action(actions: Seq<ChunkAction>, k: u64) -> bool {
    exists|i: int| 0 <= i < actions.len() && (#[trigger] actions[i]).spec_key() == k
}

/// Whether a send action in the list concerns the key.
pub open spec fn spec_has_send(actions: Seq<ChunkAction>, k: u64) -> bool {
    exists|i: int|
        0 <= i < actions.len() && !(#[trigger] actions[i]).is_dispatch() && actions[i].spec_key()
            == k
}

/// Whether a dispatch action in the list concerns the key.
pub open spec fn spec_has_dispatch(actions: Seq<ChunkAction>, k: u64) -> bool {
    exists|i: int|
        0 <= i < actions.len() && (#[trigger] actions[i]).is_dispatch() && actions[i].spec_key()
            == k
}

/// Whether a key names a cell of the load window around chunk `(cx0, cy0)`.
pub open spec fn spec_in_window(cx0: int, cy0: int, k: u64) -> bool {
    exists|dxp: int, dyp: int|
        -(LOAD_DISTANCE as int) <= dxp <= LOAD_DISTANCE as int && -(LOAD_DISTANCE as int) <= dyp
            <= LOAD_DISTANCE as int && k == #[trigger] spec_pack_key(
            (cx0 + dxp) as i32,
            (cy0 + dyp) as i32,
        )
}

/// One window cell is covered: if, at the pass's start, the cell was not yet
/// sent to this player and was either committed or free to dispatch, some
/// action concerns its key.
pub open spec fn spec_window_covered(
    committed: Map<u64, Vec<TileType>>,
    pending: Set<u64>,
    sent: Set<u64>,
    actions: Seq<ChunkAction>,
    cx0: int,
    cy0: int,
    dxp: int,
    dyp: int,
) -> bool {
    let k = spec_pack_key((cx0 + dxp) as i32, (cy0 + dyp) as i32);
    (!sent.contains(k) && (committed.dom().contains(k) || spec_dispatch_allowed(
        committed,
        pending,
        k,
    ))) ==> spec_has_action(actions, k)
}

/// One player's visibility pass: walks every chunk coordinate within the
/// load radius of the player's chunk; a coordinate already sent to this
/// player is skipped; a committed one is encoded, queued for delivery and
/// marked sent; an uncommitted, unpending one is marked pending and queued
/// for background generation — at most once, ever, per coordinate. Every
/// eligible window cell receives an action; every action concerns a window
/// cell; and the sent and pending sets grow by exactly the sent and
/// dispatched keys.
pub fn stream_chunks_for_player(
    store: &mut ChunkStore,
    sent: &mut HashSet<u64>,
    px_milli: i64,
    py_milli: i64,
) -> (actions: Vec<ChunkAction>)
    requires
        old(store).wf(),
        -0x4000_0000_0000 <= px_milli <= 0x4000_0000_0000,
        -0x4000_0000_0000 <= py_milli <= 0x4000_0000_0000,
    ensures
        final(store).wf(),
        final(store).committed@ == old(store).committed@,
        forall|i: int|
            0 <= i < actions@.len() ==> match #[trigger] actions@[i] {
                ChunkAction::Send { key, frame } => {
                    &&& old(store).committed@.dom().contains(key)
                    &&& !old(sent)@.contains(key)
                    &&& final(sent)@.contains(key)
                    &&& exists|cx: i32, cy: i32|
                        key == #[trigger] spec_pack_key(cx, cy) && frame@ == spec_frame_bytes(
                            4,
                            spec_map_chunk_bytes(cx, cy, old(store).committed@[key]@),
                        )
                },
                ChunkAction::Dispatch { key } => {
                    &&& spec_dispatch_allowed(old(store).committed@, old(store).pending@, key)
                    &&& final(store).pending@.contains(key)
                },
            },
        forall|i: int, j: int|
            0 <= i < j < actions@.len() ==> (#[trigger] actions@[i]).spec_key() != (
            #[trigger] actions@[j]).spec_key(),
        forall|i: int|
            0 <= i < actions@.len() ==> spec_in_window(
                px_milli as int / CHUNK_SPAN_MILLI as int,
                py_milli as int / CHUNK_SPAN_MILLI as int,
                (#[trigger] actions@[i]).spec_key(),
            ),
        forall|k: u64|
            #[trigger] final(sent)@.contains(k) <==> (old(sent)@.contains(k) || spec_has_send(
                actions@,
                k,
            )),
        forall|k: u64|
            #[trigger] final(store).pending@.contains(k) <==> (old(store).pending@.contains(k)
                || spec_has_dispatch(actions@, k)),
        forall|dxp: int, dyp: int|
            -(LOAD_DISTANCE as int) <= dxp <= LOAD_DISTANCE as int && -(LOAD_DISTANCE as int)
                <= dyp <= LOAD_DISTANCE as int ==> #[trigger] spec_window_covered(
                old(store).committed@,
                old(store).pending@,
                old(sent)@,
                actions@,
                px_milli as int / CHUNK_SPAN_MILLI as int,
                py_milli as int / CHUNK_SPAN_MILLI as int,
                dxp,
                dyp,
            ),
{
    let cx0 = chunk_coord_of(px_milli) as i32;
    let cy0 = chunk_coord_of(py_milli) as i32;
    let mut actions: Vec<ChunkAction> = Vec::new();
    let mut dx: i32 = -LOAD_DISTANCE;
    while dx <= LOAD_DISTANCE
        invariant
            -LOAD_DISTANCE <= dx <= LOAD_DISTANCE + 1,
            -0x600_0000 <= cx0 <= 0x600_0000,
            -0x600_0000 <= cy0 <= 0x600_0000,
            cx0 as int == px_milli as int / CHUNK_SPAN_MILLI as int,
            cy0 as int == py_milli as int / CHUNK_SPAN_MILLI as int,
            store.wf(),
            store.committed@ == old(store).committed@,
            forall|i: int|
                0 <= i < actions@.len() ==> match #[trigger] actions@[i] {
                    ChunkAction::Send { key, frame } => {
                        &&& old(store).committed@.dom().contains(key)
                        &&& !old(sent)@.contains(key)
                        &&& sent@.contains(key)
                        &&& exists|cx: i32, cy: i32|
                            key == #[trigger] spec_pack_key(cx, cy) && frame@ == spec_frame_bytes(
                                4,
                                spec_map_chunk_bytes(cx, cy, old(store).committed@[key]@),
                            )
                    },
                    ChunkAction::Dispatch { key } => {
                        &&& spec_dispatch_allowed(old(store).committed@, old(store).pending@, key)
                        &&& store.pending@.contains(key)
                    },
                },
            forall|i: int|
                0 <= i < actions@.len() ==> (!spec_dispatch_allowed(
                    store.committed@,
                    store.pending@,
                    (#[trigger] actions@[i]).spec_key(),
                ) && sent@.contains(actions@[i].spec_key()) == !actions@[i].is_dispatch()),
            forall|i: int, j: int|
                0 <= i < j < actions@.len() ==> (#[trigger] actions@[i]).spec_key() != (
                #[trigger] actions@[j]).spec_key(),
            forall|i: int|
                0 <= i < actions@.len() ==> spec_in_window(
                    cx0 as int,
                    cy0 as int,
                    (#[trigger] actions@[i]).spec_key(),
                ),
            forall|k: u64|
                #[trigger] sent@.contains(k) <==> (old(sent)@.contains(k) || spec_has_send(
                    actions@,
                    k,
                )),
            forall|k: u64|
                #[trigger] store.pending@.contains(k) <==> (old(store).pending@.contains(k)
                    || spec_has_dispatch(actions@, k)),
            forall|dxp: int, dyp: int|
                -(LOAD_DISTANCE as int) <= dxp < dx as int && -(LOAD_DISTANCE as int) <= dyp
                    <= LOAD_DISTANCE as int ==> #[trigger] spec_window_covered(
                    old(store).committed@,
                    old(store).pending@,
                    old(sent)@,
                    actions@,
                    cx0 as int,
                    cy0 as int,
                    dxp,
                    dyp,
                ),
        decreases LOAD_DISTANCE + 1 - dx,
    {
        let mut dy: i32 = -LOAD_DISTANCE;
        while dy <= LOAD_DISTANCE
            invariant
                -LOAD_DISTANCE <= dx <= LOAD_DISTANCE,
                -LOAD_DISTANCE <= dy <= LOAD_DISTANCE + 1,
                -0x600_0000 <= cx0 <= 0x600_0000,
                -0x600_0000 <= cy0 <= 0x600_0000,
                cx0 as int == px_milli as int / CHUNK_SPAN_MILLI as int,
                cy0 as int == py_milli as int / CHUNK_SPAN_MILLI as int,
                store.wf(),
                store.committed@ == old(store).committed@,
                forall|i: int|
                    0 <= i < actions@.len() ==> match #[trigger] actions@[i] {
                        ChunkAction::Send { key, frame } => {
                            &&& old(store).committed@.dom().contains(key)
                            &&& !old(sent)@.contains(key)
                            &&& sent@.contains(key)
                            &&& exists|cx: i32, cy: i32|
                                key == #[trigger] spec_pack_key(cx, cy) && frame@
                                    == spec_frame_bytes(
                                    4,
                                    spec_map_chunk_bytes(cx, cy, old(store).committed@[key]@),
                                )
                        },
                        ChunkAction::Dispatch { key } => {
                            &&& spec_dispatch_allowed(
                                old(store).committed@,
                                old(store).pending@,
                                key,
                            )
                            &&& store.pending@.contains(key)
                        },
                    },
                forall|i: int|
                    0 <= i < actions@.len() ==> (!spec_dispatch_allowed(
                        store.committed@,
                        store.pending@,
                        (#[trigger] actions@[i]).spec_key(),
                    ) && sent@.contains(actions@[i].spec_key()) == !actions@[i].is_dispatch()),
                forall|i: int, j: int|
                    0 <= i < j < actions@.len() ==> (#[trigger] actions@[i]).spec_key() != (
                    #[trigger] actions@[j]).spec_key(),
                forall|i: int|
                    0 <= i < actions@.len() ==> spec_in_window(
                        cx0 as int,
                        cy0 as int,
                        (#[trigger] actions@[i]).spec_key(),
                    ),
                forall|k: u64|
                    #[trigger] sent@.contains(k) <==> (old(sent)@.contains(k) || spec_has_send(
                        actions@,
                        k,
                    )),
                forall|k: u64|
                    #[trigger] store.pending@.contains(k) <==> (old(store).pending@.contains(k)
                        || spec_has_dispatch(actions@, k)),
                forall|dxp: int, dyp: int|
                    -(LOAD_DISTANCE as int) <= dxp < dx as int && -(LOAD_DISTANCE as int) <= dyp
                        <= LOAD_DISTANCE as int ==> #[trigger] spec_window_covered(
                        old(store).committed@,
                        old(store).pending@,
                        old(sent)@,
                        actions@,
                        cx0 as int,
                        cy0 as int,
                        dxp,
                        dyp,
                    ),
                forall|dyp: int|
                    -(LOAD_DISTANCE as int) <= dyp < dy as int ==> #[trigger] spec_window_covered(
                        old(store).committed@,
                        old(store).pending@,
                        old(sent)@,
                        actions@,
                        cx0 as int,
                        cy0 as int,
                        dx as int,
                        dyp,
                    ),
            decreases LOAD_DISTANCE + 1 - dy,
        {
            let cx = cx0 + dx;
            let cy = cy0 + dy;
            let key = pack_key(cx, cy);
            proof {
                assert(cx as int == (cx0 as int + dx as int) && cy as int == (cy0 as int
                    + dy as int));
                assert(spec_in_window(cx0 as int, cy0 as int, key)) by {
                    assert(key == spec_pack_key(
                        (cx0 as int + dx as int) as i32,
                        (cy0 as int + dy as int) as i32,
                    ));
                }
            }
            let ghost pre_actions = actions@;
            let ghost pre_sent = sent@;
            let ghost pre_pending = store.pending@;
            if !sent.contains(&key) {
                let committed_frame: Option<Vec<u8>> = match store.get_chunk(key) {
                    Some(tiles) => {
                        let payload = crate::wire::encode_map_chunk(cx, cy, tiles);
                        Some(encode_frame(4, &payload))
                    },
                    None => None,
                };
                match committed_frame {
                    Some(frame) => {
                        sent.insert(key);
                        let ghost pre = actions@;
                        actions.push(ChunkAction::Send { key, frame });
                        proof {
                            assert(actions@ =~= pre.push(
                                ChunkAction::Send {
                                    key,
                                    frame: actions@[pre.len() as int]->Send_frame,
                                },
                            ));
                        }
                    },
                    None => {
                        if store.begin_generation(key) {
                            actions.push(ChunkAction::Dispatch { key });
                        }
                    },
                }
            }
            proof {
                // The action lists only grew by key-`key` actions, so every
                // membership frame and every earlier coverage fact carries
                // over, and this cell is now covered.
                assert forall|k: u64| #[trigger]
                    sent@.contains(k) implies (old(sent)@.contains(k) || spec_has_send(
                    actions@,
                    k,
                )) by {
                    if pre_sent.contains(k) {
                        if !old(sent)@.contains(k) {
                            assert(spec_has_send(pre_actions, k));
                            let i = choose|i: int|
                                0 <= i < pre_actions.len() && !(
                                #[trigger] pre_actions[i]).is_dispatch() && pre_actions[i].spec_key()
                                    == k;
                            assert(actions@[i] == pre_actions[i]);
                        }
                    } else {
                        assert(k == key);
                        assert(!(#[trigger] actions@[actions@.len() - 1]).is_dispatch()
                            && actions@[actions@.len() - 1].spec_key() == k);
                    }
                }
                assert forall|k: u64|
                    (old(sent)@.contains(k) || spec_has_send(actions@, k)) implies #[trigger] sent@.contains(
                    k,
                ) by {
                    if !old(sent)@.contains(k) {
                        let i = choose|i: int|
                            0 <= i < actions@.len() && !(#[trigger] actions@[i]).is_dispatch()
                                && actions@[i].spec_key() == k;
                        if i < pre_actions.len() {
                            assert(pre_actions[i] == actions@[i]);
                            assert(spec_has_send(pre_actions, k));
                            assert(pre_sent.contains(k));
                        }
                    }
                }
                assert forall|k: u64| #[trigger]
                    store.pending@.contains(k) implies (old(store).pending@.contains(k)
                    || spec_has_dispatch(actions@, k)) by {
                    if pre_pending.contains(k) {
                        if !old(store).pending@.contains(k) {
                            assert(spec_has_dispatch(pre_actions, k));
                            let i = choose|i: int|
                                0 <= i < pre_actions.len() && (
                                #[trigger] pre_actions[i]).is_dispatch() && pre_actions[i].spec_key()
                                    == k;
                            assert(actions@[i] == pre_actions[i]);
                        }
                    } else {
                        assert(k == key);
                        assert((#[trigger] actions@[actions@.len() - 1]).is_dispatch()
                            && actions@[actions@.len() - 1].spec_key() == k);
                    }
                }
                assert forall|k: u64|
                    (old(store).pending@.contains(k) || spec_has_dispatch(actions@, k)) implies
                    #[trigger] store.pending@.contains(k) by {
                    if !old(store).pending@.contains(k) {
                        let i = choose|i: int|
                            0 <= i < actions@.len() && (#[trigger] actions@[i]).is_dispatch()
                                && actions@[i].spec_key() == k;
                        if i < pre_actions.len() {
                            assert(pre_actions[i] == actions@[i]);
                            assert(spec_has_dispatch(pre_actions, k));
                            assert(pre_pending.contains(k));
                        }
                    }
                }
                assert(spec_window_covered(
                    old(store).committed@,
                    old(store).pending@,
                    old(sent)@,
                    actions@,
                    cx0 as int,
                    cy0 as int,
                    dx as int,
                    dy as int,
                )) by {
                    let kk = spec_pack_key(
                        (cx0 as int + dx as int) as i32,
                        (cy0 as int + dy as int) as i32,
                    );
                    assert(kk == key);
                    if !old(sent)@.contains(key) && (old(store).committed@.dom().contains(key)
                        || spec_dispatch_allowed(
                        old(store).committed@,
                        old(store).pending@,
                        key,
                    )) {
                        if pre_sent.contains(key) {
                            assert(spec_has_send(pre_actions, key));
                            let i = choose|i: int|
                                0 <= i < pre_actions.len() && !(
                                #[trigger] pre_actions[i]).is_dispatch()
                                    && pre_actions[i].spec_key() == key;
                            assert(actions@[i] == pre_actions[i]);
                            assert(spec_has_action(actions@, key));
                        } else if old(store).committed@.dom().contains(key) {
                            assert((#[trigger] actions@[actions@.len() - 1]).spec_key() == key);
                        } else {
                            if pre_pending.contains(key) {
                                assert(spec_has_dispatch(pre_actions, key));
                                let i = choose|i: int|
                                    0 <= i < pre_actions.len() && (
                                    #[trigger] pre_actions[i]).is_dispatch()
                                        && pre_actions[i].spec_key() == key;
                                assert(actions@[i] == pre_actions[i]);
                                assert(spec_has_action(actions@, key));
                            } else {
                                assert((#[trigger] actions@[actions@.len() - 1]).spec_key()
                                    == key);
                            }
                        }
                    }
                }
                assert forall|dyp: int|
                    -(LOAD_DISTANCE as int) <= dyp < dy as int + 1 implies
                    #[trigger] spec_window_covered(
                    old(store).committed@,
                    old(store).pending@,
                    old(sent)@,
                    actions@,
                    cx0 as int,
                    cy0 as int,
                    dx as int,
                    dyp,
                ) by {
                    if dyp < dy as int {
                        lemma_covered_monotone(
                            old(store).committed@,
                            old(store).pending@,
                            old(sent)@,
                            pre_actions,
                            actions@,
                            cx0 as int,
                            cy0 as int,
                            dx as int,
                            dyp,
                        );
                    }
                }
                assert forall|dxp: int, dyp: int|
                    -(LOAD_DISTANCE as int) <= dxp < dx as int && -(LOAD_DISTANCE as int) <= dyp
                        <= LOAD_DISTANCE as int implies #[trigger] spec_window_covered(
                    old(store).committed@,
                    old(store).pending@,
                    old(sent)@,
                    actions@,
                    cx0 as int,
                    cy0 as int,
                    dxp,
                    dyp,
                ) by {
                    lemma_covered_monotone(
                        old(store).committed@,
                        old(store).pending@,
                        old(sent)@,
                        pre_actions,
                        actions@,
                        cx0 as int,
                        cy0 as int,
                        dxp,
                        dyp,
                    );
                }
            }
            dy = dy + 1;
        }
        dx = dx + 1;
    }
    actions
}

/// Any two send frames for one key over one committed map carry identical
/// bytes: the key determines its coordinate, and the frame is a function of
/// the coordinate and the committed tiles — so every player receiving a
/// chunk receives the same tile data.
pub proof fn lemma_same_chunk_same_frame(
    committed: Map<u64, Vec<TileType>>,
    k: u64,
    cx1: i32,
    cy1: i32,
    f1: Seq<u8>,
    cx2: i32,
    cy2: i32,
    f2: Seq<u8>,
)
    requires
        k == spec_pack_key(cx1, cy1),
        k == spec_pack_key(cx2, cy2),
        f1 == spec_frame_bytes(4, spec_map_chunk_bytes(cx1, cy1, committed[k]@)),
        f2 == spec_frame_bytes(4, spec_map_chunk_bytes(cx2, cy2, committed[k]@)),
    ensures
        f1 == f2,
{
    lemma_pack_key_injective(cx1, cy1, cx2, cy2);
}

/// Coverage survives appending actions: a cell covered by a prefix of the
/// action list is covered by the whole list.
proof fn lemma_covered_monotone(
    committed: Map<u64, Vec<TileType>>,
    pending: Set<u64>,
    sent: Set<u64>,
    pre: Seq<ChunkAction>,
    post: Seq<ChunkAction>,
    cx0: int,
    cy0: int,
    dxp: int,
    dyp: int,
)
    requires
        spec_window_covered(committed, pending, sent, pre, cx0, cy0, dxp, dyp),
        pre.len() <= post.len(),
        forall|i: int| 0 <= i < pre.len() ==> #[trigger] post[i] == pre[i],
    ensures
        spec_window_covered(committed, pending, sent, post, cx0, cy0, dxp, dyp),
{
    let k = spec_pack_key((cx0 + dxp) as i32, (cy0 + dyp) as i32);
    if spec_has_action(pre, k) {
        let i = choose|i: int| 0 <= i < pre.len() && (#[trigger] pre[i]).spec_key() == k;
        assert((#[trigger] post[i]).spec_key() == k);
    }
}

} // verus!
