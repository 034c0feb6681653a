//! The wire format of every message the server reads or writes: the two
//! unencrypted handshake records, and the opcode-tagged plaintext frames
//! carried inside AEAD blobs after the handshake.
//!
//! Layout conventions (matching the serialization the clients use): record
//! fields in declaration order; a variable-length byte string as a 32-bit
//! little-endian length followed by the bytes; an optional byte as a 0/1 tag
//! byte followed by the value when present; an enum as one tag byte.

use vstd::prelude::*;

use crate::codec::{
    read_exact, read_u32_le, spec_len_prefixed, spec_u32_le, write_bytes, write_len_prefixed,
    write_u32_le,
};

verus! {

/// Length in bytes of an X25519 public key.
pub const X25519_PK_LEN: usize = 32;

/// Length in bytes of the key-encapsulation public key the handshake accepts.
pub const KEM_PK_LEN: usize = 1184;

/// Length in bytes of the key-encapsulation ciphertext the server returns.
pub const KEM_CT_LEN: usize = 1088;

/// The opcode space of post-handshake frames.
#[derive(Clone, Copy, Debug, PartialEq, Eq, Structural)]
pub enum PacketType {
    /// Client to server: spawn request. Server to client: add-player notice.
    Spawn,
    /// Client to server: change of movement direction.
    Move,
    /// Server to client: full player-state snapshot.
    UpdatePlayers,
    /// Server to client: one world chunk.
    MapData,
}

impl PacketType {
    /// The opcode byte of each packet type.
    pub open spec fn spec_opcode(self) -> u8 {
        match self {
            PacketType::Spawn => 1,
            PacketType::Move => 2,
            PacketType::UpdatePlayers => 3,
            PacketType::MapData => 4,
        }
    }

    /// Maps an opcode byte back to a packet type; unknown opcodes give `None`.
    pub fn from_u8(val: u8) -> (r: Option<PacketType>)
        ensures
            match r {
                Some(t) => t.spec_opcode() == val,
                None => forall|t: PacketType| t.spec_opcode() != val,
            },
    {
        match val {
            1 => Some(PacketType::Spawn),
            2 => Some(PacketType::Move),
            3 => Some(PacketType::UpdatePlayers),
            4 => Some(PacketType::MapData),
            _ => None,
        }
    }

    /// The opcode byte of this packet type.
    pub fn to_u8(self) -> (r: u8)
        ensures
            r == self.spec_opcode(),
    {
        match self {
            PacketType::Spawn => 1,
            PacketType::Move => 2,
            PacketType::UpdatePlayers => 3,
            PacketType::MapData => 4,
        }
    }
}

/// First message of the handshake, client to server, unencrypted: the
/// client's ephemeral X25519 public key and its key-encapsulation public key.
pub struct ClientHello {
    pub x25519_pk: Vec<u8>,
    pub kyber_pk: Vec<u8>,
}

/// Second message of the handshake, server to client, unencrypted: the
/// server's ephemeral X25519 public key and the key-encapsulation ciphertext.
pub struct ServerHello {
    pub x25519_pk: Vec<u8>,
    pub kyber_ct: Vec<u8>,
}

/// The wire form shared by both handshake records: a fixed 32-byte key
/// followed by one length-prefixed blob.
pub open spec fn spec_hello_bytes(pk: Seq<u8>, blob: Seq<u8>) -> Seq<u8> {
    pk + spec_len_prefixed(blob)
}

impl ClientHello {
    /// A well-formed record carries a full-size X25519 key and an
    /// encodable blob.
    pub open spec fn wf(self) -> bool {
        self.x25519_pk@.len() == X25519_PK_LEN && self.kyber_pk@.len() <= u32::MAX
    }

    /// The record's wire bytes.
    pub open spec fn spec_bytes(self) -> Seq<u8> {
        spec_hello_bytes(self.x25519_pk@, self.kyber_pk@)
    }

    /// Serializes the record.
    pub fn encode(&self) -> (r: Vec<u8>)
        requires
            self.wf(),
        ensures
            r@ == self.spec_bytes(),
    {
        encode_hello(&self.x25519_pk, &self.kyber_pk)
    }

    /// Parses a `ClientHello` from a complete buffer; fails on a truncated
    /// buffer, trailing bytes, or a length field that disagrees with the
    /// buffer.
    pub fn decode(buf: &Vec<u8>) -> (r: Option<ClientHello>)
        ensures
            match r {
                Some(h) => h.wf() && buf@ == h.spec_bytes(),
                None => forall|pk: Seq<u8>, blob: Seq<u8>|
                    pk.len() == X25519_PK_LEN && blob.len() <= u32::MAX ==> buf@
                        != spec_hello_bytes(pk, blob),
            },
    {
        match decode_hello(buf) {
            Some((pk, blob)) => Some(ClientHello { x25519_pk: pk, kyber_pk: blob }),
            None => None,
        }
    }
}

impl ServerHello {
    /// A well-formed record carries a full-size X25519 key and an
    /// encodable blob.
    pub open spec fn wf(self) -> bool {
        self.x25519_pk@.len() == X25519_PK_LEN && self.kyber_ct@.len() <= u32::MAX
    }

    /// The record's wire bytes.
    pub open spec fn spec_bytes(self) -> Seq<u8> {
        spec_hello_bytes(self.x25519_pk@, self.kyber_ct@)
    }

    /// Serializes the record.
    pub fn encode(&self) -> (r: Vec<u8>)
        requires
            self.wf(),
        ensures
            r@ == self.spec_bytes(),
    {
        encode_hello(&self.x25519_pk, &self.kyber_ct)
    }

    /// Parses a `ServerHello` from a complete buffer; fails on a truncated
    /// buffer, trailing bytes, or a length field that disagrees with the
    /// buffer.
    pub fn decode(buf: &Vec<u8>) -> (r: Option<ServerHello>)
        ensures
            match r {
                Some(h) => h.wf() && buf@ == h.spec_bytes(),
                None => forall|pk: Seq<u8>, blob: Seq<u8>|
                    pk.len() == X25519_PK_LEN && blob.len() <= u32::MAX ==> buf@
                        != spec_hello_bytes(pk, blob),
            },
    {
        match decode_hello(buf) {
            Some((pk, blob)) => Some(ServerHello { x25519_pk: pk, kyber_ct: blob }),
            None => None,
        }
    }
}

/// Serializes a 32-byte key followed by a length-prefixed blob.
fn encode_hello(pk: &Vec<u8>, blob: &Vec<u8>) -> (r: Vec<u8>)
    requires
        pk@.len() == X25519_PK_LEN,
        blob@.len() <= u32::MAX,
    ensures
        r@ == spec_hello_bytes(pk@, blob@),
{
    let mut out: Vec<u8> = Vec::new();
    write_bytes(&mut out, pk);
    write_len_prefixed(&mut out, blob);
    assert(out@ =~= spec_hello_bytes(pk@, blob@));
    out
}

/// Parses a 32-byte key followed by one length-prefixed blob, requiring the
/// buffer to be consumed exactly.
fn decode_hello(buf: &Vec<u8>) -> (r: Option<(Vec<u8>, Vec<u8>)>)
    ensures
        match r {
            Some(p) => p.0@.len() == X25519_PK_LEN && p.1@.len() <= u32::MAX && buf@
                == spec_hello_bytes(p.0@, p.1@),
            None => forall|pk: Seq<u8>, blob: Seq<u8>|
                pk.len() == X25519_PK_LEN && blob.len() <= u32::MAX ==> buf@ != spec_hello_bytes(
                    pk,
                    blob,
                ),
        },
{
    let n = buf.len();
    if n < 36 {
        proof {
            lemma_hello_bytes_shape(buf@);
        }
        return None;
    }
    let pk = read_exact(buf, 0, 32);
    let blob_len = read_u32_le(buf, 32);
    if blob_len as usize != n - 36 {
        proof {
            lemma_hello_bytes_shape(buf@);
        }
        return None;
    }
    let blob = read_exact(buf, 36, n - 36);
    proof {
        assert(buf@ =~= spec_hello_bytes(pk@, blob@)) by {
            crate::codec::lemma_u32_from_le_round_trip(buf@.subrange(32, 36));
            assert(buf@.subrange(32, 36) =~= spec_u32_le(blob@.len() as u32));
        }
    }
    Some((pk, blob))
}

/// Any buffer of the hello shape determines its own field boundaries: the key
/// is the first 32 bytes and the length field at offset 32 names exactly the
/// remainder.
proof fn lemma_hello_bytes_shape(buf: Seq<u8>)
    ensures
        forall|pk: Seq<u8>, blob: Seq<u8>|
            pk.len() == X25519_PK_LEN && blob.len() <= u32::MAX && buf == spec_hello_bytes(
                pk,
                blob,
            ) ==> buf.len() >= 36 && buf.len() - 36 == spec_u32_from_le_at(buf, 32),
{
    assert forall|pk: Seq<u8>, blob: Seq<u8>|
        pk.len() == X25519_PK_LEN && blob.len() <= u32::MAX && buf == spec_hello_bytes(
            pk,
            blob,
        ) implies buf.len() >= 36 && buf.len() - 36 == spec_u32_from_le_at(buf, 32) by {
        assert(buf.len() == 36 + blob.len());
        assert(buf.subrange(32, 36) =~= spec_u32_le(blob.len() as u32));
        crate::codec::lemma_u32_le_round_trip(blob.len() as u32);
    }
}

/// The 32-bit little-endian value at offset `at` of `b`.
pub open spec fn spec_u32_from_le_at(b: Seq<u8>, at: int) -> u32 {
    crate::codec::spec_u32_from_le(b.subrange(at, at + 4))
}

/// The little-endian byte sequence of a signed 32-bit value (two's
/// complement).
pub open spec fn spec_i32_le(x: i32) -> Seq<u8> {
    spec_u32_le(x as u32)
}

/// The wire form of an optional byte: a presence tag, then the value.
pub open spec fn spec_opt_u8_bytes(o: Option<u8>) -> Seq<u8> {
    match o {
        Option::None => seq![0u8],
        Option::Some(v) => seq![1u8, v],
    }
}

/// The wire form of a boolean: one 0/1 byte.
pub open spec fn spec_bool_byte(b: bool) -> Seq<u8> {
    seq![if b { 1u8 } else { 0u8 }]
}

/// Appends the four little-endian bytes of a signed value.
pub fn write_i32_le(out: &mut Vec<u8>, x: i32)
    ensures
        final(out)@ == old(out)@ + spec_i32_le(x),
{
    write_u32_le(out, x as u32);
}

/// Opcode 1, client to server: a request to spawn under a display name.
pub struct SpawnRequest {
    pub name: Vec<u8>,
}

impl SpawnRequest {
    /// A name must fit its 32-bit length field.
    pub open spec fn wf(self) -> bool {
        self.name@.len() <= u32::MAX
    }

    /// The payload's wire bytes: the length-prefixed name.
    pub open spec fn spec_bytes(self) -> Seq<u8> {
        spec_len_prefixed(self.name@)
    }

    /// Serializes the payload.
    pub fn encode(&self) -> (r: Vec<u8>)
        requires
            self.wf(),
        ensures
            r@ == self.spec_bytes(),
    {
        let mut out: Vec<u8> = Vec::new();
        write_len_prefixed(&mut out, &self.name);
        out
    }

    /// Parses the payload from a complete buffer; fails unless the length
    /// field names exactly the rest of the buffer.
    pub fn decode(buf: &Vec<u8>) -> (r: Option<SpawnRequest>)
        ensures
            match r {
                Some(s) => s.wf() && buf@ == s.spec_bytes(),
                None => forall|name: Seq<u8>|
                    name.len() <= u32::MAX ==> buf@ != spec_len_prefixed(name),
            },
    {
        let n = buf.len();
        if n < 4 {
            proof {
                lemma_len_prefixed_shape(buf@);
            }
            return None;
        }
        let len = read_u32_le(buf, 0);
        if len as usize != n - 4 {
            proof {
                lemma_len_prefixed_shape(buf@);
            }
            return None;
        }
        let name = read_exact(buf, 4, n - 4);
        proof {
            crate::codec::lemma_u32_from_le_round_trip(buf@.subrange(0, 4));
            assert(buf@ =~= spec_len_prefixed(name@));
        }
        Some(SpawnRequest { name })
    }
}

/// Any buffer of the length-prefixed shape determines its own boundary: the
/// length field at offset 0 names exactly the remainder.
proof fn lemma_len_prefixed_shape(buf: Seq<u8>)
    ensures
        forall|b: Seq<u8>|
            b.len() <= u32::MAX && buf == spec_len_prefixed(b) ==> buf.len() >= 4 && buf.len() - 4
                == spec_u32_from_le_at(buf, 0),
{
    assert forall|b: Seq<u8>|
        b.len() <= u32::MAX && buf == spec_len_prefixed(b) implies buf.len() >= 4 && buf.len() - 4
        == spec_u32_from_le_at(buf, 0) by {
        assert(buf.subrange(0, 4) =~= spec_u32_le(b.len() as u32));
        crate::codec::lemma_u32_le_round_trip(b.len() as u32);
    }
}

/// Opcode 2, client to server: a change of movement direction. The four
/// payload bytes carry the direction angle as sent by the client; the
/// simulation never interprets them itself, so they are kept as raw bits.
pub struct MoveRequest {
    pub dir_bits: u32,
}

impl MoveRequest {
    /// The payload's wire bytes: the four direction bytes, little-endian.
    pub open spec fn spec_bytes(self) -> Seq<u8> {
        spec_u32_le(self.dir_bits)
    }

    /// Serializes the payload.
    pub fn encode(&self) -> (r: Vec<u8>)
        ensures
            r@ == self.spec_bytes(),
    {
        let mut out: Vec<u8> = Vec::new();
        write_u32_le(&mut out, self.dir_bits);
        out
    }

    /// Parses the payload; fails unless the buffer is exactly four bytes.
    pub fn decode(buf: &Vec<u8>) -> (r: Option<MoveRequest>)
        ensures
            match r {
                Some(m) => buf@ == m.spec_bytes(),
                None => forall|bits: u32| buf@ != spec_u32_le(bits),
            },
    {
        if buf.len() != 4 {
            return None;
        }
        let bits = read_u32_le(buf, 0);
        proof {
            crate::codec::lemma_u32_from_le_round_trip(buf@.subrange(0, 4));
            assert(buf@ =~= spec_u32_le(bits));
        }
        Some(MoveRequest { dir_bits: bits })
    }
}

/// One player as it appears inside server-to-client messages. Coordinates
/// travel as signed 32-bit milli-unit integers, the simulation's own scale.
pub struct PlayerTO {
    pub id: u8,
    pub name: Vec<u8>,
    pub x_milli: i32,
    pub y_milli: i32,
    pub weapon_index: Option<u8>,
}

/// The wire bytes of one player record, fields in order.
pub open spec fn spec_player_bytes(
    id: u8,
    name: Seq<u8>,
    x: i32,
    y: i32,
    w: Option<u8>,
) -> Seq<u8> {
    seq![id] + spec_len_prefixed(name) + spec_i32_le(x) + spec_i32_le(y) + spec_opt_u8_bytes(w)
}

impl PlayerTO {
    /// A name must fit its 32-bit length field.
    pub open spec fn wf(self) -> bool {
        self.name@.len() <= u32::MAX
    }

    /// The record's wire bytes.
    pub open spec fn spec_bytes(self) -> Seq<u8> {
        spec_player_bytes(self.id, self.name@, self.x_milli, self.y_milli, self.weapon_index)
    }

    /// Serializes the record, appending to `out`.
    pub fn encode_into(&self, out: &mut Vec<u8>)
        requires
            self.wf(),
        ensures
            final(out)@ == old(out)@ + self.spec_bytes(),
    {
        out.push(self.id);
        write_len_prefixed(out, &self.name);
        write_i32_le(out, self.x_milli);
        write_i32_le(out, self.y_milli);
        match self.weapon_index {
            Option::None => out.push(0),
            Option::Some(v) => {
                out.push(1);
                out.push(v);
            },
        }
        assert(out@ =~= old(out)@ + self.spec_bytes());
    }
}

/// Opcode 1, server to client: a newly spawned player, with a flag telling
/// the receiver whether the player is its own.
pub struct AddPlayerData {
    pub is_mine: bool,
    pub data: PlayerTO,
}

impl AddPlayerData {
    pub open spec fn wf(self) -> bool {
        self.data.wf()
    }

    /// The message's wire bytes: the flag byte, then the player record.
    pub open spec fn spec_bytes(self) -> Seq<u8> {
        spec_bool_byte(self.is_mine) + self.data.spec_bytes()
    }

    /// Serializes the message.
    pub fn encode(&self) -> (r: Vec<u8>)
        requires
            self.wf(),
        ensures
            r@ == self.spec_bytes(),
    {
        let mut out: Vec<u8> = Vec::new();
        out.push(if self.is_mine {
            1
        } else {
            0
        });
        self.data.encode_into(&mut out);
        assert(out@ =~= self.spec_bytes());
        out
    }
}

/// The concatenated wire bytes of a list of player records.
pub open spec fn spec_players_bytes(s: Seq<PlayerTO>) -> Seq<u8>
    decreases s.len(),
{
    if s.len() == 0 {
        Seq::empty()
    } else {
        s[0].spec_bytes() + spec_players_bytes(s.drop_first())
    }
}

/// Appending one record to a list appends its bytes to the list's bytes.
proof fn lemma_players_bytes_push(s: Seq<PlayerTO>, p: PlayerTO)
    ensures
        spec_players_bytes(s.push(p)) == spec_players_bytes(s) + p.spec_bytes(),
    decreases s.len(),
{
    if s.len() == 0 {
        assert(s.push(p).drop_first() =~= s);
        assert(spec_players_bytes(s.push(p)) =~= spec_players_bytes(s) + p.spec_bytes());
    } else {
        assert(s.push(p).drop_first() =~= s.drop_first().push(p));
        lemma_players_bytes_push(s.drop_first(), p);
        assert(spec_players_bytes(s.push(p)) =~= spec_players_bytes(s) + p.spec_bytes());
    }
}

/// Opcode 3, server to client: the full player-state snapshot broadcast once
/// per tick.
pub struct UpdatePlayerData {
    pub players: Vec<PlayerTO>,
}

impl UpdatePlayerData {
    pub open spec fn wf(self) -> bool {
        self.players@.len() <= u32::MAX && forall|i: int|
            0 <= i < self.players@.len() ==> self.players@[i].wf()
    }

    /// The message's wire bytes: a 32-bit count, then each record in order.
    pub open spec fn spec_bytes(self) -> Seq<u8> {
        spec_u32_le(self.players@.len() as u32) + spec_players_bytes(self.players@)
    }

    /// Serializes the message.
    pub fn encode(&self) -> (r: Vec<u8>)
        requires
            self.wf(),
        ensures
            r@ == self.spec_bytes(),
    {
        let mut out: Vec<u8> = Vec::new();
        let n = self.players.len();
        write_u32_le(&mut out, n as u32);
        let mut i: usize = 0;
        while i < n
            invariant
                i <= n,
                n == self.players@.len(),
                self.wf(),
                out@ == spec_u32_le(n as u32) + spec_players_bytes(self.players@.subrange(0, i as int)),
            decreases n - i,
        {
            self.players[i].encode_into(&mut out);
            proof {
                lemma_players_bytes_push(self.players@.subrange(0, i as int), self.players@[i as int]);
                assert(self.players@.subrange(0, i + 1) =~= self.players@.subrange(
                    0,
                    i as int,
                ).push(self.players@[i as int]));
            }
            i = i + 1;
        }
        proof {
            assert(self.players@.subrange(0, n as int) =~= self.players@);
        }
        out
    }
}

/// One kind of terrain tile, as classified by chunk generation.
#[derive(Clone, Copy, Debug, PartialEq, Eq, Structural)]
pub enum TileType {
    Ocean,
    Sand,
    Grass,
}

impl TileType {
    /// The tile's one-byte wire code.
    pub open spec fn spec_code(self) -> u8 {
        match self {
            TileType::Ocean => 0,
            TileType::Sand => 1,
            TileType::Grass => 2,
        }
    }

    /// The tile's one-byte wire code.
    pub fn to_u8(self) -> (r: u8)
        ensures
            r == self.spec_code(),
    {
        match self {
            TileType::Ocean => 0,
            TileType::Sand => 1,
            TileType::Grass => 2,
        }
    }

    /// Maps a wire code back to a tile; unknown codes give `None`.
    pub fn from_u8(val: u8) -> (r: Option<TileType>)
        ensures
            match r {
                Some(t) => t.spec_code() == val,
                None => forall|t: TileType| t.spec_code() != val,
            },
    {
        match val {
            0 => Some(TileType::Ocean),
            1 => Some(TileType::Sand),
            2 => Some(TileType::Grass),
            _ => None,
        }
    }
}

/// Opcode 4, server to client: one generated chunk, addressed by its grid
/// coordinates, with its tiles in row-major order.
pub struct MapChunkData {
    pub c_x: i32,
    pub c_y: i32,
    pub tiles: Vec<TileType>,
}

/// The wire bytes of one chunk message: both coordinates, then the
/// length-prefixed tile codes.
pub open spec fn spec_map_chunk_bytes(cx: i32, cy: i32, tiles: Seq<TileType>) -> Seq<u8> {
    spec_i32_le(cx) + spec_i32_le(cy) + spec_u32_le(tiles.len() as u32) + tiles.map_values(
        |t: TileType| t.spec_code(),
    )
}

/// Serializes one chunk message from its parts.
pub fn encode_map_chunk(cx: i32, cy: i32, tiles: &Vec<TileType>) -> (r: Vec<u8>)
    requires
        tiles@.len() <= u32::MAX,
    ensures
        r@ == spec_map_chunk_bytes(cx, cy, tiles@),
{
    let mut out: Vec<u8> = Vec::new();
    write_i32_le(&mut out, cx);
    write_i32_le(&mut out, cy);
    let n = tiles.len();
    write_u32_le(&mut out, n as u32);
    let ghost prefix = out@;
    let mut i: usize = 0;
    while i < n
        invariant
            i <= n,
            n == tiles@.len(),
            out@ == prefix + tiles@.subrange(0, i as int).map_values(|t: TileType| t.spec_code()),
        decreases n - i,
    {
        out.push(tiles[i].to_u8());
        i = i + 1;
        assert(out@ =~= prefix + tiles@.subrange(0, i as int).map_values(
            |t: TileType| t.spec_code(),
        ));
    }
    proof {
        assert(tiles@.subrange(0, n as int) =~= tiles@);
        assert(out@ =~= spec_map_chunk_bytes(cx, cy, tiles@));
    }
    out
}

impl MapChunkData {
    pub open spec fn wf(self) -> bool {
        self.tiles@.len() <= u32::MAX
    }

    /// The message's wire bytes.
    pub open spec fn spec_bytes(self) -> Seq<u8> {
        spec_map_chunk_bytes(self.c_x, self.c_y, self.tiles@)
    }

    /// Serializes the message.
    pub fn encode(&self) -> (r: Vec<u8>)
        requires
            self.wf(),
        ensures
            r@ == self.spec_bytes(),
    {
        encode_map_chunk(self.c_x, self.c_y, &self.tiles)
    }
}

/// The plaintext of a post-handshake frame: the opcode byte, then the
/// opcode-specific payload.
pub open spec fn spec_frame_bytes(opcode: u8, payload: Seq<u8>) -> Seq<u8> {
    seq![opcode] + payload
}

/// Builds a frame plaintext from an opcode and payload.
pub fn encode_frame(opcode: u8, payload: &Vec<u8>) -> (r: Vec<u8>)
    ensures
        r@ == spec_frame_bytes(opcode, payload@),
{
    let mut out: Vec<u8> = Vec::new();
    out.push(opcode);
    write_bytes(&mut out, payload);
    assert(out@ =~= spec_frame_bytes(opcode, payload@));
    out
}

/// Splits a frame plaintext into its opcode and payload; fails only on an
/// empty buffer.
pub fn decode_frame(buf: &Vec<u8>) -> (r: Option<(u8, Vec<u8>)>)
    ensures
        match r {
            Some(p) => buf@ == spec_frame_bytes(p.0, p.1@),
            None => buf@.len() == 0,
        },
{
    let n = buf.len();
    if n == 0 {
        return None;
    }
    let opcode = buf[0];
    let payload = read_exact(buf, 1, n - 1);
    assert(buf@ =~= spec_frame_bytes(opcode, payload@));
    Some((opcode, payload))
}

} // verus!
