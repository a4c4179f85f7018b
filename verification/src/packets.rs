//! Packet identifiers, schema obfuscation ("junk" padding) and wire framing.
use vstd::prelude::*;
use bytes::BufMut;

verus! {

/// Per-build seed that scrambles packet ids and junk padding.
pub const PACKET_SEED: u8 = 0x5a;

/// FNV-1a 64-bit offset basis.
pub const FNV_OFFSET: u64 = 0xcbf29ce484222325;

/// FNV-1a 64-bit prime.
pub const FNV_PRIME: u64 = 0x100000001b3;

/// One FNV-1a round: xor in the byte, then multiply modulo 2^64.
pub open spec fn fnv_round(hash: u64, byte: u8) -> u64 {
    (((hash ^ (byte as u64)) as nat * FNV_PRIME as nat) % 0x1_0000_0000_0000_0000) as u64
}

/// FNV-1a of a byte string, folded from the left.
pub open spec fn fnv1a_spec(bytes: Seq<u8>) -> u64
    decreases bytes.len(),
{
    if bytes.len() == 0 {
        FNV_OFFSET
    } else {
        fnv_round(fnv1a_spec(bytes.drop_last()), bytes.last())
    }
}

/// FNV-1a 64-bit hash of `bytes`.
pub fn fnv1a(bytes: &[u8]) -> (hash: u64)
    ensures
        hash == fnv1a_spec(bytes@),
{
    let mut hash: u64 = FNV_OFFSET;
    let mut i: usize = 0;
    while i < bytes.len()
        invariant
            i <= bytes.len(),
            hash == fnv1a_spec(bytes@.subrange(0, i as int)),
        decreases bytes.len() - i,
    {
        proof {
            assert(bytes@.subrange(0, i + 1).drop_last() =~= bytes@.subrange(0, i as int));
        }
        hash = hash ^ (bytes[i] as u64);
        hash = hash.wrapping_mul(FNV_PRIME);
        i = i + 1;
    }
    proof {
        assert(bytes@.subrange(0, bytes@.len() as int) =~= bytes@);
    }
    hash
}

/// Size of the junk block that precedes a packet's fields: 1 to 3 bytes.
pub fn junk_size_a(seed: u8, name_hash: u64) -> (size: usize)
    ensures
        size == ((seed as u64) ^ name_hash) % 3 + 1,
        1 <= size <= 3,
{
    ((((seed as u64) ^ name_hash) % 3) + 1) as usize
}

/// `value` rotated left by 17 bits.
pub open spec fn rotl17(value: u64) -> u64 {
    (value << 17u64) | (value >> 47u64)
}

/// Size of the junk block that follows a packet's fields: 1 to 5 bytes.
pub fn junk_size_b(seed: u8, name_hash: u64) -> (size: usize)
    ensures
        size == ((seed as u64) ^ rotl17(name_hash)) % 5 + 1,
        1 <= size <= 5,
{
    let rotated: u64 = (name_hash << 17u64) | (name_hash >> 47u64);
    ((((seed as u64) ^ rotated) % 5) + 1) as usize
}

/// One xorshift64 step (shifts 13, 7, 17).
pub open spec fn xorshift_step(state: u64) -> u64 {
    let a = state ^ (state << 13u64);
    let b = a ^ (a >> 7u64);
    b ^ (b << 17u64)
}

/// The xorshift64 state after `n` steps from `state`.
pub open spec fn xorshift_iter(state: u64, n: nat) -> u64
    decreases n,
{
    if n == 0 {
        state
    } else {
        xorshift_step(xorshift_iter(state, (n - 1) as nat))
    }
}

/// Byte `i` of the junk stream seeded by `entropy`: the low byte of the
/// xorshift state after `i + 1` steps from `entropy + PACKET_SEED`.
pub open spec fn junk_byte(entropy: u64, i: nat) -> u8 {
    (xorshift_iter(vstd::wrapping::u64_specs::wrapping_add(entropy, PACKET_SEED as u64), i + 1)
        & 0xff) as u8
}

/// `len` bytes of the junk stream seeded by `entropy`: the padding of a
/// block whose size is only known at run time.
pub fn junk_bytes(entropy: u64, len: usize) -> (junk: Vec<u8>)
    ensures
        junk@.len() == len,
        forall|i: int| 0 <= i < len ==> #[trigger] junk@[i] == junk_byte(entropy, i as nat),
{
    let mut data: Vec<u8> = Vec::with_capacity(len);
    let mut state: u64 = entropy.wrapping_add(PACKET_SEED as u64);
    let ghost start = state;
    let mut i: usize = 0;
    while i < len
        invariant
            i <= len,
            data@.len() == i,
            start == vstd::wrapping::u64_specs::wrapping_add(entropy, PACKET_SEED as u64),
            state == xorshift_iter(start, i as nat),
            forall|j: int| 0 <= j < i ==> #[trigger] data@[j] == junk_byte(entropy, j as nat),
        decreases len - i,
    {
        state = state ^ (state << 13u64);
        state = state ^ (state >> 7u64);
        state = state ^ (state << 17u64);
        data.push((state & 0xff) as u8);
        i = i + 1;
    }
    data
}

/// A block of `N` pseudo-random padding bytes.
#[derive(Clone, Copy, Debug)]
pub struct JunkData<const N: usize>(pub [u8; N]);

impl<const N: usize> JunkData<N> {
    /// Deterministic padding derived from `entropy` and the packet seed.
    pub fn random(entropy: u64) -> (junk: Self)
        ensures
            forall|i: int| 0 <= i < N ==> #[trigger] junk.0[i] == junk_byte(entropy, i as nat),
    {
        let mut data = [0u8; N];
        let mut state: u64 = entropy.wrapping_add(PACKET_SEED as u64);
        let ghost start = state;
        let mut i: usize = 0;
        while i < N
            invariant
                i <= N,
                start == vstd::wrapping::u64_specs::wrapping_add(entropy, PACKET_SEED as u64),
                state == xorshift_iter(start, i as nat),
                forall|j: int| 0 <= j < i ==> #[trigger] data[j] == junk_byte(entropy, j as nat),
            decreases N - i,
        {
            state = state ^ (state << 13u64);
            state = state ^ (state >> 7u64);
            state = state ^ (state << 17u64);
            data[i] = (state & 0xff) as u8;
            i = i + 1;
        }
        JunkData(data)
    }
}

impl<const N: usize> Default for JunkData<N> {
    fn default() -> (junk: Self)
        ensures
            forall|i: int| 0 <= i < N ==> #[trigger] junk.0[i] == junk_byte(0, i as nat),
    {
        Self::random(0)
    }
}

/// The packets the protocol registers, by logical index.
#[derive(Clone, Copy, Debug, PartialEq, Eq, Structural)]
pub enum PacketKind {
    Handshake,
    SpawnReq,
    AddEntity,
    UpdateEntity,
    Movement,
    Aim,
    AutoFire,
    PlayerStats,
    RemoveEntity,
    Leaderboard,
}

/// Logical index of a packet kind, in registration order.
pub open spec fn kind_index(kind: PacketKind) -> u8 {
    match kind {
        PacketKind::Handshake => 0,
        PacketKind::SpawnReq => 1,
        PacketKind::AddEntity => 2,
        PacketKind::UpdateEntity => 3,
        PacketKind::Movement => 4,
        PacketKind::Aim => 5,
        PacketKind::AutoFire => 6,
        PacketKind::PlayerStats => 7,
        PacketKind::RemoveEntity => 8,
        PacketKind::Leaderboard => 9,
    }
}

/// The byte a packet kind carries on the wire: its index scrambled by the seed.
pub open spec fn wire_id_spec(kind: PacketKind) -> u8 {
    kind_index(kind) ^ PACKET_SEED
}

impl PacketKind {
    /// Logical index of this kind.
    pub fn index(self) -> (index: u8)
        ensures
            index == kind_index(self),
            index < 10,
    {
        match self {
            PacketKind::Handshake => 0,
            PacketKind::SpawnReq => 1,
            PacketKind::AddEntity => 2,
            PacketKind::UpdateEntity => 3,
            PacketKind::Movement => 4,
            PacketKind::Aim => 5,
            PacketKind::AutoFire => 6,
            PacketKind::PlayerStats => 7,
            PacketKind::RemoveEntity => 8,
            PacketKind::Leaderboard => 9,
        }
    }

    /// The id byte that frames packets of this kind.
    pub fn wire_id(self) -> (id: u8)
        ensures
            id == wire_id_spec(self),
    {
        self.index() ^ PACKET_SEED
    }

    /// The kind whose logical index is `index`, if one is registered.
    pub fn from_index(index: u8) -> (kind: Option<PacketKind>)
        ensures
            kind matches Some(k) ==> kind_index(k) == index,
            kind is None <==> index >= 10,
    {
        match index {
            0 => Some(PacketKind::Handshake),
            1 => Some(PacketKind::SpawnReq),
            2 => Some(PacketKind::AddEntity),
            3 => Some(PacketKind::UpdateEntity),
            4 => Some(PacketKind::Movement),
            5 => Some(PacketKind::Aim),
            6 => Some(PacketKind::AutoFire),
            7 => Some(PacketKind::PlayerStats),
            8 => Some(PacketKind::RemoveEntity),
            9 => Some(PacketKind::Leaderboard),
            _ => None,
        }
    }

    /// The kind that a received frame announces with its id byte, if any.
    pub fn from_wire_id(id: u8) -> (kind: Option<PacketKind>)
        ensures
            kind matches Some(k) ==> wire_id_spec(k) == id,
            kind is None <==> (id ^ PACKET_SEED) >= 10,
    {
        let index = id ^ PACKET_SEED;
        proof {
            assert((id ^ PACKET_SEED) ^ PACKET_SEED == id) by (bit_vector);
        }
        PacketKind::from_index(index)
    }
}

/// Distinct packet kinds are framed with distinct id bytes, and reading the
/// id byte of a frame gives back the kind that wrote it.
pub proof fn law_wire_ids_identify_kinds(a: PacketKind, b: PacketKind)
    ensures
        (wire_id_spec(a) == wire_id_spec(b)) <==> (a == b),
        (wire_id_spec(a) ^ PACKET_SEED) == kind_index(a),
{
    let ia = kind_index(a);
    let ib = kind_index(b);
    assert((ia ^ PACKET_SEED) ^ PACKET_SEED == ia) by (bit_vector);
    assert((ia ^ PACKET_SEED == ib ^ PACKET_SEED) <==> (ia == ib)) by (bit_vector);
}

/// Why a frame was refused: it is empty or carries another kind's id byte.
#[derive(Clone, Copy, Debug, PartialEq, Eq, Structural)]
pub enum FrameError {
    InvalidByteSize,
}

/// A frame: the id byte followed by the encoded payload.
pub open spec fn frame_spec(id: u8, payload: Seq<u8>) -> Seq<u8> {
    seq![id] + payload
}

/// A growable byte buffer of the `bytes` crate.
#[verifier::external_type_specification]
#[verifier::external_body]
pub struct ExBytesMut(bytes::BytesMut);

/// A frozen, shareable byte buffer of the `bytes` crate.
#[verifier::external_type_specification]
#[verifier::external_body]
pub struct ExBytes(bytes::Bytes);

/// The bytes a `BytesMut` holds.
pub uninterp spec fn bytes_mut_contents(b: bytes::BytesMut) -> Seq<u8>;

/// The bytes a `Bytes` holds.
pub uninterp spec fn bytes_contents(b: bytes::Bytes) -> Seq<u8>;

/// `BytesMut::with_capacity`: an empty buffer with room for `capacity`
/// bytes. The capacity is not stated; allocating more than `isize::MAX`
/// bytes panics, so that is left out.
#[verifier::external_body]
fn new_buffer(capacity: usize) -> (b: bytes::BytesMut)
    requires
        capacity <= isize::MAX,
    ensures
        bytes_mut_contents(b) == Seq::<u8>::empty(),
{
    bytes::BytesMut::with_capacity(capacity)
}

/// `BufMut::put_u8` on a `BytesMut`: appends one byte, growing the buffer
/// as needed (a buffer beyond `isize::MAX` bytes panics, so that is left
/// out).
#[verifier::external_body]
fn buffer_put_u8(b: &mut bytes::BytesMut, v: u8)
    requires
        bytes_mut_contents(*old(b)).len() < isize::MAX,
    ensures
        bytes_mut_contents(*final(b)) == bytes_mut_contents(*old(b)).push(v),
{
    b.put_u8(v)
}

/// `BytesMut::extend_from_slice`: appends the bytes of `s`, growing the
/// buffer as needed (beyond `isize::MAX` bytes it panics, so that is left
/// out).
#[verifier::external_body]
fn buffer_extend(b: &mut bytes::BytesMut, s: &[u8])
    requires
        bytes_mut_contents(*old(b)).len() + s@.len() <= isize::MAX,
    ensures
        bytes_mut_contents(*final(b)) == bytes_mut_contents(*old(b)) + s@,
{
    b.extend_from_slice(s)
}

/// `BytesMut::freeze`: the same bytes as an immutable `Bytes`.
#[verifier::external_body]
fn buffer_freeze(b: bytes::BytesMut) -> (f: bytes::Bytes)
    ensures
        bytes_contents(f) == bytes_mut_contents(b),
{
    b.freeze()
}

/// Frames an encoded payload behind its id byte.
pub fn frame(id: u8, payload: &[u8]) -> (bytes: bytes::Bytes)
    requires
        payload@.len() < isize::MAX,
    ensures
        bytes_contents(bytes) == frame_spec(id, payload@),
{
    let mut buf = new_buffer(payload.len() + 1);
    buffer_put_u8(&mut buf, id);
    buffer_extend(&mut buf, payload);
    buffer_freeze(buf)
}

/// Checks a received frame's id byte and hands back the payload behind it.
pub fn unframe(id: u8, data: &[u8]) -> (payload: Result<Vec<u8>, FrameError>)
    ensures
        data@.len() == 0 ==> payload == Err::<Vec<u8>, FrameError>(FrameError::InvalidByteSize),
        data@.len() > 0 && data@[0] != id ==> payload == Err::<Vec<u8>, FrameError>(FrameError::InvalidByteSize),
        data@.len() > 0 && data@[0] == id ==> (payload matches Ok(p) && p@ == data@.drop_first()),
{
    if data.len() == 0 {
        return Err(FrameError::InvalidByteSize);
    }
    if data[0] != id {
        return Err(FrameError::InvalidByteSize);
    }
    let mut out: Vec<u8> = Vec::with_capacity(data.len() - 1);
    let mut i: usize = 1;
    while i < data.len()
        invariant
            1 <= i <= data.len(),
            out@ == data@.subrange(1, i as int),
        decreases data.len() - i,
    {
        out.push(data[i]);
        i = i + 1;
        proof {
            assert(data@.subrange(1, i as int) =~= data@.subrange(1, i - 1).push(data@[i - 1]));
        }
    }
    proof {
        assert(data@.subrange(1, data@.len() as int) =~= data@.drop_first());
    }
    Ok(out)
}

/// Unframing what was framed under the same id gives the payload back.
pub proof fn law_unframe_inverts_frame(id: u8, payload: Seq<u8>)
    ensures
        frame_spec(id, payload).len() > 0,
        frame_spec(id, payload)[0] == id,
        frame_spec(id, payload).drop_first() == payload,
{
    assert(frame_spec(id, payload).drop_first() =~= payload);
}

/// What kind of entity a network id names.
#[derive(Clone, Copy, Debug, PartialEq, Eq, Structural)]
pub enum EntityType {
    Player,
    Shape,
    Bullet,
}

} // verus!
