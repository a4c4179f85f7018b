use nara::packets::junk_bytes;
use nara::packets::{
    fnv1a, frame, junk_size_a, junk_size_b, unframe, FrameError, JunkData, PacketKind, PACKET_SEED,
};

const ALL_KINDS: [PacketKind; 10] = [
    PacketKind::Handshake,
    PacketKind::SpawnReq,
    PacketKind::AddEntity,
    PacketKind::UpdateEntity,
    PacketKind::Movement,
    PacketKind::Aim,
    PacketKind::AutoFire,
    PacketKind::PlayerStats,
    PacketKind::RemoveEntity,
    PacketKind::Leaderboard,
];

fn xorshift(mut s: u64) -> u64 {
    s ^= s << 13;
    s ^= s >> 7;
    s ^= s << 17;
    s
}

#[test]
fn fnv1a_matches_published_vectors() {
    assert_eq!(fnv1a(b""), 0xcbf29ce484222325);
    assert_eq!(fnv1a(b"a"), 0xaf63dc4c8601ec8c);
    assert_eq!(fnv1a(b"foobar"), 0x85944171f73967e8);
}

#[test]
fn junk_sizes_follow_the_seeded_formulas() {
    for name in ["HandshakePacket", "AimPacket", "ChatSendPacket", ""] {
        let h = fnv1a(name.as_bytes());
        let a = junk_size_a(PACKET_SEED, h);
        let b = junk_size_b(PACKET_SEED, h);
        assert_eq!(a as u64, ((PACKET_SEED as u64) ^ h) % 3 + 1);
        assert_eq!(b as u64, ((PACKET_SEED as u64) ^ h.rotate_left(17)) % 5 + 1);
        assert!((1..=3).contains(&a));
        assert!((1..=5).contains(&b));
    }
    assert_eq!(junk_size_a(0, 0), 1);
    assert_eq!(junk_size_a(0, 2), 3);
    assert_eq!(junk_size_b(0, 0), 1);
    assert_eq!(junk_size_b(4, 0), 5);
}

#[test]
fn junk_bytes_come_from_the_xorshift_stream() {
    let entropy = 0x1234_5678_9abc_def0u64;
    let junk = JunkData::<6>::random(entropy);
    let mut state = entropy.wrapping_add(PACKET_SEED as u64);
    for i in 0..6 {
        state = xorshift(state);
        assert_eq!(junk.0[i], (state & 0xff) as u8);
    }
    let wrapped = JunkData::<3>::random(u64::MAX);
    let mut state = u64::MAX.wrapping_add(PACKET_SEED as u64);
    for i in 0..3 {
        state = xorshift(state);
        assert_eq!(wrapped.0[i], (state & 0xff) as u8);
    }
}

#[test]
fn junk_default_is_random_of_zero() {
    let d = JunkData::<4>::default();
    let r = JunkData::<4>::random(0);
    assert_eq!(d.0, r.0);
    let empty = JunkData::<0>::random(99);
    assert_eq!(empty.0.len(), 0);
}

#[test]
fn wire_ids_round_trip_and_are_distinct() {
    for (i, kind) in ALL_KINDS.iter().enumerate() {
        assert_eq!(kind.index() as usize, i);
        assert_eq!(kind.wire_id(), (i as u8) ^ PACKET_SEED);
        assert_eq!(PacketKind::from_wire_id(kind.wire_id()), Some(*kind));
        assert_eq!(PacketKind::from_index(i as u8), Some(*kind));
        for (j, other) in ALL_KINDS.iter().enumerate() {
            assert_eq!(kind.wire_id() == other.wire_id(), i == j);
        }
    }
    assert_eq!(PacketKind::from_index(10), None);
    assert_eq!(PacketKind::from_wire_id(10 ^ PACKET_SEED), None);
    assert_eq!(PacketKind::from_wire_id(255 ^ PACKET_SEED), None);
}

#[test]
fn frame_then_unframe_gives_payload_back() {
    let payload = vec![9u8, 8, 7, 0, 255];
    let id = PacketKind::Movement.wire_id();
    let framed = frame(id, &payload);
    assert_eq!(framed[0], id);
    assert_eq!(&framed[1..], &payload[..]);
    assert_eq!(unframe(id, &framed), Ok(payload));
    let empty_payload = frame(id, &[]);
    assert_eq!(empty_payload, vec![id]);
    assert_eq!(unframe(id, &empty_payload), Ok(vec![]));
}

#[test]
fn unframe_refuses_empty_and_foreign_frames() {
    let id = PacketKind::Aim.wire_id();
    assert_eq!(unframe(id, &[]), Err(FrameError::InvalidByteSize));
    let framed = frame(PacketKind::AutoFire.wire_id(), &[1, 2]);
    assert_eq!(unframe(id, &framed), Err(FrameError::InvalidByteSize));
}

#[test]
fn runtime_junk_matches_fixed_size_junk() {
    let fixed = JunkData::<5>::random(77);
    assert_eq!(junk_bytes(77, 5), fixed.0.to_vec());
    assert!(junk_bytes(1, 0).is_empty());
}
