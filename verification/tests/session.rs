use ed25519_dalek::{SigningKey, VerifyingKey};
use nara::channel::{handshake_public_key, ClientConnection};
use nara::packets::{PacketKind, PACKET_SEED};
use nara::session::{ClientSession, Incoming};

fn secret(b: u8) -> [u8; 32] {
    [b; 32]
}

#[test]
fn handshake_first_and_nothing_sealed_before_the_reply() {
    let (mut session, hello) = ClientSession::new(secret(3), &[9u8; 64]);
    assert_eq!(&hello[32..], &[9u8; 64][..]);
    assert!(!session.is_established());
    assert_eq!(session.spawn_request(false, b"spawn"), None);
    assert!(session.after_update(b"m", b"a", true, b"f").is_empty());
    assert!(matches!(session.on_bytes(b"reply"), Incoming::AwaitingHandshake));
    assert!(matches!(session.on_bytes(b""), Incoming::Empty));
}

#[test]
fn one_send_counter_and_receive_counter_in_arrival_order() {
    let client_secret = secret(5);
    let (mut session, hello) = ClientSession::new(client_secret, &[0u8; 64]);
    let conn = ClientConnection::new(1);
    let (mut conn, reply) = conn.respond_handshake(&handshake_public_key(&hello), &secret(11), &[7u8; 32]);
    assert!(session.on_server_handshake(&reply));
    assert!(!session.on_server_handshake(&reply));
    assert!(session.is_established());

    // already in the game: no spawn request, no counter drawn
    assert_eq!(session.spawn_request(true, b"spawn"), None);
    let spawn = session.spawn_request(false, b"spawn").expect("sealed");
    let first = session.after_update(b"move", b"aim", true, b"fire-on");
    assert_eq!(first.len(), 3);
    let second = session.after_update(b"move2", b"aim2", true, b"fire-on");
    assert_eq!(second.len(), 2);
    // the server opens them in the order they were sealed
    assert_eq!(conn.decrypt(&spawn), Ok(b"spawn".to_vec()));
    assert_eq!(conn.decrypt(&first[0]), Ok(b"move".to_vec()));
    assert_eq!(conn.decrypt(&first[1]), Ok(b"aim".to_vec()));
    assert_eq!(conn.decrypt(&first[2]), Ok(b"fire-on".to_vec()));
    assert_eq!(conn.decrypt(&second[0]), Ok(b"move2".to_vec()));
    assert_eq!(conn.decrypt(&second[1]), Ok(b"aim2".to_vec()));

    // server to client: opened in arrival order, kinds read from the id byte
    let stats = vec![PacketKind::PlayerStats.wire_id(), 1, 2];
    let ct = conn.seal_next(&stats).unwrap();
    conn.commit_sent();
    match session.on_bytes(&ct) {
        Incoming::Packet(kind, bytes) => {
            assert_eq!(kind, PacketKind::PlayerStats);
            assert_eq!(bytes, stats);
        }
        _ => panic!("expected a packet"),
    }
    let unknown = vec![200u8 ^ PACKET_SEED];
    let ct = conn.seal_next(&unknown).unwrap();
    conn.commit_sent();
    assert!(matches!(session.on_bytes(&ct), Incoming::Unknown(_)));
    // a replayed message no longer opens
    assert!(matches!(session.on_bytes(&ct), Incoming::Undecryptable));
}

#[test]
fn server_verifying_key_decodes_published_keys_only() {
    let published = SigningKey::from_bytes(&[7u8; 32]).verifying_key().to_bytes();
    let key = nara::channel::get_server_verifying_key(&published).expect("a real public key decodes");
    assert_eq!(key.to_bytes(), published);
    let mut refused = 0;
    for b in 0..=255u8 {
        let mut bytes = [0u8; 32];
        bytes[0] = b;
        let ours = nara::channel::get_server_verifying_key(&bytes);
        assert_eq!(ours.is_some(), VerifyingKey::from_bytes(&bytes).is_ok());
        if ours.is_none() {
            refused += 1;
        }
    }
    assert!(refused > 0);
}
