use ed25519_dalek::{Signature, SigningKey, Verifier};
use nara::channel::{
    client_handshake, derive_client_keys, derive_server_keys, handshake_public_key, nonce_bytes,
    public_key_of, ChannelError, ClientCipher, ClientConnection, ConnectionState,
};

fn hex32(s: &str) -> [u8; 32] {
    let mut out = [0u8; 32];
    for i in 0..32 {
        out[i] = u8::from_str_radix(&s[2 * i..2 * i + 2], 16).unwrap();
    }
    out
}

const ALICE: &str = "77076d0a7318a57d3c16c17251b26645df4c2f87ebc0992ab177fba51db92c2a";
const ALICE_PUB: &str = "8520f0098930a754748b7ddcb43ef75a0dbf3a0d26381af4eba4a98eaa9b4e6a";
const BOB: &str = "5dab087e624a8a4b79e17f8b83800ee66f3bb1292618b6fd1c2f8b27ff88e0eb";
const BOB_PUB: &str = "de9edb7d7b7dc1b4d35b61c2ece435373f8343c85b78674dadfc7e146f882b4f";

fn authenticated_pair() -> (ClientConnection, ClientCipher) {
    let client_secret = hex32(ALICE);
    let server_secret = hex32(BOB);
    let identity = [7u8; 32];
    let hello = client_handshake(&client_secret, &[0u8; 64]);
    let conn = ClientConnection::new(9);
    let (conn, reply) = conn.respond_handshake(&handshake_public_key(&hello), &server_secret, &identity);
    let mut client = ClientCipher::new();
    client.accept_handshake(&client_secret, &reply);
    (conn, client)
}

#[test]
fn nonces_are_big_endian_counters() {
    assert_eq!(nonce_bytes(0x0102_0304), [1, 2, 3, 4, 0, 0, 0, 0, 0, 0, 0, 0]);
    assert_eq!(nonce_bytes(0), [0u8; 12]);
    assert_ne!(nonce_bytes(1), nonce_bytes(256));
}

#[test]
fn public_keys_follow_rfc7748() {
    assert_eq!(public_key_of(&hex32(ALICE)), hex32(ALICE_PUB));
    assert_eq!(public_key_of(&hex32(BOB)), hex32(BOB_PUB));
}

#[test]
fn both_sides_derive_the_same_keys_crosswise() {
    let server = derive_server_keys(&hex32(BOB), &hex32(ALICE_PUB));
    let client = derive_client_keys(&hex32(ALICE), &hex32(BOB_PUB));
    assert_eq!(server.send, client.recv);
    assert_eq!(server.recv, client.send);
    assert_ne!(server.send, server.recv);
    let shared = hex32("4a5d9d5ba4ce2de1728e3bf480350f25e07e21c947d19e3376f09b3c1e161742");
    assert_ne!(server.send, shared);
    assert_ne!(server.recv, shared);
}

#[test]
fn handshake_reply_carries_signed_public_key() {
    let client_secret = hex32(ALICE);
    let server_secret = hex32(BOB);
    let identity = [42u8; 32];
    let hello = client_handshake(&client_secret, &[5u8; 64]);
    assert_eq!(&hello[..32], &hex32(ALICE_PUB)[..]);
    assert_eq!(&hello[32..], &[5u8; 64][..]);
    let conn = ClientConnection::new(3);
    assert_eq!(conn.state(), ConnectionState::Handshaking);
    let (conn, reply) = conn.respond_handshake(&handshake_public_key(&hello), &server_secret, &identity);
    assert_eq!(conn.state(), ConnectionState::Authenticated);
    assert_eq!(conn.id(), 3);
    assert_eq!(conn.send_nonce(), 0);
    assert_eq!(conn.recv_nonce(), 0);
    assert_eq!(&reply[..32], &hex32(BOB_PUB)[..]);
    let verifying = SigningKey::from_bytes(&identity).verifying_key();
    let mut sig = [0u8; 64];
    sig.copy_from_slice(&reply[32..]);
    assert!(verifying.verify(&reply[..32], &Signature::from_bytes(&sig)).is_ok());
}

#[test]
fn server_to_client_messages_open_in_order() {
    let (mut conn, mut client) = authenticated_pair();
    for msg in [&b"first"[..], &b""[..], &b"third message"[..]] {
        let ct = conn.seal_next(msg).expect("sealed");
        assert_eq!(ct.len(), msg.len() + 16);
        conn.commit_sent();
        assert_eq!(client.open_incoming(&ct), Some(msg.to_vec()));
    }
    assert_eq!(conn.send_nonce(), 3);
    assert_eq!(client.recv_nonce, 3);
}

#[test]
fn send_advances_only_once_queued() {
    let (mut conn, mut client) = authenticated_pair();
    let mut queue: Vec<Vec<u8>> = Vec::new();
    assert_eq!(conn.send(b"stats", |ct| { queue.push(ct); true }), Ok(()));
    assert_eq!(conn.send_nonce(), 1);
    assert_eq!(conn.send(b"lost", |_| false), Err(ChannelError::ChannelEntry));
    assert_eq!(conn.send_nonce(), 1);
    assert_eq!(conn.send(b"board", |ct| { queue.push(ct); true }), Ok(()));
    assert_eq!(client.open_incoming(&queue[0]), Some(b"stats".to_vec()));
    assert_eq!(client.open_incoming(&queue[1]), Some(b"board".to_vec()));
    let mut fresh = ClientConnection::new(2);
    assert_eq!(fresh.send(b"x", |_| true), Err(ChannelError::CipherNotInitialized));
}

#[test]
fn client_to_server_messages_decrypt_and_advance() {
    let (mut conn, mut client) = authenticated_pair();
    let ct = client.seal_outgoing(b"spawn").expect("sealed");
    assert_eq!(client.send_nonce, 1);
    assert_eq!(conn.decrypt(&ct), Ok(b"spawn".to_vec()));
    assert_eq!(conn.recv_nonce(), 1);
}

#[test]
fn tampered_or_replayed_messages_are_refused() {
    let (mut conn, mut client) = authenticated_pair();
    let mut ct = client.seal_outgoing(b"aim").unwrap();
    let good = ct.clone();
    ct[0] ^= 1;
    assert_eq!(conn.decrypt(&ct), Err(ChannelError::CipherEncrypt));
    assert_eq!(conn.recv_nonce(), 0);
    assert_eq!(conn.decrypt(&good), Ok(b"aim".to_vec()));
    assert_eq!(conn.decrypt(&good), Err(ChannelError::CipherEncrypt));
    assert_eq!(conn.recv_nonce(), 1);
}

#[test]
fn unsent_seal_does_not_advance_the_counter() {
    let (conn, mut client) = authenticated_pair();
    let first = conn.seal_next(b"x").unwrap();
    let again = conn.seal_next(b"x").unwrap();
    assert_eq!(first, again);
    assert_eq!(client.open_incoming(&first), Some(b"x".to_vec()));
}

#[test]
fn nothing_is_sealed_before_the_handshake() {
    let mut conn = ClientConnection::new(1);
    assert_eq!(conn.seal_next(b"hi"), Err(ChannelError::CipherNotInitialized));
    assert_eq!(conn.decrypt(b"whatever"), Err(ChannelError::CipherNotInitialized));
    assert_eq!(conn.recv_nonce(), 0);
    let mut client = ClientCipher::new();
    assert_eq!(client.seal_outgoing(b"hi"), None);
    assert_eq!(client.open_incoming(b"hi"), None);
    assert_eq!(client.send_nonce, 0);
    assert_eq!(client.recv_nonce, 0);
}
