//! The encrypted client/server channel: an X25519 key agreement, HKDF-SHA256
//! key separation per direction, and ChaCha20-Poly1305 with a per-direction
//! message counter as nonce.
use vstd::prelude::*;
use chacha20poly1305::aead::{Aead, KeyInit};
use ed25519_dalek::Signer;

verus! {

// ---------------------------------------------------------------------------
// Outside cryptography. Each name below stands for what the primitive
// computes; the contracts relate results to arguments through these names.
// ---------------------------------------------------------------------------

/// The X25519 public key of a 32-byte secret.
pub uninterp spec fn x25519_public_key(secret: Seq<u8>) -> Seq<u8>;

/// The X25519 shared secret of `secret` with the peer key `their_public`.
pub uninterp spec fn x25519_agree(secret: Seq<u8>, their_public: Seq<u8>) -> Seq<u8>;

/// 32 bytes of HKDF-SHA256 output (no salt) from `ikm` under `info`.
pub uninterp spec fn hkdf_sha256_expand32(ikm: Seq<u8>, info: Seq<u8>) -> Seq<u8>;

/// ChaCha20-Poly1305 ciphertext (with its tag appended) of `plaintext`, with
/// no associated data.
pub uninterp spec fn chacha20poly1305_seal(key: Seq<u8>, nonce: Seq<u8>, plaintext: Seq<u8>) -> Seq<u8>;

/// The plaintext a ChaCha20-Poly1305 ciphertext authenticates to, if its tag
/// verifies.
pub uninterp spec fn chacha20poly1305_open(key: Seq<u8>, nonce: Seq<u8>, ciphertext: Seq<u8>) -> Option<Seq<u8>>;

/// The Ed25519 signature of `message` under a 32-byte secret key.
pub uninterp spec fn ed25519_signature(secret: Seq<u8>, message: Seq<u8>) -> Seq<u8>;

/// Longest plaintext the cipher accepts: fewer than `u32::MAX` 64-byte blocks.
pub const MAX_SEAL_LEN: u64 = 274_877_906_880;

/// `chacha20poly1305::Error` (the `aead` crate's opaque error), carried as is.
#[verifier::external_type_specification]
#[verifier::external_body]
pub struct ExAeadError(chacha20poly1305::Error);

/// `hkdf::InvalidLength`, the error of an over-long expansion, carried as is.
#[verifier::external_type_specification]
#[verifier::external_body]
pub struct ExInvalidLength(hkdf::InvalidLength);

/// `x25519_dalek::PublicKey::from(&StaticSecret::from(secret))`: the public
/// key of `secret`.
#[verifier::external_body]
fn x25519_public(secret: &[u8; 32]) -> (public: [u8; 32])
    ensures
        public@ == x25519_public_key(secret@),
{
    x25519_dalek::PublicKey::from(&x25519_dalek::StaticSecret::from(*secret)).to_bytes()
}

/// `StaticSecret::diffie_hellman`: the shared secret of `secret` with
/// `their_public`. As the crate documents, both sides of an exchange compute
/// the same secret: when `their_public` is the public key of some secret
/// `other`, the result equals what `other` computes with our public key.
#[verifier::external_body]
fn x25519_shared(secret: &[u8; 32], their_public: &[u8; 32]) -> (shared: [u8; 32])
    ensures
        shared@ == x25519_agree(secret@, their_public@),
        forall|other: Seq<u8>|
            other.len() == 32 && #[trigger] x25519_public_key(other) == their_public@ ==> shared@
                == x25519_agree(other, x25519_public_key(secret@)),
{
    x25519_dalek::StaticSecret::from(*secret).diffie_hellman(
        &x25519_dalek::PublicKey::from(*their_public),
    ).to_bytes()
}

/// `Hkdf::<Sha256>::new(None, ikm).expand(info, okm)` into a 32-byte `okm`.
/// The crate refuses only outputs longer than 255 hash lengths, so a 32-byte
/// expansion always succeeds.
#[verifier::external_body]
fn hkdf_expand32(ikm: &[u8; 32], info: &[u8]) -> (okm: Result<[u8; 32], hkdf::InvalidLength>)
    ensures
        okm is Ok,
        okm matches Ok(bytes) ==> bytes@ == hkdf_sha256_expand32(ikm@, info@),
{
    let mut out = [0u8; 32];
    hkdf::Hkdf::<sha2::Sha256>::new(None, ikm).expand(info, &mut out).map(|_| out)
}

/// `ChaCha20Poly1305::new(key).encrypt(nonce, plaintext)`. The crate refuses
/// only plaintexts of `MAX_SEAL_LEN` bytes or more.
#[verifier::external_body]
fn chacha_seal(key: &[u8; 32], nonce: &[u8; 12], plaintext: &[u8]) -> (sealed: Result<Vec<u8>, chacha20poly1305::Error>)
    ensures
        sealed matches Ok(ct) ==> ct@ == chacha20poly1305_seal(key@, nonce@, plaintext@),
        sealed matches Ok(ct) ==> ct@.len() == plaintext@.len() + 16,
        sealed is Ok ==> plaintext@.len() < MAX_SEAL_LEN,
        sealed is Err ==> plaintext@.len() >= MAX_SEAL_LEN,
{
    <chacha20poly1305::ChaCha20Poly1305 as KeyInit>::new(&chacha20poly1305::Key::from(*key)).encrypt(
        &chacha20poly1305::Nonce::from(*nonce),
        plaintext,
    )
}

/// `ChaCha20Poly1305::new(key).decrypt(nonce, ciphertext)`: the plaintext
/// when the tag verifies. As the crate documents, decrypting what `encrypt`
/// produced under the same key and nonce gives the plaintext back.
#[verifier::external_body]
fn chacha_open(key: &[u8; 32], nonce: &[u8; 12], ciphertext: &[u8]) -> (opened: Result<Vec<u8>, chacha20poly1305::Error>)
    ensures
        opened matches Ok(pt) ==> chacha20poly1305_open(key@, nonce@, ciphertext@) == Some(pt@),
        opened is Err ==> chacha20poly1305_open(key@, nonce@, ciphertext@) is None,
        opened is Err ==> forall|p: Seq<u8>|
            p.len() < MAX_SEAL_LEN ==> #[trigger] chacha20poly1305_seal(key@, nonce@, p) != ciphertext@,
        opened matches Ok(pt) ==> forall|p: Seq<u8>|
            p.len() < MAX_SEAL_LEN && #[trigger] chacha20poly1305_seal(key@, nonce@, p) == ciphertext@
                ==> pt@ == p,
{
    <chacha20poly1305::ChaCha20Poly1305 as KeyInit>::new(&chacha20poly1305::Key::from(*key)).decrypt(
        &chacha20poly1305::Nonce::from(*nonce),
        ciphertext,
    )
}

/// `SigningKey::from_bytes(secret).sign(message)`: the (deterministic)
/// Ed25519 signature.
#[verifier::external_body]
fn ed25519_sign(secret: &[u8; 32], message: &[u8]) -> (signature: [u8; 64])
    ensures
        signature@ == ed25519_signature(secret@, message@),
{
    ed25519_dalek::SigningKey::from_bytes(secret).sign(message).to_bytes()
}

/// Whether 32 bytes are the compressed form of a point on the Ed25519 curve,
/// that is, a public key that decodes.
pub uninterp spec fn ed25519_point_decodes(bytes: Seq<u8>) -> bool;

/// `ed25519_dalek::VerifyingKey`, carried as is.
#[verifier::external_type_specification]
#[verifier::external_body]
pub struct ExVerifyingKey(ed25519_dalek::VerifyingKey);

/// `ed25519_dalek::SignatureError`, carried as is.
#[verifier::external_type_specification]
#[verifier::external_body]
pub struct ExSignatureError(ed25519_dalek::SignatureError);

/// `VerifyingKey::from_bytes`: succeeds exactly when the bytes decompress to
/// a curve point. That the key holds these very bytes (its `as_bytes`) is
/// what the source shows too, but no clause states it: the key is opaque.
#[verifier::external_body]
fn verifying_key_from_bytes(bytes: &[u8; 32]) -> (key: Result<ed25519_dalek::VerifyingKey, ed25519_dalek::SignatureError>)
    ensures
        key is Ok <==> ed25519_point_decodes(bytes@),
{
    ed25519_dalek::VerifyingKey::from_bytes(bytes)
}

/// The server's Ed25519 verifying key from its 32 published bytes; `None`
/// when the bytes are no public key.
pub fn get_server_verifying_key(bytes: &[u8; 32]) -> (key: Option<ed25519_dalek::VerifyingKey>)
    ensures
        key is Some <==> ed25519_point_decodes(bytes@),
{
    match verifying_key_from_bytes(bytes) {
        Ok(k) => Some(k),
        Err(_) => None,
    }
}

// ---------------------------------------------------------------------------
// Nonces, labels and key schedule.
// ---------------------------------------------------------------------------

/// The 12-byte nonce of message number `counter`: the counter big-endian in
/// the first four bytes, zeros after.
pub open spec fn nonce_spec(counter: u32) -> Seq<u8> {
    seq![
        (counter >> 24u32) as u8,
        (counter >> 16u32) as u8,
        (counter >> 8u32) as u8,
        counter as u8,
        0u8,
        0u8,
        0u8,
        0u8,
        0u8,
        0u8,
        0u8,
        0u8,
    ]
}

/// The nonce of message number `counter`.
pub fn nonce_bytes(counter: u32) -> (nonce: [u8; 12])
    ensures
        nonce@ == nonce_spec(counter),
{
    let mut nonce = [0u8; 12];
    nonce[0] = (counter >> 24u32) as u8;
    nonce[1] = (counter >> 16u32) as u8;
    nonce[2] = (counter >> 8u32) as u8;
    nonce[3] = counter as u8;
    assert(nonce@ =~= nonce_spec(counter));
    nonce
}

/// Distinct message numbers never share a nonce.
pub proof fn law_nonces_distinct(a: u32, b: u32)
    requires
        a != b,
    ensures
        nonce_spec(a) != nonce_spec(b),
{
    if nonce_spec(a) == nonce_spec(b) {
        assert(nonce_spec(a)[0] == nonce_spec(b)[0]);
        assert(nonce_spec(a)[1] == nonce_spec(b)[1]);
        assert(nonce_spec(a)[2] == nonce_spec(b)[2]);
        assert(nonce_spec(a)[3] == nonce_spec(b)[3]);
        assert(((a >> 24u32) as u8 == (b >> 24u32) as u8 && (a >> 16u32) as u8 == (b >> 16u32) as u8
            && (a >> 8u32) as u8 == (b >> 8u32) as u8 && a as u8 == b as u8) ==> a == b)
            by (bit_vector);
    }
}

/// ASCII `client-to-server`: the HKDF label of the client's sending key.
pub open spec fn client_to_server_label() -> Seq<u8> {
    seq![99u8, 108, 105, 101, 110, 116, 45, 116, 111, 45, 115, 101, 114, 118, 101, 114]
}

/// ASCII `server-to-client`: the HKDF label of the server's sending key.
pub open spec fn server_to_client_label() -> Seq<u8> {
    seq![115u8, 101, 114, 118, 101, 114, 45, 116, 111, 45, 99, 108, 105, 101, 110, 116]
}

fn client_to_server() -> (label: [u8; 16])
    ensures
        label@ == client_to_server_label(),
{
    let label: [u8; 16] = [99, 108, 105, 101, 110, 116, 45, 116, 111, 45, 115, 101, 114, 118, 101, 114];
    assert(label@ =~= client_to_server_label());
    label
}

fn server_to_client() -> (label: [u8; 16])
    ensures
        label@ == server_to_client_label(),
{
    let label: [u8; 16] = [115, 101, 114, 118, 101, 114, 45, 116, 111, 45, 99, 108, 105, 101, 110, 116];
    assert(label@ =~= server_to_client_label());
    label
}

/// A pair of directional ChaCha20-Poly1305 keys.
#[derive(Clone, Copy, Debug)]
pub struct SessionKeys {
    pub send: [u8; 32],
    pub recv: [u8; 32],
}

/// The key the client sends with (and the server receives with), from the
/// agreed secret.
pub open spec fn upstream_key(shared: Seq<u8>) -> Seq<u8> {
    hkdf_sha256_expand32(shared, client_to_server_label())
}

/// The key the server sends with (and the client receives with), from the
/// agreed secret.
pub open spec fn downstream_key(shared: Seq<u8>) -> Seq<u8> {
    hkdf_sha256_expand32(shared, server_to_client_label())
}

/// Server-side keys from the server's secret and the client's public key.
pub open spec fn server_keys_spec(server_secret: Seq<u8>, client_public: Seq<u8>) -> (Seq<u8>, Seq<u8>) {
    let shared = x25519_agree(server_secret, client_public);
    (downstream_key(shared), upstream_key(shared))
}

/// Client-side keys from the client's secret and the server's public key.
pub open spec fn client_keys_spec(client_secret: Seq<u8>, server_public: Seq<u8>) -> (Seq<u8>, Seq<u8>) {
    let shared = x25519_agree(client_secret, server_public);
    (upstream_key(shared), downstream_key(shared))
}

/// The keys (send, receive) of a key pair, as byte strings.
pub open spec fn keys_view(keys: SessionKeys) -> (Seq<u8>, Seq<u8>) {
    (keys.send@, keys.recv@)
}

/// Derives the server's (send, receive) keys for a client. Whichever client
/// secret produced `client_public`, the client derives the same keys with
/// the directions swapped.
pub fn derive_server_keys(server_secret: &[u8; 32], client_public: &[u8; 32]) -> (keys: SessionKeys)
    ensures
        keys_view(keys) == server_keys_spec(server_secret@, client_public@),
        forall|c: Seq<u8>|
            c.len() == 32 && #[trigger] x25519_public_key(c) == client_public@ ==> {
                let client = client_keys_spec(c, x25519_public_key(server_secret@));
                keys.send@ == client.1 && keys.recv@ == client.0
            },
{
    let shared = x25519_shared(server_secret, client_public);
    let up = hkdf_expand32(&shared, &client_to_server());
    let down = hkdf_expand32(&shared, &server_to_client());
    match (up, down) {
        (Ok(recv), Ok(send)) => SessionKeys { send, recv },
        _ => {
            proof {
                assert(false);
            }
            SessionKeys { send: [0u8; 32], recv: [0u8; 32] }
        },
    }
}

/// Derives the client's (send, receive) keys from its secret and the
/// server's public key. Whichever server secret produced `server_public`,
/// the server derives the same keys with the directions swapped.
pub fn derive_client_keys(client_secret: &[u8; 32], server_public: &[u8; 32]) -> (keys: SessionKeys)
    ensures
        keys_view(keys) == client_keys_spec(client_secret@, server_public@),
        forall|s: Seq<u8>|
            s.len() == 32 && #[trigger] x25519_public_key(s) == server_public@ ==> {
                let server = server_keys_spec(s, x25519_public_key(client_secret@));
                keys.send@ == server.1 && keys.recv@ == server.0
            },
{
    let shared = x25519_shared(client_secret, server_public);
    let up = hkdf_expand32(&shared, &client_to_server());
    let down = hkdf_expand32(&shared, &server_to_client());
    match (up, down) {
        (Ok(send), Ok(recv)) => SessionKeys { send, recv },
        _ => {
            proof {
                assert(false);
            }
            SessionKeys { send: [0u8; 32], recv: [0u8; 32] }
        },
    }
}

/// The X25519 public key of a secret.
pub fn public_key_of(secret: &[u8; 32]) -> (public: [u8; 32])
    ensures
        public@ == x25519_public_key(secret@),
{
    x25519_public(secret)
}

/// The peer public key a handshake payload carries in its first 32 bytes.
pub fn handshake_public_key(handshake: &[u8; 96]) -> (public: [u8; 32])
    ensures
        public@ == handshake@.subrange(0, 32),
{
    let mut public = [0u8; 32];
    let mut i: usize = 0;
    while i < 32
        invariant
            i <= 32,
            forall|j: int| 0 <= j < i ==> public@[j] == handshake@[j],
        decreases 32 - i,
    {
        public[i] = handshake[i];
        i = i + 1;
    }
    assert(public@ =~= handshake@.subrange(0, 32));
    public
}

/// The client's opening handshake payload: its public key, then 64 bytes of
/// padding.
pub fn client_handshake(client_secret: &[u8; 32], padding: &[u8; 64]) -> (handshake: [u8; 96])
    ensures
        handshake@ == x25519_public_key(client_secret@) + padding@,
{
    let public = x25519_public(client_secret);
    concat_handshake(&public, padding)
}

fn concat_handshake(first: &[u8; 32], rest: &[u8; 64]) -> (bytes: [u8; 96])
    ensures
        bytes@ == first@ + rest@,
{
    let mut bytes = [0u8; 96];
    let mut i: usize = 0;
    while i < 96
        invariant
            i <= 96,
            forall|j: int| 0 <= j < i ==> bytes@[j] == (first@ + rest@)[j],
        decreases 96 - i,
    {
        if i < 32 {
            bytes[i] = first[i];
        } else {
            bytes[i] = rest[i - 32];
        }
        i = i + 1;
    }
    assert(bytes@ =~= first@ + rest@);
    bytes
}

// ---------------------------------------------------------------------------
// The server's view of one client connection.
// ---------------------------------------------------------------------------

/// Whether a connection has completed its key exchange.
#[derive(Clone, Copy, Debug, PartialEq, Eq, Structural)]
pub enum ConnectionState {
    Handshaking,
    Authenticated,
}

/// Why the channel could not seal or open a message.
#[derive(Clone, Copy, Debug, PartialEq, Eq, Structural)]
pub enum ChannelError {
    /// No keys yet: the handshake has not completed.
    CipherNotInitialized,
    /// The cipher refused the message (too long, or a tag that does not verify).
    CipherEncrypt,
    /// The sealed message could not be queued for sending.
    ChannelEntry,
}

/// What a connection holds, as plain values.
pub struct ConnectionView {
    pub id: u32,
    pub send_nonce: u32,
    pub recv_nonce: u32,
    pub keys: Option<SessionKeys>,
}

/// The server's state of one client's channel: its id, the message counters
/// of both directions, and the keys once the handshake is done.
pub struct ClientConnection {
    id: u32,
    send_nonce_count: u32,
    recv_nonce_count: u32,
    keys: Option<SessionKeys>,
}

impl View for ClientConnection {
    type V = ConnectionView;

    closed spec fn view(&self) -> ConnectionView {
        ConnectionView {
            id: self.id,
            send_nonce: self.send_nonce_count,
            recv_nonce: self.recv_nonce_count,
            keys: self.keys,
        }
    }
}

/// The state a connection is in, by whether it holds keys.
pub open spec fn state_of(v: ConnectionView) -> ConnectionState {
    if v.keys is Some {
        ConnectionState::Authenticated
    } else {
        ConnectionState::Handshaking
    }
}

impl ClientConnection {
    /// A fresh connection, still handshaking, with both counters at zero.
    pub fn new(id: u32) -> (conn: Self)
        ensures
            conn@.id == id,
            conn@.send_nonce == 0,
            conn@.recv_nonce == 0,
            conn@.keys is None,
    {
        ClientConnection { id, send_nonce_count: 0, recv_nonce_count: 0, keys: None }
    }

    /// The connection's id.
    pub fn id(&self) -> (id: u32)
        ensures
            id == self@.id,
    {
        self.id
    }

    /// Number of the next message this side will send.
    pub fn send_nonce(&self) -> (n: u32)
        ensures
            n == self@.send_nonce,
    {
        self.send_nonce_count
    }

    /// Number of the next message this side expects to receive.
    pub fn recv_nonce(&self) -> (n: u32)
        ensures
            n == self@.recv_nonce,
    {
        self.recv_nonce_count
    }

    /// Whether the handshake has completed.
    pub fn state(&self) -> (state: ConnectionState)
        ensures
            state == state_of(self@),
    {
        match self.keys {
            Some(_) => ConnectionState::Authenticated,
            None => ConnectionState::Handshaking,
        }
    }

    /// Answers a client's handshake: derives this connection's keys from a
    /// fresh server secret and the client's public key, and returns the now
    /// authenticated connection with the reply payload (the server's public
    /// key followed by its Ed25519 signature under the identity key).
    pub fn respond_handshake(
        self,
        client_public: &[u8; 32],
        server_secret: &[u8; 32],
        identity_secret: &[u8; 32],
    ) -> (answer: (ClientConnection, [u8; 96]))
        requires
            self@.keys is None,
        ensures
            answer.0@.id == self@.id,
            answer.0@.send_nonce == self@.send_nonce,
            answer.0@.recv_nonce == self@.recv_nonce,
            answer.0@.keys matches Some(k) && keys_view(k) == server_keys_spec(
                server_secret@,
                client_public@,
            ),
            answer.1@ == x25519_public_key(server_secret@) + ed25519_signature(
                identity_secret@,
                x25519_public_key(server_secret@),
            ),
            forall|c: Seq<u8>|
                c.len() == 32 && #[trigger] x25519_public_key(c) == client_public@ ==> {
                    let client = client_keys_spec(c, x25519_public_key(server_secret@));
                    answer.0@.keys matches Some(k) && k.send@ == client.1 && k.recv@ == client.0
                },
    {
        let my_public = x25519_public(server_secret);
        let signature = ed25519_sign(identity_secret, &my_public);
        let keys = derive_server_keys(server_secret, client_public);
        let handshake = concat_handshake(&my_public, &signature);
        let conn = ClientConnection {
            id: self.id,
            send_nonce_count: self.send_nonce_count,
            recv_nonce_count: self.recv_nonce_count,
            keys: Some(keys),
        };
        (conn, handshake)
    }

    /// Seals `plaintext` as the next outgoing message, without advancing the
    /// counter; `commit_sent` does that once the message is on its way.
    pub fn seal_next(&self, plaintext: &[u8]) -> (sealed: Result<Vec<u8>, ChannelError>)
        ensures
            self@.keys is None ==> sealed == Err::<Vec<u8>, ChannelError>(ChannelError::CipherNotInitialized),
            self@.keys matches Some(k) ==> {
                &&& sealed matches Ok(ct) ==> ct@ == chacha20poly1305_seal(
                    k.send@,
                    nonce_spec(self@.send_nonce),
                    plaintext@,
                ) && plaintext@.len() < MAX_SEAL_LEN
                &&& sealed matches Err(e) ==> (e == ChannelError::CipherEncrypt
                    && plaintext@.len() >= MAX_SEAL_LEN)
            },
    {
        match &self.keys {
            None => Err(ChannelError::CipherNotInitialized),
            Some(keys) => {
                let nonce = nonce_bytes(self.send_nonce_count);
                match chacha_seal(&keys.send, &nonce, plaintext) {
                    Ok(ct) => Ok(ct),
                    Err(_) => Err(ChannelError::CipherEncrypt),
                }
            },
        }
    }

    /// Sends `plaintext` as the next message: seals it and hands the
    /// ciphertext to `push`, which queues it and tells whether that worked.
    /// The send counter advances only once the message is queued.
    pub fn send<F: FnOnce(Vec<u8>) -> bool>(&mut self, plaintext: &[u8], push: F) -> (sent: Result<(), ChannelError>)
        requires
            forall|ct: Vec<u8>| push.requires((ct,)),
            old(self)@.keys is Some && old(self)@.send_nonce == u32::MAX ==> plaintext@.len()
                >= MAX_SEAL_LEN || forall|ct: Vec<u8>| !#[trigger] push.ensures((ct,), true),
        ensures
            old(self)@.keys is None ==> sent == Err::<(), ChannelError>(ChannelError::CipherNotInitialized)
                && final(self)@ == old(self)@,
            old(self)@.keys matches Some(k) ==> {
                let expected = chacha20poly1305_seal(k.send@, nonce_spec(old(self)@.send_nonce), plaintext@);
                &&& sent is Ok ==> final(self)@ == (ConnectionView {
                    send_nonce: (old(self)@.send_nonce + 1) as u32,
                    ..old(self)@
                }) && exists|ct: Vec<u8>| ct@ == expected && #[trigger] push.ensures((ct,), true)
                &&& sent matches Err(e) ==> final(self)@ == old(self)@ && (e == ChannelError::CipherEncrypt
                    && plaintext@.len() >= MAX_SEAL_LEN || e == ChannelError::ChannelEntry && exists|ct: Vec<u8>|
                    ct@ == expected && #[trigger] push.ensures((ct,), false))
            },
    {
        let sealed = match self.seal_next(plaintext) {
            Ok(ct) => ct,
            Err(e) => return Err(e),
        };
        let ghost queued = sealed;
        let ok = push(sealed);
        if !ok {
            return Err(ChannelError::ChannelEntry);
        }
        self.commit_sent();
        Ok(())
    }

    /// Records that the sealed message went out: the next one uses the next
    /// counter.
    pub fn commit_sent(&mut self)
        requires
            old(self)@.send_nonce < u32::MAX,
        ensures
            final(self)@ == (ConnectionView { send_nonce: (old(self)@.send_nonce + 1) as u32, ..old(self)@ }),
    {
        self.send_nonce_count = self.send_nonce_count + 1;
    }

    /// Opens the next incoming message. On success the receive counter
    /// advances; on failure nothing changes. A message the peer sealed with
    /// this side's receive key under the expected counter always opens to
    /// what the peer sealed.
    pub fn decrypt(&mut self, ciphertext: &[u8]) -> (opened: Result<Vec<u8>, ChannelError>)
        requires
            old(self)@.keys matches Some(k) && chacha20poly1305_open(
                k.recv@,
                nonce_spec(old(self)@.recv_nonce),
                ciphertext@,
            ) is Some ==> old(self)@.recv_nonce < u32::MAX,
        ensures
            old(self)@.keys is None ==> opened == Err::<Vec<u8>, ChannelError>(ChannelError::CipherNotInitialized)
                && final(self)@ == old(self)@,
            old(self)@.keys matches Some(k) ==> {
                let expected = chacha20poly1305_open(
                    k.recv@,
                    nonce_spec(old(self)@.recv_nonce),
                    ciphertext@,
                );
                &&& expected is None ==> opened == Err::<Vec<u8>, ChannelError>(ChannelError::CipherEncrypt)
                    && final(self)@ == old(self)@
                &&& expected matches Some(p) ==> (opened matches Ok(v) && v@ == p && final(self)@
                    == (ConnectionView { recv_nonce: (old(self)@.recv_nonce + 1) as u32, ..old(self)@ }))
                &&& forall|p: Seq<u8>|
                    p.len() < MAX_SEAL_LEN && #[trigger] chacha20poly1305_seal(
                        k.recv@,
                        nonce_spec(old(self)@.recv_nonce),
                        p,
                    ) == ciphertext@ ==> (opened matches Ok(v) && v@ == p)
            },
    {
        let keys = match &self.keys {
            None => return Err(ChannelError::CipherNotInitialized),
            Some(keys) => *keys,
        };
        let nonce = nonce_bytes(self.recv_nonce_count);
        match chacha_open(&keys.recv, &nonce, ciphertext) {
            Ok(pt) => {
                self.recv_nonce_count = self.recv_nonce_count + 1;
                Ok(pt)
            },
            Err(_) => Err(ChannelError::CipherEncrypt),
        }
    }
}

impl ClientConnection {
    /// `decrypt`, unless this side has already received `u32::MAX` messages
    /// with keys in place: then nothing happens and `None` comes back, since
    /// one more message would overflow the receive counter.
    pub fn try_decrypt(&mut self, ciphertext: &[u8]) -> (opened: Option<Result<Vec<u8>, ChannelError>>)
        ensures
            (old(self)@.keys is Some && old(self)@.recv_nonce == u32::MAX) ==> opened is None
                && final(self)@ == old(self)@,
            !(old(self)@.keys is Some && old(self)@.recv_nonce == u32::MAX) ==> opened is Some,
            old(self)@.keys is None ==> opened == Some(Err::<Vec<u8>, ChannelError>(ChannelError::CipherNotInitialized))
                && final(self)@ == old(self)@,
            old(self)@.recv_nonce < u32::MAX ==> (old(self)@.keys matches Some(k) ==> {
                let expected = chacha20poly1305_open(
                    k.recv@,
                    nonce_spec(old(self)@.recv_nonce),
                    ciphertext@,
                );
                &&& expected is None ==> opened == Some(Err::<Vec<u8>, ChannelError>(ChannelError::CipherEncrypt))
                    && final(self)@ == old(self)@
                &&& expected matches Some(p) ==> (opened matches Some(Ok(v)) && v@ == p && final(self)@
                    == (ConnectionView { recv_nonce: (old(self)@.recv_nonce + 1) as u32, ..old(self)@ }))
            }),
    {
        if self.keys.is_some() && self.recv_nonce_count == u32::MAX {
            return None;
        }
        Some(self.decrypt(ciphertext))
    }
}

// ---------------------------------------------------------------------------
// The client's side of the channel.
// ---------------------------------------------------------------------------

/// The client's channel state: message counters of both directions and the
/// keys once the server's handshake reply has arrived.
pub struct ClientCipher {
    pub send_nonce: u32,
    pub recv_nonce: u32,
    pub keys: Option<SessionKeys>,
}

impl ClientCipher {
    /// No keys yet, both counters at zero.
    pub fn new() -> (c: Self)
        ensures
            c.send_nonce == 0,
            c.recv_nonce == 0,
            c.keys is None,
    {
        ClientCipher { send_nonce: 0, recv_nonce: 0, keys: None }
    }

    /// Takes the server's handshake reply: derives the client keys from the
    /// server public key it carries and restarts the receive counter.
    pub fn accept_handshake(&mut self, client_secret: &[u8; 32], reply: &[u8; 96])
        ensures
            final(self).send_nonce == old(self).send_nonce,
            final(self).recv_nonce == 0,
            final(self).keys matches Some(k) && keys_view(k) == client_keys_spec(
                client_secret@,
                reply@.subrange(0, 32),
            ),
            forall|s: Seq<u8>|
                s.len() == 32 && #[trigger] x25519_public_key(s) == reply@.subrange(0, 32) ==> {
                    let server = server_keys_spec(s, x25519_public_key(client_secret@));
                    final(self).keys matches Some(k) && k.send@ == server.1 && k.recv@ == server.0
                },
    {
        let server_public = handshake_public_key(reply);
        self.keys = Some(derive_client_keys(client_secret, &server_public));
        self.recv_nonce = 0;
    }

    /// Seals an outgoing message under the next send counter, which advances
    /// whether or not the cipher accepts the message. Without keys nothing
    /// happens and `None` comes back.
    pub fn seal_outgoing(&mut self, plaintext: &[u8]) -> (sealed: Option<Vec<u8>>)
        requires
            old(self).keys is Some ==> old(self).send_nonce < u32::MAX,
        ensures
            old(self).keys is None ==> sealed is None && final(self).send_nonce == old(self).send_nonce,
            old(self).keys matches Some(k) ==> {
                &&& final(self).send_nonce == old(self).send_nonce + 1
                &&& sealed matches Some(ct) ==> ct@ == chacha20poly1305_seal(
                    k.send@,
                    nonce_spec(old(self).send_nonce),
                    plaintext@,
                )
                &&& sealed is None ==> plaintext@.len() >= MAX_SEAL_LEN
            },
            final(self).recv_nonce == old(self).recv_nonce,
            final(self).keys == old(self).keys,
    {
        let keys = match &self.keys {
            None => return None,
            Some(keys) => *keys,
        };
        let counter = self.send_nonce;
        self.send_nonce = self.send_nonce + 1;
        let nonce = nonce_bytes(counter);
        match chacha_seal(&keys.send, &nonce, plaintext) {
            Ok(ct) => Some(ct),
            Err(_) => None,
        }
    }

    /// Opens an incoming message under the next receive counter, which
    /// advances whether or not the message opens. Without keys nothing
    /// happens and `None` comes back.
    pub fn open_incoming(&mut self, ciphertext: &[u8]) -> (opened: Option<Vec<u8>>)
        requires
            old(self).keys is Some ==> old(self).recv_nonce < u32::MAX,
        ensures
            old(self).keys is None ==> opened is None && final(self).recv_nonce == old(self).recv_nonce,
            old(self).keys matches Some(k) ==> {
                let expected = chacha20poly1305_open(
                    k.recv@,
                    nonce_spec(old(self).recv_nonce),
                    ciphertext@,
                );
                &&& final(self).recv_nonce == old(self).recv_nonce + 1
                &&& expected is None ==> opened is None
                &&& expected matches Some(p) ==> (opened matches Some(v) && v@ == p)
                &&& forall|p: Seq<u8>|
                    p.len() < MAX_SEAL_LEN && #[trigger] chacha20poly1305_seal(
                        k.recv@,
                        nonce_spec(old(self).recv_nonce),
                        p,
                    ) == ciphertext@ ==> (opened matches Some(v) && v@ == p)
            },
            final(self).send_nonce == old(self).send_nonce,
            final(self).keys == old(self).keys,
    {
        let keys = match &self.keys {
            None => return None,
            Some(keys) => *keys,
        };
        let counter = self.recv_nonce;
        self.recv_nonce = self.recv_nonce + 1;
        let nonce = nonce_bytes(counter);
        match chacha_open(&keys.recv, &nonce, ciphertext) {
            Ok(pt) => Some(pt),
            Err(_) => None,
        }
    }
}

} // verus!
