//! The client's session with the server: the handshake goes out first,
//! nothing is sealed before the server's reply, every outgoing message is
//! sealed under the next value of one send counter that starts at 0, and
//! incoming messages open under a receive counter that counts them in
//! arrival order. The socket, and turning packets into bytes and back, are
//! the caller's.
use vstd::prelude::*;
use crate::channel::{
    chacha20poly1305_open, chacha20poly1305_seal, client_handshake, client_keys_spec, keys_view,
    nonce_spec, x25519_public_key, ClientCipher, MAX_SEAL_LEN,
};
use crate::controls::AutoFireLatch;
use crate::packets::{wire_id_spec, PacketKind, PACKET_SEED};

verus! {

/// What the session state holds: the keys (send, receive) once the server
/// replied, both counters, the plaintexts sealed so far in order (the `i`th
/// under counter `i`), and the last automatic-fire setting sent.
pub struct SessionView {
    pub keys: Option<(Seq<u8>, Seq<u8>)>,
    pub send_nonce: u32,
    pub recv_nonce: u32,
    pub sealed: Seq<Seq<u8>>,
    pub last_auto_fire: bool,
}

/// The client end of a session.
pub struct ClientSession {
    cipher: ClientCipher,
    latch: AutoFireLatch,
    secret: [u8; 32],
    sealed: Ghost<Seq<Seq<u8>>>,
}

/// What arrived on the socket, as far as the session can tell.
pub enum Incoming {
    /// An empty message: nothing to do.
    Empty,
    /// No keys yet: the bytes should be the server's handshake reply.
    AwaitingHandshake,
    /// The message did not open under the expected counter.
    Undecryptable,
    /// An opened packet of a known kind, its bytes (id byte first).
    Packet(PacketKind, Vec<u8>),
    /// An opened packet whose id byte names no kind.
    Unknown(Vec<u8>),
}

impl View for ClientSession {
    type V = SessionView;

    closed spec fn view(&self) -> SessionView {
        SessionView {
            keys: match self.cipher.keys {
                Some(k) => Some((k.send@, k.recv@)),
                None => None,
            },
            send_nonce: self.cipher.send_nonce,
            recv_nonce: self.cipher.recv_nonce,
            sealed: self.sealed@,
            last_auto_fire: self.latch.last,
        }
    }
}

/// The session's bookkeeping: one sealed plaintext per send counter value
/// used, and both counters at zero until the server replied.
pub open spec fn session_wf(v: SessionView) -> bool {
    &&& v.send_nonce == v.sealed.len()
    &&& v.keys is None ==> v.send_nonce == 0 && v.recv_nonce == 0
}

/// The next outgoing plaintext `p` sealed: with keys `k`, under the send
/// counter, `None` only when `p` is too long for the cipher.
pub open spec fn sealed_as(k: (Seq<u8>, Seq<u8>), counter: u32, p: Seq<u8>, ct: Option<Vec<u8>>) -> bool {
    &&& ct matches Some(c) ==> c@ == chacha20poly1305_seal(k.0, nonce_spec(counter), p)
    &&& ct is None ==> p.len() >= MAX_SEAL_LEN
}

/// The payloads an entity update draws counters for: movement and aim,
/// then automatic fire when its setting changed.
pub open spec fn drawn_after(last: bool, auto_fire: bool, movement: Seq<u8>, aim: Seq<u8>, fire: Seq<u8>) -> Seq<Seq<u8>> {
    if auto_fire != last {
        seq![movement, aim, fire]
    } else {
        seq![movement, aim]
    }
}

/// When every drawn payload fits the cipher, `out` holds each of them
/// sealed with the send key under consecutive counters from `n`.
pub open spec fn all_sealed_in_order(k: (Seq<u8>, Seq<u8>), n: u32, drawn: Seq<Seq<u8>>, out: Seq<Vec<u8>>) -> bool {
    (forall|i: int| 0 <= i < drawn.len() ==> #[trigger] drawn[i].len() < MAX_SEAL_LEN) ==> {
        &&& out.len() == drawn.len()
        &&& forall|i: int|
            0 <= i < drawn.len() ==> (#[trigger] out[i])@ == chacha20poly1305_seal(
                k.0,
                nonce_spec((n + i) as u32),
                drawn[i],
            )
    }
}

impl ClientSession {
    /// Whether the session's bookkeeping holds.
    pub closed spec fn wf(&self) -> bool {
        &&& session_wf(self@)
        &&& self.cipher.keys matches Some(k) ==> self@.keys == Some((k.send@, k.recv@))
    }

    /// Opens a session with the client's secret: returns it and the
    /// handshake payload to send before anything else (the public key of
    /// `secret`, then `padding`). No keys yet; both counters at zero.
    pub fn new(secret: [u8; 32], padding: &[u8; 64]) -> (started: (ClientSession, [u8; 96]))
        ensures
            started.0.wf(),
            started.0@.keys is None,
            started.0@.send_nonce == 0,
            started.0@.recv_nonce == 0,
            started.0@.sealed == Seq::<Seq<u8>>::empty(),
            !started.0@.last_auto_fire,
            started.1@ == x25519_public_key(secret@) + padding@,
    {
        let handshake = client_handshake(&secret, padding);
        let s = ClientSession {
            cipher: ClientCipher::new(),
            latch: AutoFireLatch::new(),
            secret,
            sealed: Ghost(Seq::empty()),
        };
        (s, handshake)
    }

    /// Whether the server's reply has arrived.
    pub fn is_established(&self) -> (up: bool)
        requires
            self.wf(),
        ensures
            up == self@.keys is Some,
    {
        self.cipher.keys.is_some()
    }

    /// Takes the server's handshake reply, once: the keys come from it and
    /// the receive counter starts at zero. A reply after the first is
    /// ignored (`false`).
    pub fn on_server_handshake(&mut self, reply: &[u8; 96]) -> (taken: bool)
        requires
            old(self).wf(),
        ensures
            final(self).wf(),
            taken == old(self)@.keys is None,
            !taken ==> final(self)@ == old(self)@,
            taken ==> {
                &&& final(self)@.keys matches Some(k) && k.0 == client_keys_spec(
                    old(self).secret_spec(),
                    reply@.subrange(0, 32),
                ).0 && k.1 == client_keys_spec(old(self).secret_spec(), reply@.subrange(0, 32)).1
                &&& final(self)@.recv_nonce == 0
                &&& final(self)@.send_nonce == 0
                &&& final(self)@.sealed == old(self)@.sealed
                &&& final(self)@.last_auto_fire == old(self)@.last_auto_fire
            },
            final(self).secret_spec() == old(self).secret_spec(),
    {
        if self.cipher.keys.is_some() {
            return false;
        }
        let secret = self.secret;
        self.cipher.accept_handshake(&secret, reply);
        proof {
            let k = self.cipher.keys->0;
            assert(keys_view(k) == client_keys_spec(secret@, reply@.subrange(0, 32)));
        }
        true
    }

    /// The client's secret.
    pub closed spec fn secret_spec(&self) -> Seq<u8> {
        self.secret@
    }

    /// Seals `plaintext` under the next send counter (which advances) and
    /// records it; without keys nothing happens.
    fn seal(&mut self, plaintext: &[u8]) -> (ct: Option<Vec<u8>>)
        requires
            old(self).wf(),
            old(self)@.send_nonce < u32::MAX,
        ensures
            final(self).wf(),
            final(self).secret_spec() == old(self).secret_spec(),
            final(self)@.keys == old(self)@.keys,
            final(self)@.recv_nonce == old(self)@.recv_nonce,
            final(self)@.last_auto_fire == old(self)@.last_auto_fire,
            old(self)@.keys is None ==> ct is None && final(self)@ == old(self)@,
            old(self)@.keys matches Some(k) ==> {
                &&& final(self)@.sealed == old(self)@.sealed.push(plaintext@)
                &&& final(self)@.send_nonce == old(self)@.send_nonce + 1
                &&& sealed_as(k, old(self)@.send_nonce, plaintext@, ct)
            },
    {
        let ct = self.cipher.seal_outgoing(plaintext);
        if self.cipher.keys.is_some() {
            proof {
                self.sealed@ = self.sealed@.push(plaintext@);
            }
        }
        ct
    }

    /// Seals a spawn request, unless the player is already in the game
    /// (then nothing is drawn and `None` comes back) or the server has not
    /// replied yet (also `None`).
    pub fn spawn_request(&mut self, in_game: bool, payload: &[u8]) -> (ct: Option<Vec<u8>>)
        requires
            old(self).wf(),
            old(self)@.send_nonce < u32::MAX,
        ensures
            final(self).wf(),
            final(self).secret_spec() == old(self).secret_spec(),
            final(self)@.keys == old(self)@.keys,
            final(self)@.recv_nonce == old(self)@.recv_nonce,
            final(self)@.last_auto_fire == old(self)@.last_auto_fire,
            (in_game || old(self)@.keys is None) ==> ct is None && final(self)@ == old(self)@,
            !in_game && old(self)@.keys is Some ==> {
                &&& final(self)@.sealed == old(self)@.sealed.push(payload@)
                &&& final(self)@.send_nonce == old(self)@.send_nonce + 1
                &&& sealed_as(old(self)@.keys->0, old(self)@.send_nonce, payload@, ct)
            },
    {
        if in_game {
            return None;
        }
        self.seal(payload)
    }

    /// After an entity update: seals the movement and the aim payloads, then
    /// the automatic-fire payload if the setting changed since last sent,
    /// each under the next send counter. Returns what sealed, in that order
    /// (a payload too long for the cipher uses its counter but is left
    /// out). Without keys nothing happens.
    pub fn after_update(
        &mut self,
        movement: &[u8],
        aim: &[u8],
        auto_fire: bool,
        auto_fire_payload: &[u8],
    ) -> (out: Vec<Vec<u8>>)
        requires
            old(self).wf(),
            old(self)@.keys is Some ==> old(self)@.send_nonce + drawn_after(
                old(self)@.last_auto_fire,
                auto_fire,
                movement@,
                aim@,
                auto_fire_payload@,
            ).len() <= u32::MAX,
        ensures
            final(self).wf(),
            final(self).secret_spec() == old(self).secret_spec(),
            final(self)@.keys == old(self)@.keys,
            final(self)@.recv_nonce == old(self)@.recv_nonce,
            old(self)@.keys is None ==> out@.len() == 0 && final(self)@ == old(self)@,
            old(self)@.keys is Some ==> final(self)@.last_auto_fire == auto_fire,
            old(self)@.keys is Some ==> final(self)@.sealed == old(self)@.sealed + drawn_after(
                old(self)@.last_auto_fire,
                auto_fire,
                movement@,
                aim@,
                auto_fire_payload@,
            ),
            old(self)@.keys is Some ==> out@.len() <= drawn_after(
                old(self)@.last_auto_fire,
                auto_fire,
                movement@,
                aim@,
                auto_fire_payload@,
            ).len(),
            old(self)@.keys is Some ==> all_sealed_in_order(
                old(self)@.keys->0,
                old(self)@.send_nonce,
                drawn_after(old(self)@.last_auto_fire, auto_fire, movement@, aim@, auto_fire_payload@),
                out@,
            ),
    {
        let mut out: Vec<Vec<u8>> = Vec::new();
        if !self.is_established() {
            return out;
        }
        let ghost k = self@.keys->0;
        let ghost n = self@.send_nonce;
        let ghost s0 = self@.sealed;
        let m = self.seal(movement);
        let ghost m_ct = m;
        if let Some(c) = m {
            out.push(c);
        }
        let ghost after_m = out@;
        let a = self.seal(aim);
        let ghost a_ct = a;
        if let Some(c) = a {
            out.push(c);
        }
        let ghost after_a = out@;
        let send_fire = self.latch.update(auto_fire);
        let mut f: Option<Vec<u8>> = None;
        if let Some(_) = send_fire {
            f = self.seal(auto_fire_payload);
            if let Some(c) = &f {
                out.push(c.clone());
            }
        }
        proof {
            let changed = auto_fire != old(self)@.last_auto_fire;
            let drawn = drawn_after(old(self)@.last_auto_fire, auto_fire, movement@, aim@, auto_fire_payload@);
            if changed {
                assert(self@.sealed =~= s0 + drawn);
            } else {
                assert(self@.sealed =~= s0 + drawn);
            }
            if forall|i: int| 0 <= i < drawn.len() ==> #[trigger] drawn[i].len() < MAX_SEAL_LEN {
                assert(drawn[0] == movement@);
                assert(drawn[1] == aim@);
                assert(m_ct is Some);
                assert(a_ct is Some);
                assert(after_m.len() == 1);
                assert(after_a.len() == 2);
                if changed {
                    assert(drawn[2] == auto_fire_payload@);
                    assert(f is Some);
                    assert(out@.len() == 3);
                } else {
                    assert(out@.len() == 2);
                }
                assert forall|i: int| 0 <= i < drawn.len() implies (#[trigger] out@[i])@ == chacha20poly1305_seal(
                    k.0,
                    nonce_spec((n + i) as u32),
                    drawn[i],
                ) by {
                    if i == 0 {
                        assert(out@[0] == after_m[0]);
                    } else if i == 1 {
                        assert(out@[1] == after_a[1]);
                    }
                }
            }
            assert(self@.last_auto_fire == auto_fire);
            assert(out@.len() <= drawn.len());
            assert(s0 == old(self)@.sealed);
            assert(k == old(self)@.keys->0);
            assert(n == old(self)@.send_nonce);
            assert(self@.sealed == old(self)@.sealed + drawn);
            assert(self@.send_nonce == n + drawn.len());
            assert(all_sealed_in_order(k, n, drawn, out@));
        }
        out
    }

    /// Takes what arrived on the socket. Without keys the bytes are the
    /// server's handshake reply, for the caller to decode. With keys they
    /// open under the receive counter, which advances for every non-empty
    /// message; the opened packet's id byte names its kind.
    pub fn on_bytes(&mut self, bytes: &[u8]) -> (got: Incoming)
        requires
            old(self).wf(),
            old(self)@.recv_nonce < u32::MAX,
        ensures
            final(self).wf(),
            final(self).secret_spec() == old(self).secret_spec(),
            final(self)@.keys == old(self)@.keys,
            final(self)@.send_nonce == old(self)@.send_nonce,
            final(self)@.sealed == old(self)@.sealed,
            final(self)@.last_auto_fire == old(self)@.last_auto_fire,
            bytes@.len() == 0 ==> got is Empty && final(self)@ == old(self)@,
            bytes@.len() > 0 && old(self)@.keys is None ==> got is AwaitingHandshake && final(self)@
                == old(self)@,
            bytes@.len() > 0 && old(self)@.keys is Some ==> {
                let k = old(self)@.keys->0;
                let opened = chacha20poly1305_open(k.1, nonce_spec(old(self)@.recv_nonce), bytes@);
                &&& final(self)@.recv_nonce == old(self)@.recv_nonce + 1
                &&& opened is None ==> got is Undecryptable
                &&& opened matches Some(p) ==> {
                    &&& p.len() == 0 ==> got is Empty
                    &&& p.len() > 0 ==> match got {
                        Incoming::Packet(kind, v) => v@ == p && wire_id_spec(kind) == p[0],
                        Incoming::Unknown(v) => v@ == p && (p[0] ^ PACKET_SEED) >= 10,
                        _ => false,
                    }
                }
            },
    {
        if bytes.len() == 0 {
            return Incoming::Empty;
        }
        if !self.is_established() {
            return Incoming::AwaitingHandshake;
        }
        match self.cipher.open_incoming(bytes) {
            None => Incoming::Undecryptable,
            Some(pt) => {
                if pt.len() == 0 {
                    Incoming::Empty
                } else {
                    match PacketKind::from_wire_id(pt[0]) {
                        Some(kind) => Incoming::Packet(kind, pt),
                        None => Incoming::Unknown(pt),
                    }
                }
            },
        }
    }
}

/// Nothing is sealed before the server's handshake reply: while a session
/// has no keys, no message has drawn a send counter.
pub proof fn law_nothing_sealed_before_handshake(v: SessionView)
    requires
        session_wf(v),
        v.keys is None,
    ensures
        v.sealed.len() == 0,
        v.send_nonce == 0,
{
}

/// Every sealed message has a send counter of its own: the `i`th message
/// sealed in a session used counter `i`, and distinct messages never share
/// a nonce.
pub proof fn law_one_nonce_per_message(v: SessionView, i: int, j: int)
    requires
        session_wf(v),
        0 <= i < v.sealed.len(),
        0 <= j < v.sealed.len(),
        i != j,
    ensures
        nonce_spec(i as u32) != nonce_spec(j as u32),
{
    crate::channel::law_nonces_distinct(i as u32, j as u32);
}

} // verus!
