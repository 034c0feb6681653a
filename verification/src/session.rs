//! The secure session protocol: the handshake that derives one 256-bit
//! session key on each side from a hybrid X25519 + key-encapsulation
//! exchange, and the per-connection AEAD framing whose nonces are built
//! from two independent monotonic counters.

use vstd::prelude::*;

use crate::codec::{spec_u64_be, write_u64_be};
use crate::crypto::{
    aead_decrypt, aead_encrypt, chacha_enc, hkdf_sha256_expand32, hkdf_sha256_of,
    kyber_decap_of, kyber_decapsulate, kyber_encapsulate, kyber_generate_keypair, kyber_pk_of,
    x25519_dh, x25519_generate_secret, x25519_pk_of, x25519_public_of, x25519_shared_secret,
    AEAD_KEY_LEN, AEAD_TAG_LEN, KEM_SK_LEN, X25519_SK_LEN,
};
use crate::wire::{spec_hello_bytes, ClientHello, ServerHello, KEM_CT_LEN, KEM_PK_LEN};

verus! {

/// What ends a handshake or an established session, always fatally for the
/// connection.
#[derive(Clone, Copy, Debug, PartialEq, Eq, Structural)]
pub enum SessionError {
    /// The peer's hello could not be parsed, or a key had the wrong size.
    MalformedHello,
    /// Key encapsulation could not draw randomness.
    KeyExchangeFailed,
    /// The AEAD refused to encrypt (plaintext beyond the cipher's limit).
    EncryptionFailed,
    /// Authentication-tag verification failed: tampering or replay.
    DecryptionFailed,
}

/// The fixed application-specific info string of the key derivation.
pub open spec fn spec_hs_info() -> Seq<u8> {
    seq![109u8, 117u8, 109u8, 117u8]
}

/// Builds the key-derivation info string.
fn hs_info() -> (r: Vec<u8>)
    ensures
        r@ == spec_hs_info(),
{
    let mut v: Vec<u8> = Vec::new();
    v.push(109);
    v.push(117);
    v.push(109);
    v.push(117);
    assert(v@ =~= spec_hs_info());
    v
}

/// The 12 nonce bytes of a counter value: four zero bytes, then the counter
/// big-endian.
pub open spec fn spec_nonce_bytes(counter: u64) -> Seq<u8> {
    seq![0u8, 0u8, 0u8, 0u8] + spec_u64_be(counter)
}

/// Builds the nonce bytes of a counter value.
pub fn make_nonce(counter: u64) -> (r: Vec<u8>)
    ensures
        r@ == spec_nonce_bytes(counter),
        r@.len() == 12,
{
    let mut v: Vec<u8> = Vec::new();
    v.push(0);
    v.push(0);
    v.push(0);
    v.push(0);
    write_u64_be(&mut v, counter);
    assert(v@ =~= spec_nonce_bytes(counter));
    v
}

/// Distinct counter values never build the same nonce, so a counter that
/// only grows never reuses a nonce.
pub proof fn lemma_nonce_unique(c1: u64, c2: u64)
    requires
        c1 != c2,
    ensures
        spec_nonce_bytes(c1) != spec_nonce_bytes(c2),
{
    if spec_nonce_bytes(c1) == spec_nonce_bytes(c2) {
        assert(spec_nonce_bytes(c1).subrange(4, 12) =~= spec_u64_be(c1));
        assert(spec_nonce_bytes(c2).subrange(4, 12) =~= spec_u64_be(c2));
        crate::codec::lemma_u64_be_injective(c1, c2);
    }
}

/// The session key a client derives from its two secret keys and the two
/// fields of the server's hello: HKDF-SHA256 over the X25519 shared secret
/// concatenated with the decapsulated secret, under the fixed info string.
pub open spec fn spec_session_key(
    x_sk: Seq<u8>,
    kem_sk: Seq<u8>,
    sh_x_pk: Seq<u8>,
    sh_kem_ct: Seq<u8>,
) -> Seq<u8> {
    hkdf_sha256_of(x25519_dh(x_sk, sh_x_pk) + kyber_decap_of(sh_kem_ct, kem_sk), spec_hs_info())
}

/// Per-connection symmetric state after the handshake: the session key and
/// the two independent nonce counters, one per direction.
pub struct SessionCrypto {
    pub key: Vec<u8>,
    pub send_nonce: u64,
    pub recv_nonce: u64,
}

impl SessionCrypto {
    /// A usable session holds a full-size key.
    pub open spec fn wf(self) -> bool {
        self.key@.len() == AEAD_KEY_LEN
    }

    /// Builds the session state of a freshly derived key: both counters
    /// start at zero.
    pub fn new(key: Vec<u8>) -> (r: SessionCrypto)
        requires
            key@.len() == AEAD_KEY_LEN,
        ensures
            r.wf(),
            r.key@ == key@,
            r.send_nonce == 0,
            r.recv_nonce == 0,
    {
        SessionCrypto { key, send_nonce: 0, recv_nonce: 0 }
    }

    /// The current send counter.
    pub fn get_send_nonce(&self) -> (r: u64)
        ensures
            r == self.send_nonce,
    {
        self.send_nonce
    }

    /// The current receive counter.
    pub fn get_recv_nonce(&self) -> (r: u64)
        ensures
            r == self.recv_nonce,
    {
        self.recv_nonce
    }

    /// Encrypts one outbound message under the current send counter, which
    /// advances by exactly one whatever the outcome, so no nonce is ever
    /// reused; the counter never wraps.
    pub fn encrypt(&mut self, plaintext: &Vec<u8>) -> (r: Result<Vec<u8>, SessionError>)
        requires
            old(self).wf(),
            old(self).send_nonce < u64::MAX,
        ensures
            final(self).wf(),
            final(self).key@ == old(self).key@,
            final(self).recv_nonce == old(self).recv_nonce,
            final(self).send_nonce == old(self).send_nonce + 1,
            match r {
                Ok(ct) => ct@ == chacha_enc(
                    old(self).key@,
                    spec_nonce_bytes(old(self).send_nonce),
                    plaintext@,
                ) && ct@.len() == plaintext@.len() + AEAD_TAG_LEN,
                Err(e) => e == SessionError::EncryptionFailed,
            },
            plaintext@.len() <= u32::MAX ==> r is Ok,
    {
        let nonce = make_nonce(self.send_nonce);
        self.send_nonce = self.send_nonce + 1;
        match aead_encrypt(&self.key, &nonce, plaintext) {
            Some(ct) => Ok(ct),
            None => Err(SessionError::EncryptionFailed),
        }
    }

    /// Decrypts one inbound message under the current receive counter, which
    /// advances by exactly one whatever the outcome. Success means the
    /// ciphertext is authentic for this key and counter: exactly what the
    /// peer's encryption at the same counter produces from the returned
    /// plaintext — and such a ciphertext always decrypts to it.
    pub fn decrypt(&mut self, ciphertext: &Vec<u8>) -> (r: Result<Vec<u8>, SessionError>)
        requires
            old(self).wf(),
            old(self).recv_nonce < u64::MAX,
        ensures
            final(self).wf(),
            final(self).key@ == old(self).key@,
            final(self).send_nonce == old(self).send_nonce,
            final(self).recv_nonce == old(self).recv_nonce + 1,
            match r {
                Ok(pt) => ciphertext@ == chacha_enc(
                    old(self).key@,
                    spec_nonce_bytes(old(self).recv_nonce),
                    pt@,
                ) && (forall|q: Seq<u8>|
                    ciphertext@ == chacha_enc(
                        old(self).key@,
                        spec_nonce_bytes(old(self).recv_nonce),
                        q,
                    ) ==> q == pt@),
                Err(e) => e == SessionError::DecryptionFailed && forall|pt: Seq<u8>|
                    ciphertext@ != chacha_enc(
                        old(self).key@,
                        spec_nonce_bytes(old(self).recv_nonce),
                        pt,
                    ),
            },
    {
        let nonce = make_nonce(self.recv_nonce);
        self.recv_nonce = self.recv_nonce + 1;
        match aead_decrypt(&self.key, &nonce, ciphertext) {
            Some(pt) => Ok(pt),
            None => Err(SessionError::DecryptionFailed),
        }
    }
}

/// A client's secret keys between sending its hello and completing the
/// handshake.
pub struct HandshakeState {
    pub x25519_secret: Vec<u8>,
    pub kyber_secret: Vec<u8>,
}

impl HandshakeState {
    /// Both secrets have their fixed sizes.
    pub open spec fn wf(self) -> bool {
        self.x25519_secret@.len() == X25519_SK_LEN && self.kyber_secret@.len() == KEM_SK_LEN
    }
}

/// A client's handshake state together with the serialized hello that
/// announces the matching public keys.
pub struct HandshakeStateAndMessage {
    pub state: HandshakeState,
    pub message: Vec<u8>,
}

impl HandshakeStateAndMessage {
    /// The message is the hello of exactly the state's two secrets, whose
    /// public keys have their fixed sizes.
    pub open spec fn wf(self) -> bool {
        &&& self.state.wf()
        &&& x25519_pk_of(self.state.x25519_secret@).len() == 32
        &&& kyber_pk_of(self.state.kyber_secret@).len() == KEM_PK_LEN
        &&& self.message@ == spec_hello_bytes(
            x25519_pk_of(self.state.x25519_secret@),
            kyber_pk_of(self.state.kyber_secret@),
        )
    }

    /// The serialized hello, for the caller to send.
    pub fn message(&self) -> (r: Vec<u8>)
        ensures
            r@ == self.message@,
    {
        let mut out: Vec<u8> = Vec::new();
        crate::codec::write_bytes(&mut out, &self.message);
        assert(out@ =~= self.message@);
        out
    }

    /// Completes the handshake held by this state; see
    /// [`HandshakeState::complete_handshake`].
    pub fn complete_handshake(self, server_hello_bytes: &Vec<u8>) -> (r: Result<
        SessionCrypto,
        SessionError,
    >)
        requires
            self.wf(),
        ensures
            match r {
                Ok(sc) => sc.wf() && sc.send_nonce == 0 && sc.recv_nonce == 0 && exists|
                    sh: ServerHello,
                |
                    {
                        &&& #[trigger] sh.wf()
                        &&& sh.kyber_ct@.len() == KEM_CT_LEN
                        &&& server_hello_bytes@ == sh.spec_bytes()
                        &&& sc.key@ == spec_session_key(
                            self.state.x25519_secret@,
                            self.state.kyber_secret@,
                            sh.x25519_pk@,
                            sh.kyber_ct@,
                        )
                    },
                Err(e) => e == SessionError::MalformedHello,
            },
            forall|pk: Seq<u8>, ct: Seq<u8>|
                pk.len() == 32 && ct.len() == KEM_CT_LEN && server_hello_bytes@
                    == #[trigger] spec_hello_bytes(pk, ct) ==> r is Ok,
    {
        self.state.complete_handshake(server_hello_bytes)
    }
}

impl HandshakeState {
    /// Generates the client's ephemeral X25519 secret and key-encapsulation
    /// keypair and serializes the hello carrying both public keys; fails
    /// only when key generation can draw no randomness.
    pub fn create_client_hello() -> (r: Result<HandshakeStateAndMessage, SessionError>)
        ensures
            match r {
                Ok(hm) => hm.wf(),
                Err(e) => e == SessionError::KeyExchangeFailed,
            },
    {
        let x_sk = x25519_generate_secret();
        let x_pk = x25519_public_of(&x_sk);
        let keys = match kyber_generate_keypair() {
            Some(k) => k,
            None => {
                return Err(SessionError::KeyExchangeFailed);
            },
        };
        let (kem_pk, kem_sk) = keys;
        let hello = ClientHello { x25519_pk: x_pk, kyber_pk: kem_pk };
        let message = hello.encode();
        let state = HandshakeState { x25519_secret: x_sk, kyber_secret: kem_sk };
        Ok(HandshakeStateAndMessage { state, message })
    }

    /// Parses the server's hello, checks the encapsulation ciphertext's
    /// size, and derives the session key from the X25519 shared secret and
    /// the decapsulated secret. Fails exactly on a malformed hello or a
    /// wrong-size ciphertext.
    pub fn complete_handshake(self, server_hello_bytes: &Vec<u8>) -> (r: Result<
        SessionCrypto,
        SessionError,
    >)
        requires
            self.wf(),
        ensures
            match r {
                Ok(sc) => sc.wf() && sc.send_nonce == 0 && sc.recv_nonce == 0 && exists|
                    sh: ServerHello,
                |
                    {
                        &&& #[trigger] sh.wf()
                        &&& sh.kyber_ct@.len() == KEM_CT_LEN
                        &&& server_hello_bytes@ == sh.spec_bytes()
                        &&& sc.key@ == spec_session_key(
                            self.x25519_secret@,
                            self.kyber_secret@,
                            sh.x25519_pk@,
                            sh.kyber_ct@,
                        )
                    },
                Err(e) => e == SessionError::MalformedHello,
            },
            forall|pk: Seq<u8>, ct: Seq<u8>|
                pk.len() == 32 && ct.len() == KEM_CT_LEN && server_hello_bytes@
                    == #[trigger] spec_hello_bytes(pk, ct) ==> r is Ok,
    {
        let sh = match ServerHello::decode(server_hello_bytes) {
            Some(sh) => sh,
            None => {
                proof {
                    assert forall|pk: Seq<u8>, ct: Seq<u8>|
                        pk.len() == 32 && ct.len() == KEM_CT_LEN implies server_hello_bytes@
                        != #[trigger] spec_hello_bytes(pk, ct) by {
                        assert(ct.len() <= u32::MAX);
                    }
                }
                return Err(SessionError::MalformedHello);
            },
        };
        if sh.kyber_ct.len() != KEM_CT_LEN {
            proof {
                lemma_hello_bytes_injective();
                assert forall|pk: Seq<u8>, ct: Seq<u8>|
                    pk.len() == 32 && ct.len() == KEM_CT_LEN implies server_hello_bytes@
                    != #[trigger] spec_hello_bytes(pk, ct) by {
                    if server_hello_bytes@ == spec_hello_bytes(pk, ct) {
                        assert(server_hello_bytes@ == spec_hello_bytes(
                            sh.x25519_pk@,
                            sh.kyber_ct@,
                        ));
                        assert(ct == sh.kyber_ct@);
                    }
                }
            }
            return Err(SessionError::MalformedHello);
        }
        let x_shared = x25519_shared_secret(&self.x25519_secret, &sh.x25519_pk);
        let kem_shared = kyber_decapsulate(&sh.kyber_ct, &self.kyber_secret);
        let mut combined: Vec<u8> = Vec::new();
        crate::codec::write_bytes(&mut combined, &x_shared);
        crate::codec::write_bytes(&mut combined, &kem_shared);
        let key = hkdf_sha256_expand32(&combined, &hs_info());
        let sc = SessionCrypto::new(key);
        proof {
            assert(combined@ =~= x25519_dh(self.x25519_secret@, sh.x25519_pk@) + kyber_decap_of(
                sh.kyber_ct@,
                self.kyber_secret@,
            ));
        }
        Ok(sc)
    }
}

/// Runs the server side of the handshake on a received client hello:
/// validates the hello and its encapsulation key's size (failing the
/// handshake otherwise), performs the X25519 exchange and the key
/// encapsulation, and derives the session key. On success the returned
/// session key is exactly the key the hello's owner derives from the
/// returned server hello — both sides of the exchange end with one key.
pub fn perform_handshake(client_hello_bytes: &Vec<u8>) -> (r: Result<
    (ServerHello, SessionCrypto),
    SessionError,
>)
    ensures
        match r {
            Ok(p) => {
                &&& p.0.wf()
                &&& p.0.kyber_ct@.len() == KEM_CT_LEN
                &&& p.1.wf()
                &&& p.1.send_nonce == 0
                &&& p.1.recv_nonce == 0
                &&& forall|x_sk: Seq<u8>, kem_sk: Seq<u8>|
                    x_sk.len() == X25519_SK_LEN && x25519_pk_of(x_sk).len() == 32
                        && client_hello_bytes@ == #[trigger] spec_hello_bytes(
                        x25519_pk_of(x_sk),
                        kyber_pk_of(kem_sk),
                    ) && kyber_pk_of(kem_sk).len() == KEM_PK_LEN ==> p.1.key@ == spec_session_key(
                        x_sk,
                        kem_sk,
                        p.0.x25519_pk@,
                        p.0.kyber_ct@,
                    )
            },
            Err(e) => e == SessionError::MalformedHello || e == SessionError::KeyExchangeFailed,
        },
        (forall|pk: Seq<u8>, blob: Seq<u8>|
            pk.len() == 32 && blob.len() == KEM_PK_LEN ==> client_hello_bytes@
                != spec_hello_bytes(pk, blob)) ==> (r matches Err(
            SessionError::MalformedHello,
        )),
        forall|pk: Seq<u8>, kpk: Seq<u8>|
            pk.len() == 32 && kpk.len() == KEM_PK_LEN && client_hello_bytes@
                == #[trigger] spec_hello_bytes(pk, kpk) ==> !(r matches Err(
                SessionError::MalformedHello,
            )),
{
    let hello = match ClientHello::decode(client_hello_bytes) {
        Some(h) => h,
        None => {
            proof {
                assert forall|pk: Seq<u8>, kpk: Seq<u8>|
                    pk.len() == 32 && kpk.len() == KEM_PK_LEN implies client_hello_bytes@
                    != #[trigger] spec_hello_bytes(pk, kpk) by {
                    assert(kpk.len() <= u32::MAX);
                }
            }
            return Err(SessionError::MalformedHello);
        },
    };
    if hello.kyber_pk.len() != KEM_PK_LEN {
        proof {
            lemma_hello_bytes_injective();
            assert forall|pk: Seq<u8>, kpk: Seq<u8>|
                pk.len() == 32 && kpk.len() == KEM_PK_LEN implies client_hello_bytes@
                != #[trigger] spec_hello_bytes(pk, kpk) by {
                if client_hello_bytes@ == spec_hello_bytes(pk, kpk) {
                    assert(client_hello_bytes@ == spec_hello_bytes(
                        hello.x25519_pk@,
                        hello.kyber_pk@,
                    ));
                    assert(kpk == hello.kyber_pk@);
                }
            }
        }
        return Err(SessionError::MalformedHello);
    }
    let x_sk = x25519_generate_secret();
    let x_pk = x25519_public_of(&x_sk);
    let x_shared = x25519_shared_secret(&x_sk, &hello.x25519_pk);
    let encap = match kyber_encapsulate(&hello.kyber_pk) {
        Some(p) => p,
        None => {
            return Err(SessionError::KeyExchangeFailed);
        },
    };
    let (kem_ct, kem_shared) = encap;
    let mut combined: Vec<u8> = Vec::new();
    crate::codec::write_bytes(&mut combined, &x_shared);
    crate::codec::write_bytes(&mut combined, &kem_shared);
    let key = hkdf_sha256_expand32(&combined, &hs_info());
    let sc = SessionCrypto::new(key);
    let sh = ServerHello { x25519_pk: x_pk, kyber_ct: kem_ct };
    proof {
        lemma_hello_bytes_injective();
        assert forall|c_x_sk: Seq<u8>, c_kem_sk: Seq<u8>|
            c_x_sk.len() == X25519_SK_LEN && x25519_pk_of(c_x_sk).len() == 32
                && client_hello_bytes@ == #[trigger] spec_hello_bytes(
                x25519_pk_of(c_x_sk),
                kyber_pk_of(c_kem_sk),
            ) && kyber_pk_of(c_kem_sk).len() == KEM_PK_LEN implies sc.key@ == spec_session_key(
            c_x_sk,
            c_kem_sk,
            sh.x25519_pk@,
            sh.kyber_ct@,
        ) by {
            assert(client_hello_bytes@ == spec_hello_bytes(hello.x25519_pk@, hello.kyber_pk@));
            assert(hello.x25519_pk@ == x25519_pk_of(c_x_sk) && hello.kyber_pk@ == kyber_pk_of(
                c_kem_sk,
            ));
            assert(x_shared@ == x25519_dh(c_x_sk, x25519_pk_of(x_sk@)));
            assert(kem_shared@ == kyber_decap_of(kem_ct@, c_kem_sk));
            assert(combined@ =~= x25519_dh(c_x_sk, sh.x25519_pk@) + kyber_decap_of(
                sh.kyber_ct@,
                c_kem_sk,
            ));
        }
    }
    Ok((sh, sc))
}

/// Two hellos with equal bytes carry the same keys: the first 32 bytes are
/// the X25519 key and the remainder the length-prefixed blob.
proof fn lemma_hello_bytes_injective()
    ensures
        forall|a: Seq<u8>, b: Seq<u8>, c: Seq<u8>, d: Seq<u8>|
            a.len() == 32 && c.len() == 32 && #[trigger] spec_hello_bytes(a, b)
                == #[trigger] spec_hello_bytes(c, d) ==> a == c && b == d,
{
    assert forall|a: Seq<u8>, b: Seq<u8>, c: Seq<u8>, d: Seq<u8>|
        a.len() == 32 && c.len() == 32 && #[trigger] spec_hello_bytes(a, b)
            == #[trigger] spec_hello_bytes(c, d) implies a == c && b == d by {
        let s = spec_hello_bytes(a, b);
        assert(a =~= s.subrange(0, 32));
        assert(c =~= s.subrange(0, 32));
        assert(b =~= s.subrange(36, s.len() as int));
        assert(d =~= s.subrange(36, s.len() as int));
    }
}

/// The keys of a completed exchange agree: a server key that matches every
/// pair of client secrets whose hello it answered equals the key the actual
/// client derives from the returned server hello. Together with the
/// contracts of `perform_handshake` and `complete_handshake`, both sides of
/// one handshake end with the same session key.
pub proof fn lemma_handshake_key_agreement(
    x_sk: Seq<u8>,
    kem_sk: Seq<u8>,
    client_hello: Seq<u8>,
    sh_x_pk: Seq<u8>,
    sh_kem_ct: Seq<u8>,
    server_key: Seq<u8>,
)
    requires
        x_sk.len() == X25519_SK_LEN,
        x25519_pk_of(x_sk).len() == 32,
        kyber_pk_of(kem_sk).len() == KEM_PK_LEN,
        client_hello == spec_hello_bytes(x25519_pk_of(x_sk), kyber_pk_of(kem_sk)),
        forall|a: Seq<u8>, b: Seq<u8>|
            a.len() == X25519_SK_LEN && x25519_pk_of(a).len() == 32 && client_hello
                == #[trigger] spec_hello_bytes(
                x25519_pk_of(a),
                kyber_pk_of(b),
            ) && kyber_pk_of(b).len() == KEM_PK_LEN ==> server_key == spec_session_key(
                a,
                b,
                sh_x_pk,
                sh_kem_ct,
            ),
    ensures
        server_key == spec_session_key(x_sk, kem_sk, sh_x_pk, sh_kem_ct),
{
}

} // verus!
