//! Trusted boundary to the cryptographic primitives: X25519 key agreement,
//! Kyber key encapsulation, HKDF-SHA256 key derivation, and the
//! ChaCha20-Poly1305 AEAD. Each wrapper makes exactly one call into the
//! outside crate; what those calls return is named by uninterpreted spec
//! functions, and every contract states only what the crates' sources and
//! documentation show.

use vstd::prelude::*;

use chacha20poly1305::aead::{Aead, KeyInit};

verus! {

/// Length in bytes of an X25519 secret key.
pub const X25519_SK_LEN: usize = 32;

/// Length in bytes of the key-encapsulation secret key.
pub const KEM_SK_LEN: usize = 2400;

/// Length in bytes of an AEAD session key.
pub const AEAD_KEY_LEN: usize = 32;

/// Length in bytes of an AEAD nonce.
pub const AEAD_NONCE_LEN: usize = 12;

/// Length in bytes of the AEAD authentication tag appended to a ciphertext.
pub const AEAD_TAG_LEN: usize = 16;

/// The X25519 public key belonging to a 32-byte secret key.
pub uninterp spec fn x25519_pk_of(sk: Seq<u8>) -> Seq<u8>;

/// The X25519 shared secret computed from one side's secret key and the
/// other side's public key.
pub uninterp spec fn x25519_dh(sk: Seq<u8>, pk: Seq<u8>) -> Seq<u8>;

/// The public key belonging to a key-encapsulation secret key produced by
/// key generation.
pub uninterp spec fn kyber_pk_of(sk: Seq<u8>) -> Seq<u8>;

/// The shared secret recovered by decapsulating a ciphertext with a secret
/// key.
pub uninterp spec fn kyber_decap_of(ct: Seq<u8>, sk: Seq<u8>) -> Seq<u8>;

/// The 32-byte key that HKDF-SHA256 (no salt) expands from the given input
/// key material and info string.
pub uninterp spec fn hkdf_sha256_of(ikm: Seq<u8>, info: Seq<u8>) -> Seq<u8>;

/// The ChaCha20-Poly1305 ciphertext (body followed by its 16-byte tag) of a
/// plaintext under a 32-byte key and 12-byte nonce, with no associated data.
pub uninterp spec fn chacha_enc(key: Seq<u8>, nonce: Seq<u8>, pt: Seq<u8>) -> Seq<u8>;

/// Relies on x25519_dalek::StaticSecret::random_from_rng with the operating
/// system's entropy source: the secret is 32 random bytes. Nothing further
/// can be said of a random value.
#[verifier::external_body]
pub fn x25519_generate_secret() -> (sk: Vec<u8>)
    ensures
        sk@.len() == X25519_SK_LEN,
{
    let secret = x25519_dalek::StaticSecret::random_from_rng(rand_core::OsRng);
    secret.to_bytes().to_vec()
}

/// Relies on x25519_dalek::PublicKey::from(&StaticSecret): the public key is
/// a function of the secret key's bytes alone.
#[verifier::external_body]
pub fn x25519_public_of(sk: &Vec<u8>) -> (pk: Vec<u8>)
    requires
        sk@.len() == X25519_SK_LEN,
    ensures
        pk@ == x25519_pk_of(sk@),
        pk@.len() == 32,
{
    let mut a = [0u8; 32];
    a.copy_from_slice(sk.as_slice());
    let secret = x25519_dalek::StaticSecret::from(a);
    let public = x25519_dalek::PublicKey::from(&secret);
    public.as_bytes().to_vec()
}

/// Relies on x25519_dalek::StaticSecret::diffie_hellman: the shared secret
/// is a function of the two keys' bytes alone, and Diffie-Hellman key
/// agreement on Curve25519 gives both sides the same secret — the secret
/// computed from a secret key and a peer's public key equals the one the
/// peer computes from its own secret key and the first key's public key.
#[verifier::external_body]
pub fn x25519_shared_secret(sk: &Vec<u8>, pk: &Vec<u8>) -> (ss: Vec<u8>)
    requires
        sk@.len() == X25519_SK_LEN,
        pk@.len() == 32,
    ensures
        ss@ == x25519_dh(sk@, pk@),
        ss@.len() == 32,
        forall|sk2: Seq<u8>|
            sk2.len() == X25519_SK_LEN && pk@ == x25519_pk_of(sk2) ==> ss@ == x25519_dh(
                sk2,
                x25519_pk_of(sk@),
            ),
{
    let mut a = [0u8; 32];
    a.copy_from_slice(sk.as_slice());
    let mut b = [0u8; 32];
    b.copy_from_slice(pk.as_slice());
    let shared = x25519_dalek::StaticSecret::from(a).diffie_hellman(
        &x25519_dalek::PublicKey::from(b),
    );
    shared.as_bytes().to_vec()
}

/// Relies on pqc_kyber::keypair with the operating system's entropy source:
/// on success the keys have the library's fixed sizes and the public key is
/// the one belonging to the secret key.
#[verifier::external_body]
pub fn kyber_generate_keypair() -> (r: Option<(Vec<u8>, Vec<u8>)>)
    ensures
        match r {
            Some(keys) => keys.0@.len() == crate::wire::KEM_PK_LEN && keys.1@.len() == KEM_SK_LEN
                && keys.0@ == kyber_pk_of(keys.1@),
            None => true,
        },
{
    match pqc_kyber::keypair(&mut rand_core::OsRng) {
        Ok(keys) => Some((keys.public.to_vec(), keys.secret.to_vec())),
        Err(_) => None,
    }
}

/// Relies on pqc_kyber::encapsulate with the operating system's entropy
/// source: on success the ciphertext and shared secret have the library's
/// fixed sizes, and — as the library documents of its KEM — decapsulating
/// the ciphertext with the secret key the public key belongs to recovers
/// the same shared secret, whatever randomness encapsulation drew.
#[verifier::external_body]
pub fn kyber_encapsulate(pk: &Vec<u8>) -> (r: Option<(Vec<u8>, Vec<u8>)>)
    requires
        pk@.len() == crate::wire::KEM_PK_LEN,
    ensures
        match r {
            Some(p) => p.0@.len() == crate::wire::KEM_CT_LEN && p.1@.len() == 32 && (forall|sk: Seq<u8>|
                pk@ == kyber_pk_of(sk) ==> p.1@ == kyber_decap_of(p.0@, sk)),
            None => true,
        },
{
    match pqc_kyber::encapsulate(pk.as_slice(), &mut rand_core::OsRng) {
        Ok((ct, ss)) => Some((ct.to_vec(), ss.to_vec())),
        Err(_) => None,
    }
}

/// Relies on pqc_kyber::decapsulate: with a full-size ciphertext and secret
/// key it always returns a 32-byte shared secret, a function of its two
/// arguments alone (a ciphertext that never came from the matching public
/// key yields the library's deterministic rejection value).
#[verifier::external_body]
pub fn kyber_decapsulate(ct: &Vec<u8>, sk: &Vec<u8>) -> (ss: Vec<u8>)
    requires
        ct@.len() == crate::wire::KEM_CT_LEN,
        sk@.len() == KEM_SK_LEN,
    ensures
        ss@ == kyber_decap_of(ct@, sk@),
        ss@.len() == 32,
{
    match pqc_kyber::decapsulate(ct.as_slice(), sk.as_slice()) {
        Ok(ss) => ss.to_vec(),
        Err(_) => Vec::new(),
    }
}

/// Relies on hkdf::Hkdf::<sha2::Sha256>::new (no salt) and expand: the
/// 32-byte output is a function of the input key material and the info
/// string alone, and expanding to 32 bytes never fails.
#[verifier::external_body]
pub fn hkdf_sha256_expand32(ikm: &Vec<u8>, info: &Vec<u8>) -> (okm: Vec<u8>)
    ensures
        okm@ == hkdf_sha256_of(ikm@, info@),
        okm@.len() == AEAD_KEY_LEN,
{
    let hk = hkdf::Hkdf::<sha2::Sha256>::new(None, ikm.as_slice());
    let mut okm = [0u8; 32];
    hk.expand(info.as_slice(), &mut okm).expect("32 bytes is a valid HKDF-SHA256 output length");
    okm.to_vec()
}

/// Relies on chacha20poly1305::ChaCha20Poly1305 encryption (Aead::encrypt,
/// no associated data): the ciphertext is a function of key, nonce and
/// plaintext alone; it is the plaintext's length plus the 16-byte tag; and
/// encryption succeeds for any plaintext shorter than the cipher's block
/// limit, far above the 32-bit lengths this protocol frames.
#[verifier::external_body]
pub fn aead_encrypt(key: &Vec<u8>, nonce: &Vec<u8>, pt: &Vec<u8>) -> (r: Option<Vec<u8>>)
    requires
        key@.len() == AEAD_KEY_LEN,
        nonce@.len() == AEAD_NONCE_LEN,
    ensures
        match r {
            Some(ct) => ct@ == chacha_enc(key@, nonce@, pt@) && ct@.len() == pt@.len()
                + AEAD_TAG_LEN,
            None => true,
        },
        pt@.len() <= u32::MAX ==> r is Some,
{
    let cipher = chacha20poly1305::ChaCha20Poly1305::new(chacha20poly1305::Key::from_slice(
        key.as_slice(),
    ));
    cipher.encrypt(chacha20poly1305::Nonce::from_slice(nonce.as_slice()), pt.as_slice()).ok()
}

/// Relies on chacha20poly1305::ChaCha20Poly1305 decryption (Aead::decrypt,
/// no associated data). Success means the ciphertext is authentic: it is
/// exactly what encryption under this key and nonce produces from the
/// returned plaintext. Conversely, a ciphertext that encryption produced
/// decrypts back to the plaintext it came from.
#[verifier::external_body]
pub fn aead_decrypt(key: &Vec<u8>, nonce: &Vec<u8>, ct: &Vec<u8>) -> (r: Option<Vec<u8>>)
    requires
        key@.len() == AEAD_KEY_LEN,
        nonce@.len() == AEAD_NONCE_LEN,
    ensures
        match r {
            Some(pt) => ct@ == chacha_enc(key@, nonce@, pt@) && (forall|q: Seq<u8>|
                ct@ == chacha_enc(key@, nonce@, q) ==> q == pt@),
            None => forall|q: Seq<u8>| ct@ != chacha_enc(key@, nonce@, q),
        },
{
    let cipher = chacha20poly1305::ChaCha20Poly1305::new(chacha20poly1305::Key::from_slice(
        key.as_slice(),
    ));
    cipher.decrypt(chacha20poly1305::Nonce::from_slice(nonce.as_slice()), ct.as_slice()).ok()
}

} // verus!
