//! The opaque crypto service this core consumes: identity keys, nonces, and
//! the NaCl `crypto_box` authenticated-encryption primitive.
//!
//! What the primitives compute is not restated here; their results are named
//! by uninterpreted spec functions, and the trusted wrappers around the
//! `crypto_box` crate state only what that crate's source and documentation
//! plainly show.

use crypto_box::aead::Aead;
use vstd::prelude::*;

verus! {

/// Number of bytes in an identity (public) key.
pub const PUBLICKEYBYTES: usize = 32;

/// Number of bytes in a secret key.
pub const SECRETKEYBYTES: usize = 32;

/// Number of bytes in a nonce.
pub const NONCEBYTES: usize = 24;

/// Number of bytes the authentication tag adds to a sealed plaintext.
pub const MACBYTES: usize = 16;

/// A 32-byte identity key: both a node's identity and its coordinate in the
/// XOR metric space.
#[derive(Clone, Copy, PartialEq, Eq, Debug)]
pub struct PublicKey(pub [u8; 32]);

impl View for PublicKey {
    type V = Seq<u8>;

    open spec fn view(&self) -> Seq<u8> {
        self.0@
    }
}

impl PublicKey {
    /// Build a key from a 32-byte slice; fails on any other length.
    pub fn from_slice(bytes: &[u8]) -> (r: Option<PublicKey>)
        ensures
            match r {
                Some(pk) => bytes@.len() == 32 && pk@ == bytes@,
                None => bytes@.len() != 32,
            },
    {
        if bytes.len() != 32 {
            return None;
        }
        let mut a: [u8; 32] = [0; 32];
        let mut i: usize = 0;
        while i < 32
            invariant
                i <= 32,
                bytes@.len() == 32,
                forall|j: int| 0 <= j < i ==> a@[j] == bytes@[j],
            decreases 32 - i,
        {
            a[i] = bytes[i];
            i += 1;
        }
        proof {
            assert(a@ =~= bytes@);
        }
        Some(PublicKey(a))
    }
}

/// A 32-byte secret key.
#[derive(Clone, Copy)]
pub struct SecretKey(pub [u8; 32]);

impl View for SecretKey {
    type V = Seq<u8>;

    open spec fn view(&self) -> Seq<u8> {
        self.0@
    }
}

/// A 24-byte nonce, generated fresh for every outgoing sealed packet.
#[derive(Clone, Copy, PartialEq, Eq, Debug)]
pub struct Nonce(pub [u8; 24]);

impl View for Nonce {
    type V = Seq<u8>;

    open spec fn view(&self) -> Seq<u8> {
        self.0@
    }
}

/// The public key that the X25519 base-point multiplication derives from a
/// secret key. Named only: computing it is the crypto service's business.
pub uninterp spec fn pk_of(sk: Seq<u8>) -> Seq<u8>;

/// The shared key that X25519 Diffie-Hellman derives from a public and a
/// secret key.
pub uninterp spec fn shared_of(pk: Seq<u8>, sk: Seq<u8>) -> Seq<u8>;

/// The ciphertext that `crypto_box` sealing produces from a plaintext, a
/// nonce and a shared key.
pub uninterp spec fn seal_of(plain: Seq<u8>, nonce: Seq<u8>, key: Seq<u8>) -> Seq<u8>;

/// What `crypto_box` opening yields from a ciphertext, a nonce and a shared
/// key: the plaintext, or nothing when authentication fails.
pub uninterp spec fn open_of(cipher: Seq<u8>, nonce: Seq<u8>, key: Seq<u8>) -> Option<Seq<u8>>;

/// The mathematical content of a precomputed key: the key pair it was
/// derived from.
pub struct PrecomputedKeyV {
    pub pk: Seq<u8>,
    pub sk: Seq<u8>,
}

impl PrecomputedKeyV {
    /// The shared key this precomputed key embodies.
    pub open spec fn key(self) -> Seq<u8> {
        shared_of(self.pk, self.sk)
    }
}

/// The symmetric key precomputed from a remote public key and a local secret
/// key, under which payloads are sealed and opened.
pub struct PrecomputedKey {
    pk: PublicKey,
    sk: SecretKey,
}

impl View for PrecomputedKey {
    type V = PrecomputedKeyV;

    closed spec fn view(&self) -> PrecomputedKeyV {
        PrecomputedKeyV { pk: self.pk@, sk: self.sk@ }
    }
}

/// Derive the shared secret of a remote public key and a local secret key.
pub fn precompute(pk: &PublicKey, sk: &SecretKey) -> (r: PrecomputedKey)
    ensures
        r@ == (PrecomputedKeyV { pk: pk@, sk: sk@ }),
{
    PrecomputedKey { pk: *pk, sk: *sk }
}

/// Relies on `getrandom::fill`: fills the array with bytes from the operating
/// system's entropy source; nothing is promised of the values. Aborts only if
/// that source is unavailable, as OS random generators conventionally do.
#[verifier::external_body]
fn random_array<const N: usize>() -> [u8; N] {
    let mut bytes = [0u8; N];
    getrandom::fill(&mut bytes).expect("OS entropy source unavailable");
    bytes
}

/// Relies on `getrandom::u64`: a uniformly random integer from the operating
/// system's entropy source; nothing is promised of the value. Aborts only if
/// that source is unavailable.
#[verifier::external_body]
pub fn random_u64() -> u64 {
    getrandom::u64().expect("OS entropy source unavailable")
}

/// Relies on `crypto_box::SecretKey::public_key` (X25519 base-point
/// multiplication): the public key is a function of the secret key bytes
/// alone, here named `pk_of`.
#[verifier::external_body]
fn pk_bytes_of(sk: &SecretKey) -> (r: PublicKey)
    ensures
        r@ == pk_of(sk@),
{
    PublicKey(crypto_box::SecretKey::from(sk.0).public_key().to_bytes())
}

/// Generate a fresh identity key pair. The secret half is random; the public
/// half is the one the crypto service derives from it.
pub fn gen_keypair() -> (r: (PublicKey, SecretKey))
    ensures
        r.0@ == pk_of(r.1@),
{
    let sk = SecretKey(random_array::<32>());
    let pk = pk_bytes_of(&sk);
    (pk, sk)
}

/// Generate a fresh random nonce.
pub fn gen_nonce() -> Nonce {
    Nonce(random_array::<24>())
}

/// Relies on `crypto_box::SalsaBox::{new, encrypt}` (the NaCl `crypto_box`
/// primitive): sealing is deterministic in plaintext, nonce and derived
/// shared key; the ciphertext is the 16-byte Poly1305 tag followed by the
/// masked plaintext; opening with the same parameters returns the plaintext;
/// and the holder of the secret key matching the remote public key derives
/// the same shared key, so opening on that side returns the plaintext too.
/// With no associated data, sealing never fails.
#[verifier::external_body]
fn seal_box(plain: &[u8], nonce: &Nonce, key: &PrecomputedKey) -> (r: Vec<u8>)
    requires
        plain@.len() + 16 <= usize::MAX,
    ensures
        r@ == seal_of(plain@, nonce@, key@.key()),
        r@.len() == plain@.len() + 16,
        open_of(r@, nonce@, key@.key()) == Some(plain@),
        forall|sk2: Seq<u8>| key@.pk == #[trigger] pk_of(sk2) ==> open_of(
            r@,
            nonce@,
            shared_of(pk_of(key@.sk), sk2),
        ) == Some(plain@),
{
    let sbox = crypto_box::SalsaBox::new(
        &crypto_box::PublicKey::from(key.pk.0),
        &crypto_box::SecretKey::from(key.sk.0),
    );
    sbox.encrypt((&nonce.0).into(), plain).expect("sealing without associated data cannot fail")
}

/// Relies on `crypto_box::SalsaBox::{new, decrypt}` (the NaCl `crypto_box`
/// primitive): opening is deterministic in ciphertext, nonce and derived
/// shared key; it fails on a ciphertext shorter than the 16-byte tag or on an
/// authentication mismatch, and otherwise returns the plaintext, 16 bytes
/// shorter than the ciphertext.
#[verifier::external_body]
fn open_box(cipher: &[u8], nonce: &Nonce, key: &PrecomputedKey) -> (r: Option<Vec<u8>>)
    ensures
        match r {
            Some(p) => open_of(cipher@, nonce@, key@.key()) == Some(p@) && p@.len() + 16
                == cipher@.len(),
            None => open_of(cipher@, nonce@, key@.key()) is None,
        },
{
    let sbox = crypto_box::SalsaBox::new(
        &crypto_box::PublicKey::from(key.pk.0),
        &crypto_box::SecretKey::from(key.sk.0),
    );
    sbox.decrypt((&nonce.0).into(), cipher).ok()
}

/// Seal a plaintext under a precomputed shared key.
pub fn seal_precomputed(plain: &Vec<u8>, nonce: &Nonce, key: &PrecomputedKey) -> (r: Vec<u8>)
    requires
        plain@.len() + 16 <= usize::MAX,
    ensures
        r@ == seal_of(plain@, nonce@, key@.key()),
        r@.len() == plain@.len() + 16,
        open_of(r@, nonce@, key@.key()) == Some(plain@),
        forall|sk2: Seq<u8>| key@.pk == #[trigger] pk_of(sk2) ==> open_of(
            r@,
            nonce@,
            shared_of(pk_of(key@.sk), sk2),
        ) == Some(plain@),
{
    seal_box(plain.as_slice(), nonce, key)
}

/// Open a ciphertext under a precomputed shared key; fails closed on any
/// authentication failure.
pub fn open_precomputed(cipher: &Vec<u8>, nonce: &Nonce, key: &PrecomputedKey) -> (r: Option<
    Vec<u8>,
>)
    ensures
        match r {
            Some(p) => open_of(cipher@, nonce@, key@.key()) == Some(p@) && p@.len() + 16
                == cipher@.len(),
            None => open_of(cipher@, nonce@, key@.key()) is None,
        },
{
    open_box(cipher.as_slice(), nonce, key)
}

/// Open a ciphertext given the sender's public key and the receiver's secret
/// key.
pub fn open(cipher: &Vec<u8>, nonce: &Nonce, pk: &PublicKey, sk: &SecretKey) -> (r: Option<
    Vec<u8>,
>)
    ensures
        match r {
            Some(p) => open_of(cipher@, nonce@, shared_of(pk@, sk@)) == Some(p@) && p@.len() + 16
                == cipher@.len(),
            None => open_of(cipher@, nonce@, shared_of(pk@, sk@)) is None,
        },
{
    let key = precompute(pk, sk);
    open_precomputed(cipher, nonce, &key)
}

} // verus!
