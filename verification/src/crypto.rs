use vstd::prelude::*;

use crate::codec::dec_u64;
use crate::codec::enc_u64;
use crate::codec::le8;
use ed25519_dalek::Signer;
use ed25519_dalek::Verifier;

verus! {

/// The verdict of parsing `pk` and `sig` as an Ed25519 key and signature and
/// verifying `sig` over `msg`: a deterministic function of the three byte
/// strings alone.
pub uninterp spec fn sig_verify_ok(pk: Seq<u8>, msg: Seq<u8>, sig: Seq<u8>) -> bool;

/// The Ed25519 signature over `msg` by the secret key `sk`; Ed25519 signing
/// is deterministic, so this depends on the two byte strings alone.
pub uninterp spec fn sig_of(sk: Seq<u8>, msg: Seq<u8>) -> Seq<u8>;

/// The Ed25519 public key derived from the 32-byte secret key `sk`.
pub uninterp spec fn pk_of(sk: Seq<u8>) -> Seq<u8>;

/// The SHA-256 digest of `data`.
pub uninterp spec fn sha256_of(data: Seq<u8>) -> Seq<u8>;

/// A public key, held as four little-endian 64-bit words of its 32 bytes.
#[derive(Clone, Copy, Debug, PartialEq, Eq, Structural)]
pub struct PublicKey {
    pub w0: u64,
    pub w1: u64,
    pub w2: u64,
    pub w3: u64,
}

/// A secret signing key, held as four little-endian 64-bit words.
#[derive(Clone, Copy, Debug, PartialEq, Eq, Structural)]
pub struct SecretKey {
    pub w0: u64,
    pub w1: u64,
    pub w2: u64,
    pub w3: u64,
}

/// A signature, held as eight little-endian 64-bit words of its 64 bytes.
#[derive(Clone, Copy, Debug, PartialEq, Eq, Structural)]
pub struct Signature {
    pub w0: u64,
    pub w1: u64,
    pub w2: u64,
    pub w3: u64,
    pub w4: u64,
    pub w5: u64,
    pub w6: u64,
    pub w7: u64,
}

/// A 32-byte digest, held as four little-endian 64-bit words.
#[derive(Clone, Copy, Debug, PartialEq, Eq, Structural)]
pub struct BitDigest {
    pub w0: u64,
    pub w1: u64,
    pub w2: u64,
    pub w3: u64,
}

impl PublicKey {
    /// The 32 bytes this key stands for.
    pub open spec fn bytes(self) -> Seq<u8> {
        le8(self.w0) + le8(self.w1) + le8(self.w2) + le8(self.w3)
    }
}

impl SecretKey {
    /// The 32 bytes this key stands for.
    pub open spec fn bytes(self) -> Seq<u8> {
        le8(self.w0) + le8(self.w1) + le8(self.w2) + le8(self.w3)
    }
}

impl Signature {
    /// The 64 bytes this signature stands for.
    pub open spec fn bytes(self) -> Seq<u8> {
        le8(self.w0) + le8(self.w1) + le8(self.w2) + le8(self.w3) + le8(self.w4) + le8(self.w5)
            + le8(self.w6) + le8(self.w7)
    }
}

impl BitDigest {
    /// The 32 bytes this digest stands for.
    pub open spec fn bytes(self) -> Seq<u8> {
        le8(self.w0) + le8(self.w1) + le8(self.w2) + le8(self.w3)
    }

    /// The all-zero digest that a fresh ledger starts from.
    pub fn zero() -> (r: BitDigest)
        ensures
            r == (BitDigest { w0: 0, w1: 0, w2: 0, w3: 0 }),
    {
        BitDigest { w0: 0, w1: 0, w2: 0, w3: 0 }
    }
}

/// The byte string of a public key, for hashing and signing.
pub fn public_key_bytes(k: &PublicKey) -> (r: Vec<u8>)
    ensures
        r@ == k.bytes(),
        r@.len() == 32,
{
    let mut v: Vec<u8> = Vec::new();
    enc_u64(&mut v, k.w0);
    enc_u64(&mut v, k.w1);
    enc_u64(&mut v, k.w2);
    enc_u64(&mut v, k.w3);
    proof {
        assert(v@ =~= k.bytes());
    }
    v
}

/// The byte string of a secret key.
fn secret_key_bytes(k: &SecretKey) -> (r: Vec<u8>)
    ensures
        r@ == k.bytes(),
        r@.len() == 32,
{
    let mut v: Vec<u8> = Vec::new();
    enc_u64(&mut v, k.w0);
    enc_u64(&mut v, k.w1);
    enc_u64(&mut v, k.w2);
    enc_u64(&mut v, k.w3);
    proof {
        assert(v@ =~= k.bytes());
    }
    v
}

/// The byte string of a signature.
pub fn signature_bytes(s: &Signature) -> (r: Vec<u8>)
    ensures
        r@ == s.bytes(),
        r@.len() == 64,
{
    let mut v: Vec<u8> = Vec::new();
    enc_u64(&mut v, s.w0);
    enc_u64(&mut v, s.w1);
    enc_u64(&mut v, s.w2);
    enc_u64(&mut v, s.w3);
    enc_u64(&mut v, s.w4);
    enc_u64(&mut v, s.w5);
    enc_u64(&mut v, s.w6);
    enc_u64(&mut v, s.w7);
    proof {
        assert(v@ =~= s.bytes());
    }
    v
}

/// The byte string of a digest, for chaining into further hashes.
pub fn digest_bytes(d: &BitDigest) -> (r: Vec<u8>)
    ensures
        r@ == d.bytes(),
        r@.len() == 32,
{
    let mut v: Vec<u8> = Vec::new();
    enc_u64(&mut v, d.w0);
    enc_u64(&mut v, d.w1);
    enc_u64(&mut v, d.w2);
    enc_u64(&mut v, d.w3);
    proof {
        assert(v@ =~= d.bytes());
    }
    v
}

/// Repack a 64-byte string as a signature value.
fn signature_of_vec(v: &Vec<u8>) -> (r: Signature)
    requires
        v@.len() == 64,
    ensures
        r.bytes() == v@,
{
    let w0 = dec_u64(v, 0).unwrap().0;
    let w1 = dec_u64(v, 8).unwrap().0;
    let w2 = dec_u64(v, 16).unwrap().0;
    let w3 = dec_u64(v, 24).unwrap().0;
    let w4 = dec_u64(v, 32).unwrap().0;
    let w5 = dec_u64(v, 40).unwrap().0;
    let w6 = dec_u64(v, 48).unwrap().0;
    let w7 = dec_u64(v, 56).unwrap().0;
    let r = Signature { w0, w1, w2, w3, w4, w5, w6, w7 };
    proof {
        assert(r.bytes() =~= v@);
    }
    r
}

/// Repack a 32-byte string as a public key value.
fn public_key_of_vec(v: &Vec<u8>) -> (r: PublicKey)
    requires
        v@.len() == 32,
    ensures
        r.bytes() == v@,
{
    let w0 = dec_u64(v, 0).unwrap().0;
    let w1 = dec_u64(v, 8).unwrap().0;
    let w2 = dec_u64(v, 16).unwrap().0;
    let w3 = dec_u64(v, 24).unwrap().0;
    let r = PublicKey { w0, w1, w2, w3 };
    proof {
        assert(r.bytes() =~= v@);
    }
    r
}

/// Repack a 32-byte string as a digest value.
fn digest_of_vec(v: &Vec<u8>) -> (r: BitDigest)
    requires
        v@.len() == 32,
    ensures
        r.bytes() == v@,
{
    let w0 = dec_u64(v, 0).unwrap().0;
    let w1 = dec_u64(v, 8).unwrap().0;
    let w2 = dec_u64(v, 16).unwrap().0;
    let w3 = dec_u64(v, 24).unwrap().0;
    let r = BitDigest { w0, w1, w2, w3 };
    proof {
        assert(r.bytes() =~= v@);
    }
    r
}

/// Relies on ed25519-dalek: `VerifyingKey::from_bytes`, `Signature::from_bytes`
/// and `Verifier::verify`. The verdict — false as well when the key bytes do
/// not decode — is a deterministic function of the three byte strings.
#[verifier::external_body]
fn ed25519_verify(pk: &Vec<u8>, msg: &Vec<u8>, sig: &Vec<u8>) -> (r: bool)
    ensures
        r == sig_verify_ok(pk@, msg@, sig@),
{
    let pkb: [u8; 32] = match pk.as_slice().try_into() {
        Ok(b) => b,
        Err(_) => return false,
    };
    let sgb: [u8; 64] = match sig.as_slice().try_into() {
        Ok(b) => b,
        Err(_) => return false,
    };
    match ed25519_dalek::VerifyingKey::from_bytes(&pkb) {
        Ok(vk) => vk.verify(msg.as_slice(), &ed25519_dalek::Signature::from_bytes(&sgb)).is_ok(),
        Err(_) => false,
    }
}

/// Relies on ed25519-dalek: `SigningKey::from_bytes` and `Signer::sign`.
/// RFC 8032 signing is deterministic, and the signature it produces verifies
/// under the corresponding public key.
#[verifier::external_body]
fn ed25519_sign(sk: &Vec<u8>, msg: &Vec<u8>) -> (r: Vec<u8>)
    requires
        sk@.len() == 32,
    ensures
        r@.len() == 64,
        r@ == sig_of(sk@, msg@),
        sig_verify_ok(pk_of(sk@), msg@, r@),
{
    let skb: [u8; 32] = sk.as_slice().try_into().unwrap();
    let sig = ed25519_dalek::SigningKey::from_bytes(&skb).sign(msg.as_slice());
    sig.to_bytes().to_vec()
}

/// Relies on ed25519-dalek: `SigningKey::from_bytes` and
/// `SigningKey::verifying_key`, which derive the public key from the secret
/// key bytes alone.
#[verifier::external_body]
fn ed25519_public_key(sk: &Vec<u8>) -> (r: Vec<u8>)
    requires
        sk@.len() == 32,
    ensures
        r@.len() == 32,
        r@ == pk_of(sk@),
{
    let skb: [u8; 32] = sk.as_slice().try_into().unwrap();
    ed25519_dalek::SigningKey::from_bytes(&skb).verifying_key().to_bytes().to_vec()
}

/// Relies on sha2: `Sha256::digest`, a pure function of the input bytes that
/// always returns 32 bytes.
#[verifier::external_body]
fn sha256_digest(data: &Vec<u8>) -> (r: Vec<u8>)
    ensures
        r@.len() == 32,
        r@ == sha256_of(data@),
{
    <sha2::Sha256 as sha2::Digest>::digest(data.as_slice()).as_slice().to_vec()
}

/// Check `sig` over `msg` under `pk`.
pub fn verify_signature(pk: &PublicKey, msg: &Vec<u8>, sig: &Signature) -> (r: bool)
    ensures
        r == sig_verify_ok(pk.bytes(), msg@, sig.bytes()),
{
    ed25519_verify(&public_key_bytes(pk), msg, &signature_bytes(sig))
}

/// Sign `msg` with `sk`.
pub fn sign_message(sk: &SecretKey, msg: &Vec<u8>) -> (r: Signature)
    ensures
        r.bytes() == sig_of(sk.bytes(), msg@),
        sig_verify_ok(pk_of(sk.bytes()), msg@, r.bytes()),
{
    let sig = ed25519_sign(&secret_key_bytes(sk), msg);
    signature_of_vec(&sig)
}

/// The public key that `sk` signs for.
pub fn public_of_secret(sk: &SecretKey) -> (r: PublicKey)
    ensures
        r.bytes() == pk_of(sk.bytes()),
{
    let pk = ed25519_public_key(&secret_key_bytes(sk));
    public_key_of_vec(&pk)
}

/// The SHA-256 digest of `data`, as a digest value.
pub fn hash_bytes(data: &Vec<u8>) -> (r: BitDigest)
    ensures
        r.bytes() == sha256_of(data@),
{
    let d = sha256_digest(data);
    digest_of_vec(&d)
}

} // verus!
