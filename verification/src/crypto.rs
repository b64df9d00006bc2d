//! Hybrid post-quantum authentication: ML-DSA-44 detached signatures over
//! the canonical body serialization.

use vstd::prelude::*;
use pqcrypto_traits::sign::DetachedSignature as DetachedSignatureTrait;
use pqcrypto_traits::sign::PublicKey as PublicKeyTrait;
use pqcrypto_traits::sign::SecretKey as SecretKeyTrait;
use crate::types::{HybridTx, TxView};
use crate::codec::{tx_body_enc, encode_tx_body};

verus! {

/// Byte length of an ML-DSA-44 public key.
pub const PQ_PUBLICKEY_BYTES: usize = 1312;

/// Byte length of an ML-DSA-44 secret key.
pub const PQ_SECRETKEY_BYTES: usize = 2560;

/// Maximum byte length of an ML-DSA-44 detached signature.
pub const PQ_SIGNATURE_BYTES: usize = 2420;

/// Error kinds of the crypto layer.
#[derive(Clone, Copy, Debug, PartialEq, Eq, Structural)]
pub enum CryptoError {
    /// The signature did not authenticate the body.
    PqVerifyFailed,
    /// A key or signature was absent or had an invalid length or structure.
    Malformed,
}

impl CryptoError {
    /// A human-readable description of the error.
    pub fn message(&self) -> (r: &'static str)
        ensures
            *self is PqVerifyFailed ==> r@ == "Post-quantum signature verification failed"@,
            *self is Malformed ==> r@ == "Malformed key or signature"@,
    {
        match self {
            CryptoError::PqVerifyFailed => "Post-quantum signature verification failed",
            CryptoError::Malformed => "Malformed key or signature",
        }
    }
}

/// Whether an ML-DSA-44 detached signature authenticates a message under a
/// public key; a function of the three byte strings alone.
pub uninterp spec fn pq_verifies(pk: Seq<u8>, msg: Seq<u8>, sig: Seq<u8>) -> bool;

/// The verdict of raw post-quantum verification: `Malformed` for an
/// ill-sized key or signature, otherwise decided by `pq_verifies`.
pub open spec fn verify_pq_bytes_spec(pk: Seq<u8>, msg: Seq<u8>, sig: Seq<u8>) -> Result<
    (),
    CryptoError,
> {
    if pk.len() != PQ_PUBLICKEY_BYTES || sig.len() > PQ_SIGNATURE_BYTES {
        Err(CryptoError::Malformed)
    } else if pq_verifies(pk, msg, sig) {
        Ok(())
    } else {
        Err(CryptoError::PqVerifyFailed)
    }
}

/// Relies on pqcrypto_mldsa::mldsa44: `PublicKey::from_bytes` accepts exactly
/// 1312 bytes, `DetachedSignature::from_bytes` accepts at most 2420 bytes,
/// and `verify_detached_signature` decides from the signature, message and
/// key bytes alone.
#[verifier::external_body]
fn verify_pq_bytes(pk: &Vec<u8>, msg: &Vec<u8>, sig: &Vec<u8>) -> (r: Result<(), CryptoError>)
    ensures
        r == verify_pq_bytes_spec(pk@, msg@, sig@),
        pk@.len() == PQ_PUBLICKEY_BYTES && sig@.len() <= PQ_SIGNATURE_BYTES ==> (r is Ok <==> pq_verifies(pk@, msg@, sig@)),
{
    let pk = match pqcrypto_mldsa::mldsa44::PublicKey::from_bytes(pk) {
        Ok(k) => k,
        Err(_) => return Err(CryptoError::Malformed),
    };
    let sig = match pqcrypto_mldsa::mldsa44::DetachedSignature::from_bytes(sig) {
        Ok(s) => s,
        Err(_) => return Err(CryptoError::Malformed),
    };
    match pqcrypto_mldsa::mldsa44::verify_detached_signature(&sig, msg, &pk) {
        Ok(()) => Ok(()),
        Err(_) => Err(CryptoError::PqVerifyFailed),
    }
}

/// The verdict of post-quantum verification on a transaction: `Malformed`
/// when the signature or key is absent or ill-sized, `PqVerifyFailed` when
/// the signature does not authenticate the canonical body, `Ok` otherwise.
pub open spec fn verify_pq_spec(t: TxView) -> Result<(), CryptoError> {
    match (t.pq_pubkey, t.pq_sig) {
        (Some(pk), Some(sig)) => verify_pq_bytes_spec(pk, tx_body_enc(t), sig),
        _ => Err(CryptoError::Malformed),
    }
}

/// Verifies the post-quantum signature of a transaction against its
/// canonical body serialization and attached public key.
pub fn verify_pq_tx(tx: &HybridTx) -> (r: Result<(), CryptoError>)
    ensures
        r == verify_pq_spec(tx@),
{
    let sig = match &tx.pq_sig {
        Some(s) => s,
        None => {
            return Err(CryptoError::Malformed);
        },
    };
    let pk = match &tx.pq_pubkey {
        Some(k) => k,
        None => {
            return Err(CryptoError::Malformed);
        },
    };
    let msg = encode_tx_body(tx);
    verify_pq_bytes(pk, &msg, sig)
}

/// Post-quantum verification is a pure function of the canonical body and
/// the attached signature and public key: two transactions that agree on
/// those three yield the same verdict.
pub proof fn lemma_verify_pq_pure(a: TxView, b: TxView)
    requires
        tx_body_enc(a) == tx_body_enc(b),
        a.pq_sig == b.pq_sig,
        a.pq_pubkey == b.pq_pubkey,
    ensures
        verify_pq_spec(a) == verify_pq_spec(b),
{
}

/// A post-quantum keypair, held as plain bytes.
pub struct PqKeypair {
    pub public: Vec<u8>,
    pub secret: Vec<u8>,
}

impl PqKeypair {
    /// Relies on pqcrypto_mldsa::mldsa44::keypair: a fresh keypair whose
    /// halves have the documented lengths. The keys themselves are random.
    #[verifier::external_body]
    pub fn generate() -> (r: PqKeypair)
        ensures
            r.public@.len() == PQ_PUBLICKEY_BYTES,
            r.secret@.len() == PQ_SECRETKEY_BYTES,
    {
        let (pk, sk) = pqcrypto_mldsa::mldsa44::keypair();
        PqKeypair { public: pk.as_bytes().to_vec(), secret: sk.as_bytes().to_vec() }
    }
}

/// Relies on pqcrypto_mldsa::mldsa44::detached_sign and
/// `SecretKey::from_bytes`, which accepts exactly 2560 bytes (ensured here by
/// the precondition): a detached signature of at most the documented length.
/// Signing is randomized, so nothing more is promised of the bytes.
#[verifier::external_body]
pub fn sign_pq_message(secret: &Vec<u8>, msg: &Vec<u8>) -> (r: Vec<u8>)
    requires
        secret@.len() == PQ_SECRETKEY_BYTES,
    ensures
        r@.len() <= PQ_SIGNATURE_BYTES,
{
    let sk = pqcrypto_mldsa::mldsa44::SecretKey::from_bytes(secret)
        .expect("length established by the precondition");
    let sig = pqcrypto_mldsa::mldsa44::detached_sign(msg, &sk);
    sig.as_bytes().to_vec()
}

} // verus!
