use narwhal_chain::codec::encode_tx_body;
use narwhal_chain::crypto::{sign_pq_message, verify_pq_tx, CryptoError, PqKeypair};
use narwhal_chain::types::HybridTx;

fn unsigned_tx() -> HybridTx {
    HybridTx {
        hash: [0x11; 32],
        from: [0x22; 20],
        to: None,
        nonce: [0; 32],
        gas_limit: 50_000,
        max_fee_per_gas: [0; 32],
        max_priority_fee_per_gas: [0; 32],
        value: [0x01; 32],
        data: vec![1, 2, 3, 4],
        chain_id: 1337,
        sig: None,
        pq_sig: None,
        pq_pubkey: None,
    }
}

fn signed_tx(keys: &PqKeypair) -> HybridTx {
    let mut tx = unsigned_tx();
    let body = encode_tx_body(&tx);
    let sig = sign_pq_message(&keys.secret, &body);
    tx.pq_sig = Some(sig);
    tx.pq_pubkey = Some(keys.public.clone());
    tx
}

#[test]
fn keypair_has_documented_lengths() {
    let keys = PqKeypair::generate();
    assert_eq!(keys.public.len(), 1312);
    assert_eq!(keys.secret.len(), 2560);
}

#[test]
fn valid_signature_verifies() {
    let keys = PqKeypair::generate();
    let tx = signed_tx(&keys);
    assert!(verify_pq_tx(&tx).is_ok());
}

#[test]
fn tampered_signature_fails() {
    let keys = PqKeypair::generate();
    let mut tx = signed_tx(&keys);
    if let Some(sig) = tx.pq_sig.as_mut() {
        sig[0] ^= 0xff;
        sig[1] ^= 0xff;
    }
    assert_eq!(verify_pq_tx(&tx), Err(CryptoError::PqVerifyFailed));
}

#[test]
fn tampered_body_fails() {
    let keys = PqKeypair::generate();
    let mut tx = signed_tx(&keys);
    tx.data = vec![9, 9, 9];
    assert_eq!(verify_pq_tx(&tx), Err(CryptoError::PqVerifyFailed));
}

#[test]
fn missing_signature_is_malformed() {
    let tx = unsigned_tx();
    assert_eq!(verify_pq_tx(&tx), Err(CryptoError::Malformed));
}

#[test]
fn short_public_key_is_malformed() {
    let keys = PqKeypair::generate();
    let mut tx = signed_tx(&keys);
    tx.pq_pubkey = Some(vec![0u8; 100]);
    assert_eq!(verify_pq_tx(&tx), Err(CryptoError::Malformed));
}

#[test]
fn oversized_signature_is_malformed() {
    let keys = PqKeypair::generate();
    let mut tx = signed_tx(&keys);
    tx.pq_sig = Some(vec![0u8; 3000]);
    assert_eq!(verify_pq_tx(&tx), Err(CryptoError::Malformed));
}

#[test]
fn verification_is_repeatable() {
    let keys = PqKeypair::generate();
    let tx = signed_tx(&keys);
    let first = verify_pq_tx(&tx);
    let second = verify_pq_tx(&tx);
    assert_eq!(first, second);
    let mut bad = tx;
    bad.pq_sig = Some(vec![0u8; 2420]);
    assert_eq!(verify_pq_tx(&bad), verify_pq_tx(&bad));
}

#[test]
fn error_messages_name_the_failure() {
    assert_eq!(
        CryptoError::PqVerifyFailed.message(),
        "Post-quantum signature verification failed"
    );
    assert_eq!(CryptoError::Malformed.message(), "Malformed key or signature");
}
