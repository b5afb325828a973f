use ark_core::participant::round_txids_match;
use ark_core::wire::{validate_keyspend_signatures, verify_keyspend_signature};

fn p2tr_txout(pk: [u8; 32], value: u64) -> bitcoin::TxOut {
    let xonly = bitcoin::XOnlyPublicKey::from_slice(&pk).expect("a valid x-only key");
    let tweaked = bitcoin::key::TweakedPublicKey::dangerous_assume_tweaked(xonly);
    bitcoin::TxOut {
        value: bitcoin::Amount::from_sat(value),
        script_pubkey: bitcoin::ScriptBuf::new_p2tr_tweaked(tweaked),
    }
}

fn spend_tx(prev_txid: [u8; 32]) -> bitcoin::Transaction {
    bitcoin::Transaction {
        version: bitcoin::transaction::Version::TWO,
        lock_time: bitcoin::absolute::LockTime::ZERO,
        input: vec![bitcoin::TxIn {
            previous_output: bitcoin::OutPoint {
                txid: <bitcoin::Txid as bitcoin::hashes::Hash>::from_byte_array(prev_txid),
                vout: 0,
            },
            script_sig: bitcoin::ScriptBuf::new(),
            sequence: bitcoin::Sequence::MAX,
            witness: bitcoin::Witness::new(),
        }],
        output: vec![p2tr_txout([0xdd; 32], 79_000)],
    }
}

#[test]
fn real_taproot_keyspend_signature_verifies() {
    let sk = [0x41u8; 32];
    let pk = ark_core::crypto::derive_xonly_pub(&sk).expect("a valid key");
    let tx = spend_tx([1; 32]);
    let tx_bytes = bitcoin::consensus::encode::serialize(&tx);
    let prevout = p2tr_txout(pk, 80_000);
    let prevout_bytes = bitcoin::consensus::encode::serialize(&prevout);

    // the BIP-341 key-spend sighash through the library, signed and
    // verified with real keys
    let sighash = ark_core::crypto::taproot_sighash(&tx_bytes, &vec![prevout_bytes.clone()], 0)
        .expect("a well-formed transaction");
    let sig = ark_core::crypto::schnorr_sign(&sighash, &sk).expect("a valid key");
    assert!(verify_keyspend_signature(&tx_bytes, &vec![prevout_bytes.clone()], 0, &sig, &pk));
    assert!(validate_keyspend_signatures(
        &tx_bytes,
        &vec![prevout_bytes.clone()],
        &vec![sig],
        &vec![pk],
    ));

    // a corrupted signature fails; a missing signature fails
    let mut bad = sig;
    bad[0] ^= 1;
    assert!(!verify_keyspend_signature(&tx_bytes, &vec![prevout_bytes.clone()], 0, &bad, &pk));
    assert!(!validate_keyspend_signatures(&tx_bytes, &vec![prevout_bytes.clone()], &vec![], &vec![pk]));

    // the library's sighash is the bitcoin crate's own
    let mut cache = bitcoin::sighash::SighashCache::new(&tx);
    let expect = cache
        .taproot_key_spend_signature_hash(
            0,
            &bitcoin::sighash::Prevouts::All(&[prevout]),
            bitcoin::sighash::TapSighashType::All,
        )
        .expect("a well-formed transaction");
    assert_eq!(
        sighash,
        <bitcoin::TapSighash as bitcoin::hashes::Hash>::to_byte_array(expect)
    );

    // a previous-output list that does not fit the inputs yields nothing
    assert!(ark_core::crypto::taproot_sighash(&tx_bytes, &vec![], 0).is_none());
    // garbage yields nothing
    assert!(ark_core::crypto::taproot_sighash(&vec![1, 2, 3], &vec![], 0).is_none());
}

#[test]
fn signed_and_unsigned_round_txs_share_an_id() {
    let unsigned = spend_tx([1; 32]);
    let mut signed = spend_tx([1; 32]);
    signed.input[0].witness.push(&[7u8; 64]);
    let u = bitcoin::consensus::encode::serialize(&unsigned);
    let s = bitcoin::consensus::encode::serialize(&signed);
    assert_ne!(u, s);
    // signing lives in the witness: the id is unchanged
    assert!(round_txids_match(&u, &s));
    // a swapped transaction is caught
    let other = spend_tx([2; 32]);
    assert!(!round_txids_match(&u, &bitcoin::consensus::encode::serialize(&other)));
    // garbage is caught
    assert!(!round_txids_match(&u, &vec![1, 2, 3]));
    // the id the library reports is the bitcoin crate's own
    let id = ark_core::crypto::consensus_txid(&u).expect("a well-formed transaction");
    assert_eq!(
        id,
        <bitcoin::Txid as bitcoin::hashes::Hash>::to_byte_array(unsigned.compute_txid())
    );
}
