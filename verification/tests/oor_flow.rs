use ark_core::flux::VtxosInFlux;
use ark_core::oor::{approve_oor, OorError, OorPayment, PaymentRequest};
use ark_core::store::{StoredVtxo, VtxoStore};
use ark_core::vtxo::{OutPoint, Spk, Tx, TxIn, TxOut, Vtxo, VtxoSpec};

fn board(amount: u64, expiry: u32) -> Vtxo {
    Vtxo::Board {
        spec: VtxoSpec {
            user_pubkey: [7; 32],
            asp_pubkey: [9; 32],
            expiry_height: expiry,
            exit_delta: 12,
            amount,
        },
        onchain_output: OutPoint { txid: [3; 32], vout: 0 },
        exit_tx: Tx {
            inputs: vec![TxIn {
                prevout: OutPoint { txid: [3; 32], vout: 0 },
                sequence: 0xffff_ffff,
                signature: None,
            }],
            outputs: vec![
                TxOut {
                    value: amount,
                    spk: Spk::Exit {
                        user_pubkey: [7; 32],
                        asp_pubkey: [9; 32],
                        exit_delta: 12,
                    },
                },
                TxOut { value: 0, spk: Spk::Anchor },
            ],
        },
    }
}

#[test]
fn oor_send_with_change() {
    // one 80_000 input; 20_000 to the peer; the rest comes back as change
    let payment = OorPayment {
        asp_pubkey: [9; 32],
        exit_delta: 12,
        inputs: vec![board(80_000, 10_000)],
        outputs: vec![
            PaymentRequest { pubkey: [11; 32], amount: 20_000 },
            PaymentRequest { pubkey: [7; 32], amount: 60_000 },
        ],
    };
    payment.check_amounts().expect("books balance");
    assert_eq!(payment.total_input_amount(), Some(80_000));
    assert_eq!(payment.total_output_amount(), Some(80_000));

    let vtxos = payment.unsigned_output_vtxos();
    assert_eq!(vtxos.len(), 2);
    assert_eq!(vtxos[0].amount(), 20_000);
    assert_eq!(vtxos[1].amount(), 60_000);
    // the recipient and the change spend outputs 0 and 1 of one transfer
    let id0 = vtxos[0].id();
    let id1 = vtxos[1].id();
    assert_eq!(id0.point.txid, id1.point.txid);
    assert_eq!(id0.point.vout, 0);
    assert_eq!(id1.point.vout, 1);
    // the output inherits the tightest input expiry
    match &vtxos[0] {
        Vtxo::Arkoor { spec, .. } => assert_eq!(spec.expiry_height, 10_000),
        _ => panic!("expected an arkoor output"),
    }
}

#[test]
fn oor_rejects_unbalanced_amounts() {
    let payment = OorPayment {
        asp_pubkey: [9; 32],
        exit_delta: 12,
        inputs: vec![board(80_000, 10_000)],
        outputs: vec![PaymentRequest { pubkey: [11; 32], amount: 20_000 }],
    };
    match payment.check_amounts() {
        Err(OorError::UnbalancedAmounts) => {},
        _ => panic!("expected the books to be rejected"),
    }
}

#[test]
fn oor_rejects_dust_output() {
    let payment = OorPayment {
        asp_pubkey: [9; 32],
        exit_delta: 12,
        inputs: vec![board(80_000, 10_000)],
        outputs: vec![
            PaymentRequest { pubkey: [11; 32], amount: 100 },
            PaymentRequest { pubkey: [7; 32], amount: 79_900 },
        ],
    };
    match payment.check_amounts() {
        Err(OorError::OutputBelowDust { index }) => assert_eq!(index, 0),
        _ => panic!("expected a dust rejection"),
    }
}

#[test]
fn oor_signature_validation_needs_valid_signatures() {
    let payment = OorPayment {
        asp_pubkey: [9; 32],
        exit_delta: 12,
        inputs: vec![board(80_000, 10_000)],
        outputs: vec![
            PaymentRequest { pubkey: [11; 32], amount: 20_000 },
            PaymentRequest { pubkey: [7; 32], amount: 60_000 },
        ],
    };
    // a real key pair signs the one input's sighash
    let sk = [0x41u8; 32];
    let pk = ark_core::crypto::derive_xonly_pub(&sk).expect("valid key");
    let hashes = payment.sighashes();
    assert_eq!(hashes.len(), 1);
    let sig = ark_core::crypto::schnorr_sign(&hashes[0], &sk).expect("valid key");
    assert!(payment.validate_signatures(&vec![sig], &vec![pk]));
    // a corrupted signature fails
    let mut bad = sig;
    bad[0] ^= 1;
    assert!(!payment.validate_signatures(&vec![bad], &vec![pk]));
    // the signature is no echo of the message
    assert_ne!(&sig[0..32], &hashes[0][..]);
}

#[test]
fn concurrent_oor_double_spend() {
    let input = board(80_000, 10_000);
    let input_id = input.id();
    let mut store = VtxoStore::new();
    store.register(StoredVtxo {
        id: input_id,
        user_pubkey: [7; 32],
        amount: 80_000,
        expiry_height: 10_000,
        spent: false,
    });
    let mut flux = VtxosInFlux::new();

    let payment = |dest: u8| OorPayment {
        asp_pubkey: [9; 32],
        exit_delta: 12,
        inputs: vec![board(80_000, 10_000)],
        outputs: vec![
            PaymentRequest { pubkey: [dest; 32], amount: 20_000 },
            PaymentRequest { pubkey: [7; 32], amount: 60_000 },
        ],
    };

    // the first transfer over the input comes through
    approve_oor(&mut flux, &mut store, &payment(11)).unwrap();
    assert!(store.get(&input_id).unwrap().spent);
    // its outputs are now known to the provider
    let out_id = payment(11).unsigned_output_vtxos()[0].id();
    assert!(!store.get(&out_id).unwrap().spent);

    // the second transfer over the same input is turned away
    match approve_oor(&mut flux, &mut store, &payment(12)) {
        Err(OorError::AlreadySpent { id }) => {
            assert_eq!(id.point.txid, input_id.point.txid);
        },
        other => panic!("expected the double spend to be refused, got {:?}", other),
    }
    // and the reservation guard holds nothing afterwards
    assert!(!flux.contains(&input_id));
}

#[test]
fn derived_public_key_differs_from_secret() {
    let sk = [0x41u8; 32];
    let pk = ark_core::crypto::derive_xonly_pub(&sk).expect("valid key");
    assert_ne!(pk, sk);
    // an all-zero secret key is invalid
    assert!(ark_core::crypto::derive_xonly_pub(&[0u8; 32]).is_none());
}

#[test]
fn reserved_input_blocks_a_transfer() {
    let input = board(80_000, 10_000);
    let input_id = input.id();
    let mut store = VtxoStore::new();
    store.register(StoredVtxo {
        id: input_id,
        user_pubkey: [7; 32],
        amount: 80_000,
        expiry_height: 10_000,
        spent: false,
    });
    let mut flux = VtxosInFlux::new();
    // another operation holds the input
    flux.atomic_check_put(&vec![input_id]).unwrap();
    let payment = OorPayment {
        asp_pubkey: [9; 32],
        exit_delta: 12,
        inputs: vec![board(80_000, 10_000)],
        outputs: vec![
            PaymentRequest { pubkey: [11; 32], amount: 20_000 },
            PaymentRequest { pubkey: [7; 32], amount: 60_000 },
        ],
    };
    match approve_oor(&mut flux, &mut store, &payment) {
        Err(OorError::VtxoInFlux { id }) => assert_eq!(id.point.txid, input_id.point.txid),
        other => panic!("expected the reservation to block, got {:?}", other),
    }
    // the input is neither spent nor forgotten
    assert!(!store.get(&input_id).unwrap().spent);
    assert!(flux.contains(&input_id));
}

#[test]
fn cover_selection_takes_the_soonest_expiring() {
    // soonest-expiring first: 30_000, 30_000, 30_000
    let vtxos = vec![board(30_000, 100), board(30_000, 200), board(30_000, 300)];
    let picked = ark_core::oor::select_vtxos_to_cover(&vtxos, 50_000).unwrap();
    assert_eq!(picked.len(), 2);
    assert_eq!(picked[0].amount() + picked[1].amount(), 60_000);
    // the whole list cannot cover more than it holds
    assert!(ark_core::oor::select_vtxos_to_cover(&vtxos, 100_000).is_err());
    // nothing is needed to cover nothing
    assert!(ark_core::oor::select_vtxos_to_cover(&vtxos, 0).unwrap().is_empty());
}
