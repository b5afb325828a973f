use ark_core::vtxo::{OutPoint, Spk, Tx, TxIn, TxOut, Vtxo, VtxoSpec};
use ark_core::oor::{OorPayment, PaymentRequest};
use ark_core::lightning::Bolt11Payment;
use ark_core::tree::{SignedVtxoTree, VtxoRequest, VtxoTreeSpec};

fn sample_spec(amount: u64) -> VtxoSpec {
    VtxoSpec {
        user_pubkey: [7; 32],
        asp_pubkey: [9; 32],
        expiry_height: 123_456,
        exit_delta: 12,
        amount,
    }
}

fn sample_tx() -> Tx {
    Tx {
        inputs: vec![
            TxIn {
                prevout: OutPoint { txid: [1; 32], vout: 3 },
                sequence: 12,
                signature: Some([5; 64]),
            },
            TxIn {
                prevout: OutPoint { txid: [2; 32], vout: 0 },
                sequence: 0xffff_ffff,
                signature: None,
            },
        ],
        outputs: vec![
            TxOut {
                value: 80_000,
                spk: Spk::Exit { user_pubkey: [7; 32], asp_pubkey: [9; 32], exit_delta: 12 },
            },
            TxOut { value: 0, spk: Spk::Anchor },
            TxOut { value: 44, spk: Spk::Raw { program: vec![0x51, 0x20, 0xaa] } },
        ],
    }
}

fn board_vtxo(amount: u64) -> Vtxo {
    Vtxo::Board {
        spec: sample_spec(amount),
        onchain_output: OutPoint { txid: [3; 32], vout: 0 },
        exit_tx: sample_tx(),
    }
}

#[test]
fn vtxo_board_roundtrip() {
    let v = board_vtxo(80_000);
    let bytes = v.encode();
    let back = Vtxo::decode(bytes.as_slice()).expect("board decodes");
    assert_eq!(back.encode(), bytes);
    assert_eq!(back.amount(), 80_000);
}

#[test]
fn vtxo_round_roundtrip() {
    let v = Vtxo::Round {
        spec: sample_spec(50_000),
        leaf_idx: 2,
        exit_branch: vec![sample_tx(), sample_tx()],
    };
    let bytes = v.encode();
    let back = Vtxo::decode(bytes.as_slice()).expect("round decodes");
    assert_eq!(back.encode(), bytes);
}

#[test]
fn vtxo_arkoor_roundtrip_with_ancestors() {
    let v = Vtxo::Arkoor {
        inputs: vec![board_vtxo(80_000)],
        spec: sample_spec(20_000),
        oor_tx: sample_tx(),
        final_point: OutPoint { txid: [4; 32], vout: 1 },
    };
    let bytes = v.encode();
    let back = Vtxo::decode(bytes.as_slice()).expect("arkoor decodes");
    assert_eq!(back.encode(), bytes);
}

#[test]
fn vtxo_bolt11_change_roundtrip() {
    let inner = Vtxo::Arkoor {
        inputs: vec![board_vtxo(80_000)],
        spec: sample_spec(20_000),
        oor_tx: sample_tx(),
        final_point: OutPoint { txid: [4; 32], vout: 0 },
    };
    let v = Vtxo::Bolt11Change {
        inputs: vec![inner],
        spec: sample_spec(9_650),
        htlc_tx: sample_tx(),
        final_point: OutPoint { txid: [5; 32], vout: 1 },
    };
    let bytes = v.encode();
    let back = Vtxo::decode(bytes.as_slice()).expect("change decodes");
    assert_eq!(back.encode(), bytes);
}

#[test]
fn vtxo_decode_rejects_trailing_bytes() {
    let mut bytes = board_vtxo(80_000).encode();
    bytes.push(0);
    assert!(Vtxo::decode(bytes.as_slice()).is_none());
}

#[test]
fn vtxo_decode_rejects_bad_tag() {
    let mut bytes = board_vtxo(80_000).encode();
    bytes[0] = 200;
    assert!(Vtxo::decode(bytes.as_slice()).is_none());
}

#[test]
fn oor_payment_roundtrip() {
    let p = OorPayment {
        asp_pubkey: [9; 32],
        exit_delta: 12,
        inputs: vec![board_vtxo(80_000)],
        outputs: vec![
            PaymentRequest { pubkey: [11; 32], amount: 20_000 },
            PaymentRequest { pubkey: [7; 32], amount: 60_000 },
        ],
    };
    let bytes = p.encode();
    let back = OorPayment::decode(bytes.as_slice()).expect("payment decodes");
    assert_eq!(back.encode(), bytes);
}

#[test]
fn bolt11_payment_roundtrip() {
    let p = Bolt11Payment {
        payment_hash: [8; 32],
        inputs: vec![board_vtxo(80_000)],
        asp_pubkey: [9; 32],
        user_pubkey: [7; 32],
        payment_amount: 10_000,
        forwarding_fee: 350,
        htlc_delta: 6,
        htlc_expiry_delta: 6,
        htlc_expiry: 126,
        exit_delta: 12,
    };
    let bytes = p.encode();
    let back = Bolt11Payment::decode(bytes.as_slice()).expect("payment decodes");
    assert_eq!(back.encode(), bytes);
}

#[test]
fn signed_tree_roundtrip() {
    let t = SignedVtxoTree {
        spec: VtxoTreeSpec {
            vtxos: vec![
                VtxoRequest { pubkey: [1; 32], cosign_pk: [2; 32], amount: 80_000 },
                VtxoRequest { pubkey: [3; 32], cosign_pk: [4; 32], amount: 80_000 },
            ],
            cosign_agg_pk: [5; 32],
            asp_pk: [9; 32],
            expiry_height: 10_144,
            exit_delta: 12,
        },
        utxo: OutPoint { txid: [6; 32], vout: 0 },
        cosign_keys: vec![[1; 32], [2; 32], [3; 32]],
        signatures: vec![[1; 64], [2; 64], [3; 64]],
    };
    let bytes = t.encode();
    let back = SignedVtxoTree::decode(bytes.as_slice()).expect("tree decodes");
    assert_eq!(back.encode(), bytes);
}

#[test]
fn txid_depends_on_contents_not_witness() {
    // two transactions that differ only in an input signature share an id
    let mut a = sample_tx();
    let id1 = a.txid();
    a.inputs[0].signature = None;
    let id2 = a.txid();
    assert_eq!(id1, id2);
    // a changed output changes the id
    a.outputs[0].value = 79_999;
    let id3 = a.txid();
    assert_ne!(id2, id3);
}
