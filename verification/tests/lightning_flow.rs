use ark_core::lightning::Bolt11Payment;
use ark_core::vtxo::{OutPoint, Spk, Tx, TxIn, TxOut, Vtxo, VtxoSpec};

fn board(amount: u64) -> Vtxo {
    Vtxo::Board {
        spec: VtxoSpec {
            user_pubkey: [7; 32],
            asp_pubkey: [9; 32],
            expiry_height: 10_000,
            exit_delta: 12,
            amount,
        },
        onchain_output: OutPoint { txid: [3; 32], vout: 0 },
        exit_tx: Tx {
            inputs: vec![TxIn {
                prevout: OutPoint { txid: [3; 32], vout: 0 },
                sequence: 0xffff_ffff,
                signature: None,
            }],
            outputs: vec![TxOut { value: amount, spk: Spk::Anchor }],
        },
    }
}

fn payment(input: u64, amount: u64) -> Bolt11Payment {
    Bolt11Payment {
        payment_hash: [8; 32],
        inputs: vec![board(input)],
        asp_pubkey: [9; 32],
        user_pubkey: [7; 32],
        payment_amount: amount,
        forwarding_fee: 350,
        htlc_delta: 6,
        htlc_expiry_delta: 6,
        htlc_expiry: 126,
        exit_delta: 12,
    }
}

#[test]
fn lightning_pay_failure_then_revoke() {
    // a 10_000 sat invoice paid from an 80_000 sat input
    let p = payment(80_000, 10_000);
    assert!(p.check_amounts());
    assert_eq!(p.htlc_amount(), 10_350);
    assert_eq!(p.change_amount(), 69_650);
    // the provider reports failure; revocation returns the invoice
    // amount, the provider keeps the 350 sat forwarding fee
    assert_eq!(p.revocation_amount(), 10_000);
    assert_eq!(p.change_amount() + p.revocation_amount(), 80_000 - 350);
}

#[test]
fn lightning_htlc_tx_shape() {
    let p = payment(80_000, 10_000);
    let tx = p.unsigned_transaction();
    assert_eq!(tx.inputs.len(), 1);
    assert_eq!(tx.inputs[0].sequence, 6);
    assert_eq!(tx.outputs.len(), 3);
    assert_eq!(tx.outputs[0].value, 10_350);
    assert_eq!(tx.outputs[1].value, 69_650);
    assert_eq!(tx.outputs[2].value, 0);
    let change = p.change_vtxo();
    assert_eq!(change.amount(), 69_650);
    assert_eq!(change.id().point.vout, 1);
}

#[test]
fn lightning_rejects_underfunded_payment() {
    let p = payment(10_000, 10_000);
    assert!(!p.check_amounts());
}

#[test]
fn lightning_signature_validation() {
    let p = payment(80_000, 10_000);
    let sk = [0x41u8; 32];
    let pk = ark_core::crypto::derive_xonly_pub(&sk).expect("a valid key");
    let hashes = p.htlc_sighashes();
    assert_eq!(hashes.len(), 1);
    let sig = ark_core::crypto::schnorr_sign(&hashes[0], &sk).expect("a valid key");
    assert!(p.validate_signatures(&vec![sig], &vec![pk]));
    let mut bad = sig;
    bad[3] ^= 0xff;
    assert!(!p.validate_signatures(&vec![bad], &vec![pk]));
    assert!(!p.validate_signatures(&vec![], &vec![pk]));
}

#[test]
fn lightning_fee_check() {
    let p = payment(80_000, 10_000);
    // 10_000 + 69_000 + ceil(15 * 600 / 1000) + 350 = 79_359 <= 80_000
    assert!(p.check_fee(10_000, 69_000, 15, 600).is_ok());
    // asking one satoshi more than the inputs carry fails
    let err = p.check_fee(10_000, 69_650, 15, 600).unwrap_err();
    assert_eq!(err.fee, 9 + 350);
    assert_eq!(err.required, 80_009);
    assert_eq!(err.missing, 9);
}
