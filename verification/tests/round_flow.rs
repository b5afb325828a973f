use ark_core::round::{
    OffboardRequest, RoundCoordinator, RoundError, RoundParams, Stage, Submission,
    TimeoutOutcome,
};
use ark_core::store::{StoredVtxo, VtxoStore};
use ark_core::tree::VtxoRequest;
use ark_core::vtxo::{OutPoint, VtxoId};
use ark_core::participant::sign_ownership_proof;

const ROUND_SEQ: u64 = 1;

fn vid(n: u8) -> VtxoId {
    VtxoId { point: OutPoint { txid: [n; 32], vout: 0 } }
}

fn params() -> RoundParams {
    RoundParams {
        round_seq: ROUND_SEQ,
        offboard_feerate_sat_per_kvb: 10_000,
        nb_round_nonces: 2,
        max_attempts: 3,
        tip_height: 1_000,
        onchain_fee: 500,
    }
}

/// A store with one 80_000 sat board per user key.
fn store_with(users: &[(u8, [u8; 32])]) -> VtxoStore {
    let mut store = VtxoStore::new();
    for (n, sk) in users {
        let pk = ark_core::crypto::derive_xonly_pub(sk).expect("valid key");
        store.register(StoredVtxo {
            id: vid(*n),
            user_pubkey: pk,
            amount: 80_000,
            expiry_height: 11_000,
            spent: false,
        });
    }
    store
}

fn submission(n: u8, sk: &[u8; 32], attempt: u64, out_pk: [u8; 32], cosign_pk: [u8; 32]) -> Submission {
    let id = vid(n);
    let proof = sign_ownership_proof(&id, ROUND_SEQ, attempt, sk).expect("valid key");
    Submission {
        input_ids: vec![id],
        ownership_proofs: vec![proof],
        vtxo_requests: vec![VtxoRequest { pubkey: out_pk, cosign_pk, amount: 80_000 }],
        cosign_nonces: vec![vec![[0u8; 66], [0u8; 66]]],
        offboards: vec![],
    }
}

#[test]
fn two_clients_one_round() {
    let sk_a = [0x41u8; 32];
    let sk_b = [0x42u8; 32];
    let store = store_with(&[(1, sk_a), (2, sk_b)]);
    let mut coord = RoundCoordinator::new(params(), store);

    coord.submit(submission(1, &sk_a, 1, [0xaa; 32], [0x20; 32])).unwrap();
    coord.submit(submission(2, &sk_b, 1, [0xbb; 32], [0x10; 32])).unwrap();

    let tree = coord
        .make_proposal([0x77; 32], [9; 32], 11_144, 12)
        .expect("two parties admitted");
    // two leaves, laid out in cosign-key order
    assert_eq!(tree.vtxos.len(), 2);
    assert_eq!(tree.vtxos[0].cosign_pk, [0x10; 32]);
    assert_eq!(tree.vtxos[1].cosign_pk, [0x20; 32]);

    coord.receive_vtxo_sigs(&[0x10; 32], 2).unwrap();
    coord.receive_vtxo_sigs(&[0x20; 32], 2).unwrap();
    assert_eq!(coord.sign_timeout(), TimeoutOutcome::Proceed);

    coord.receive_forfeit_sigs(&vid(1), 2, 2).unwrap();
    coord.receive_forfeit_sigs(&vid(2), 2, 2).unwrap();
    assert_eq!(coord.sign_timeout(), TimeoutOutcome::Proceed);

    let finished = coord.finalize();
    assert_eq!(finished.leaf_total, 160_000);
    assert_eq!(finished.nb_connectors, 2);
    assert_eq!(finished.connector_total, 660);
    assert_eq!(finished.offboard_amount_total, 0);
    assert_eq!(finished.funding_value, 160_000 + 660 + 500);
    assert_eq!(
        finished.leaf_total + finished.offboard_amount_total,
        finished.funding_value - finished.onchain_fee - finished.offboard_fee_total
            - finished.connector_total,
    );
    // the forfeited inputs are spent now
    assert!(coord.store.get(&vid(1)).unwrap().spent);
    assert!(coord.store.get(&vid(2)).unwrap().spent);
    assert!(matches!(coord.stage, Stage::Finished));
}

#[test]
fn round_attempt_retry_excludes_nonresponder() {
    let sk_a = [0x41u8; 32];
    let sk_b = [0x42u8; 32];
    let store = store_with(&[(1, sk_a), (2, sk_b)]);
    let mut coord = RoundCoordinator::new(params(), store);

    coord.submit(submission(1, &sk_a, 1, [0xaa; 32], [0x20; 32])).unwrap();
    coord.submit(submission(2, &sk_b, 1, [0xbb; 32], [0x10; 32])).unwrap();
    let tree = coord.make_proposal([0x77; 32], [9; 32], 11_144, 12).unwrap();
    assert_eq!(tree.vtxos.len(), 2);

    // only the first party delivers its tree signatures
    coord.receive_vtxo_sigs(&[0x20; 32], 2).unwrap();
    assert_eq!(coord.sign_timeout(), TimeoutOutcome::NewAttempt);
    assert_eq!(coord.attempt, 2);

    // the round restarts from the proposal with the remaining party
    let tree2 = coord.make_proposal([0x77; 32], [9; 32], 11_144, 12).unwrap();
    assert_eq!(tree2.vtxos.len(), 1);
    assert_eq!(tree2.vtxos[0].cosign_pk, [0x20; 32]);

    coord.receive_vtxo_sigs(&[0x20; 32], 2).unwrap();
    assert_eq!(coord.sign_timeout(), TimeoutOutcome::Proceed);
    coord.receive_forfeit_sigs(&vid(1), 1, 1).unwrap();
    assert_eq!(coord.sign_timeout(), TimeoutOutcome::Proceed);
    let finished = coord.finalize();
    assert_eq!(finished.leaf_total, 80_000);
    assert_eq!(finished.nb_connectors, 1);
    // the excluded party's input is neither spent nor reserved
    assert!(!coord.store.get(&vid(2)).unwrap().spent);
    assert!(!coord.flux.contains(&vid(2)));
}

#[test]
fn round_rejects_bad_ownership_proof() {
    let sk_a = [0x41u8; 32];
    let sk_wrong = [0x43u8; 32];
    let store = store_with(&[(1, sk_a)]);
    let mut coord = RoundCoordinator::new(params(), store);
    let sub = submission(1, &sk_wrong, 1, [0xaa; 32], [0x20; 32]);
    match coord.submit(sub) {
        Err(RoundError::BadOwnershipProof { id }) => assert_eq!(id.point.txid, [1; 32]),
        other => panic!("expected a proof rejection, got {:?}", other),
    }
}

#[test]
fn round_rejects_double_reservation() {
    let sk_a = [0x41u8; 32];
    let store = store_with(&[(1, sk_a)]);
    let mut coord = RoundCoordinator::new(params(), store);
    coord.submit(submission(1, &sk_a, 1, [0xaa; 32], [0x20; 32])).unwrap();
    match coord.submit(submission(1, &sk_a, 1, [0xcc; 32], [0x30; 32])) {
        Err(RoundError::VtxoInFlux { id }) => assert_eq!(id.point.txid, [1; 32]),
        _ => panic!("expected an in-flux rejection"),
    }
}

#[test]
fn round_rejects_unbalanced_submission() {
    let sk_a = [0x41u8; 32];
    let store = store_with(&[(1, sk_a)]);
    let mut coord = RoundCoordinator::new(params(), store);
    let mut sub = submission(1, &sk_a, 1, [0xaa; 32], [0x20; 32]);
    sub.vtxo_requests[0].amount = 70_000;
    match coord.submit(sub) {
        Err(RoundError::UnbalancedAmounts) => {},
        _ => panic!("expected unbalanced books"),
    }
}

#[test]
fn round_offboard_pays_its_fee() {
    let sk_a = [0x41u8; 32];
    let store = store_with(&[(1, sk_a)]);
    let mut coord = RoundCoordinator::new(params(), store);
    let id = vid(1);
    let proof = sign_ownership_proof(&id, ROUND_SEQ, 1, &sk_a).unwrap();
    // a 34-byte script at 10 sat per vbyte: (34 + 9) * 10_000 / 1000 = 430
    let fee = 430;
    let sub = Submission {
        input_ids: vec![id],
        ownership_proofs: vec![proof],
        vtxo_requests: vec![],
        cosign_nonces: vec![],
        offboards: vec![OffboardRequest {
            amount: 80_000 - fee,
            script_pubkey: vec![0x51; 34],
        }],
    };
    coord.submit(sub).unwrap();
}

#[test]
fn round_rejects_unknown_and_expired_inputs() {
    let sk_a = [0x41u8; 32];
    let store = store_with(&[(1, sk_a)]);
    let mut coord = RoundCoordinator::new(params(), store);
    // an input the provider does not know
    let mut sub = submission(1, &sk_a, 1, [0xaa; 32], [0x20; 32]);
    sub.input_ids = vec![vid(9)];
    match coord.submit(sub) {
        Err(RoundError::UnknownInput { id }) => assert_eq!(id.point.txid, [9; 32]),
        other => panic!("expected an unknown input, got {:?}", other),
    }
    // an input that expires at the round's tip
    coord.store.register(ark_core::store::StoredVtxo {
        id: vid(3),
        user_pubkey: ark_core::crypto::derive_xonly_pub(&sk_a).unwrap(),
        amount: 80_000,
        expiry_height: 1_000,
        spent: false,
    });
    let mut sub = submission(3, &sk_a, 1, [0xaa; 32], [0x20; 32]);
    sub.ownership_proofs =
        vec![sign_ownership_proof(&vid(3), ROUND_SEQ, 1, &sk_a).unwrap()];
    match coord.submit(sub) {
        Err(RoundError::InputExpired { id }) => assert_eq!(id.point.txid, [3; 32]),
        other => panic!("expected an expired input, got {:?}", other),
    }
}

#[test]
fn round_rejects_malformed_submissions() {
    let sk_a = [0x41u8; 32];
    let store = store_with(&[(1, sk_a)]);
    let mut coord = RoundCoordinator::new(params(), store);

    // a proof list that does not match the input list
    let mut sub = submission(1, &sk_a, 1, [0xaa; 32], [0x20; 32]);
    sub.ownership_proofs = vec![];
    assert!(matches!(coord.submit(sub), Err(RoundError::ProofCountMismatch)));

    // a requested leaf below dust
    let mut sub = submission(1, &sk_a, 1, [0xaa; 32], [0x20; 32]);
    sub.vtxo_requests[0].amount = 100;
    assert!(matches!(
        coord.submit(sub),
        Err(RoundError::OutputBelowDust { index: 0 })
    ));

    // the wrong number of cosign nonces
    let mut sub = submission(1, &sk_a, 1, [0xaa; 32], [0x20; 32]);
    sub.cosign_nonces = vec![vec![[0u8; 66]]];
    assert!(matches!(
        coord.submit(sub),
        Err(RoundError::BadNonceCount { index: 0 })
    ));

    // an offboard below dust
    let mut sub = submission(1, &sk_a, 1, [0xaa; 32], [0x20; 32]);
    sub.vtxo_requests = vec![];
    sub.cosign_nonces = vec![];
    sub.offboards = vec![OffboardRequest { amount: 10, script_pubkey: vec![0x51; 34] }];
    assert!(matches!(
        coord.submit(sub),
        Err(RoundError::OffboardBelowDust { index: 0 })
    ));
}

#[test]
fn round_refuses_calls_in_the_wrong_stage() {
    let sk_a = [0x41u8; 32];
    let store = store_with(&[(1, sk_a)]);
    let mut coord = RoundCoordinator::new(params(), store);
    // signatures are not awaited during the submit window
    assert!(matches!(
        coord.receive_vtxo_sigs(&[0x20; 32], 2),
        Err(RoundError::WrongStage)
    ));
    coord.submit(submission(1, &sk_a, 1, [0xaa; 32], [0x20; 32])).unwrap();
    let _tree = coord.make_proposal([0x77; 32], [9; 32], 11_144, 12).unwrap();
    // the submit window is closed now
    assert!(matches!(
        coord.submit(submission(1, &sk_a, 1, [0xaa; 32], [0x20; 32])),
        Err(RoundError::NotCollecting)
    ));
    // an unknown cosign key is turned away
    assert!(matches!(
        coord.receive_vtxo_sigs(&[0x99; 32], 2),
        Err(RoundError::UnknownParty)
    ));
    // a wrong signature count is turned away
    assert!(matches!(
        coord.receive_vtxo_sigs(&[0x20; 32], 1),
        Err(RoundError::BadSignatureCount)
    ));
}
