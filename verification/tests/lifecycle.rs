use ark_core::state::{VtxoState, VtxoStateStore};
use ark_core::store::{validate_board_spec, BoardError, StoredVtxo, VtxoStore};
use ark_core::vtxo::{OutPoint, VtxoId, VtxoSpec};

fn vid(n: u8) -> VtxoId {
    VtxoId { point: OutPoint { txid: [n; 32], vout: 0 } }
}

#[test]
fn test_update_vtxo_state() {
    let mut store = VtxoStateStore::new();
    let vtxo_1 = vid(1);
    let vtxo_2 = vid(2);
    let vtxo_3 = vid(3);

    store.store_vtxo_with_initial_state(vtxo_1, VtxoState::UnregisteredBoard);
    store.store_vtxo_with_initial_state(vtxo_2, VtxoState::UnregisteredBoard);
    store.store_vtxo_with_initial_state(vtxo_3, VtxoState::UnregisteredBoard);

    // This update must fail because the current state is the
    // unregistered board; only a spendable VTXO may be spent.
    store
        .update_vtxo_state_checked(&vtxo_1, VtxoState::Spent, &vec![VtxoState::Spendable])
        .expect_err("The vtxo isn't spendable and query should fail");

    store
        .update_vtxo_state_checked(
            &vtxo_1,
            VtxoState::Spendable,
            &vec![VtxoState::UnregisteredBoard],
        )
        .unwrap();

    store
        .update_vtxo_state_checked(&vtxo_1, VtxoState::Spent, &vec![VtxoState::Spendable])
        .unwrap();

    let state_2 = store.get_vtxo_state(&vtxo_2).unwrap();
    assert_eq!(state_2, VtxoState::UnregisteredBoard);
    let state_2 = store.get_vtxo_state(&vtxo_3).unwrap();
    assert_eq!(state_2, VtxoState::UnregisteredBoard);
}

#[test]
fn board_registration_is_idempotent() {
    let mut store = VtxoStore::new();
    let v = StoredVtxo {
        id: vid(9),
        user_pubkey: [2; 32],
        amount: 80_000,
        expiry_height: 1000,
        spent: false,
    };
    store.register(v);
    store.register(v);
    let got = store.get(&vid(9)).unwrap();
    assert_eq!(got.amount, 80_000);
    assert!(!got.spent);
}

#[test]
fn board_spec_validation() {
    let spec = VtxoSpec {
        user_pubkey: [7; 32],
        asp_pubkey: [9; 32],
        expiry_height: 11_000,
        exit_delta: 12,
        amount: 80_000,
    };
    assert!(validate_board_spec(&spec, &[9; 32], 1_000, 12).is_ok());
    assert!(matches!(
        validate_board_spec(&spec, &[8; 32], 1_000, 12),
        Err(BoardError::WrongAspKey)
    ));
    assert!(matches!(
        validate_board_spec(&spec, &[9; 32], 12_000, 12),
        Err(BoardError::Expired)
    ));
    assert!(matches!(
        validate_board_spec(&spec, &[9; 32], 1_000, 24),
        Err(BoardError::WrongExitDelta)
    ));
}
