use ark_core::participant::{tree_covers_requests, RoundAttempt, RoundInfo, RoundState};
use ark_core::vtxo::{Spk, TxOut};
use ark_core::tree::{VtxoRequest, VtxoTreeSpec};
use ark_core::logrec::{log, LogLevel, LogMsg};
use ark_core::movement::{Movement, MovementLog, Pagination};

#[test]
fn round_state_tracks_attempts_of_its_round() {
    let mut st = RoundState::new(RoundInfo { round_seq: 7, offboard_feerate_sat_per_kvb: 1 });
    assert!(st.process_attempt(RoundAttempt { round_seq: 7, attempt: 1 }));
    assert!(st.attempt.is_some());
    // an attempt of another round forces a restart
    assert!(!st.process_attempt(RoundAttempt { round_seq: 8, attempt: 1 }));
}

#[test]
fn proposal_must_cover_every_request() {
    let r1 = VtxoRequest { pubkey: [1; 32], cosign_pk: [2; 32], amount: 80_000 };
    let r2 = VtxoRequest { pubkey: [3; 32], cosign_pk: [4; 32], amount: 80_000 };
    let tree = VtxoTreeSpec {
        vtxos: vec![r1, r2],
        cosign_agg_pk: [5; 32],
        asp_pk: [9; 32],
        expiry_height: 11_144,
        exit_delta: 12,
    };
    assert!(tree_covers_requests(&tree, &vec![r1]));
    assert!(tree_covers_requests(&tree, &vec![r2, r1]));
    // two equal requests need two equal leaves
    assert!(!tree_covers_requests(&tree, &vec![r1, r1]));
    let other = VtxoRequest { pubkey: [8; 32], cosign_pk: [8; 32], amount: 1_000 };
    assert!(!tree_covers_requests(&tree, &vec![other]));
}

#[test]
fn log_record_carries_position() {
    struct RoundStarted;
    impl LogMsg for RoundStarted {
        fn logid(&self) -> &'static str { "round-started" }
        fn level(&self) -> LogLevel { LogLevel::Info }
        fn message(&self) -> &'static str { "a round started" }
    }
    let rec = log(&RoundStarted, "coordinator", "round.rs", 42);
    assert_eq!(rec.logid, "round-started");
    assert_eq!(rec.module, "coordinator");
    assert_eq!(rec.file, "round.rs");
    assert_eq!(rec.line, 42);
}

#[test]
fn movements_paginate() {
    let mk = |id: u64| Movement {
        id,
        created_at: 1_000 + id,
        fees: 0,
        spends: vec![],
        receives: vec![],
    };
    let log = MovementLog { movements: vec![mk(4), mk(3), mk(2), mk(1), mk(0)] };
    let page = log.get_paginated_movements(Pagination { page_index: 1, page_size: 2 });
    assert_eq!(page.len(), 2);
    assert_eq!(page[0].id, 2);
    assert_eq!(page[1].id, 1);
    let last = log.get_paginated_movements(Pagination { page_index: 2, page_size: 2 });
    assert_eq!(last.len(), 1);
    assert_eq!(last[0].id, 0);
    let empty = log.get_paginated_movements(Pagination { page_index: 9, page_size: 2 });
    assert!(empty.is_empty());
}

#[test]
fn connector_output_is_checked_exactly() {
    let spk = vec![0x51u8, 0x20, 0xab];
    let good = TxOut { value: 2 * 330, spk: Spk::Raw { program: spk.clone() } };
    assert!(ark_core::participant::connector_output_matches(&good, 2, &spk));
    let wrong_value = TxOut { value: 330, spk: Spk::Raw { program: spk.clone() } };
    assert!(!ark_core::participant::connector_output_matches(&wrong_value, 2, &spk));
    let wrong_spk = TxOut { value: 2 * 330, spk: Spk::Raw { program: vec![0x51] } };
    assert!(!ark_core::participant::connector_output_matches(&wrong_spk, 2, &spk));
    let wrong_kind = TxOut { value: 2 * 330, spk: Spk::Anchor };
    assert!(!ark_core::participant::connector_output_matches(&wrong_kind, 2, &spk));
}
