use ark_core::exit::{ClaimInput, ExitIndex, ExitStatus};
use ark_core::vtxo::OutPoint;

fn claim(amount: u64, exit_delta: u16) -> ClaimInput {
    ClaimInput {
        vtxo_point: OutPoint { txid: [1; 32], vout: 0 },
        amount,
        exit_delta,
        confirmed_at: None,
    }
}

#[test]
fn exit_progress_walks_the_stages() {
    // a 50_000 sat claim with a twelve block exit delta
    let mut exit = ExitIndex::new(vec![claim(50_000, 12)]);
    assert_eq!(exit.progress(100), ExitStatus::NeedMoreTxs);
    // the exit transaction confirms at height 100
    exit.mark_confirmed(0, 100);
    assert_eq!(exit.progress(100), ExitStatus::WaitingForHeight { height: 112 });
    assert_eq!(exit.progress(111), ExitStatus::WaitingForHeight { height: 112 });
    assert_eq!(exit.progress(112), ExitStatus::CanSpendAllOutputs);
}

#[test]
fn exit_stays_spendable_as_the_chain_grows() {
    let mut exit = ExitIndex::new(vec![claim(50_000, 12), claim(20_000, 24)]);
    exit.mark_confirmed(0, 100);
    exit.mark_confirmed(1, 90);
    // the later of 112 and 114 gates the exit
    assert_eq!(exit.progress(113), ExitStatus::WaitingForHeight { height: 114 });
    assert_eq!(exit.progress(114), ExitStatus::CanSpendAllOutputs);
    for tip in 114..140 {
        assert_eq!(exit.progress(tip), ExitStatus::CanSpendAllOutputs);
    }
    exit.clear();
    assert_eq!(exit.progress(114), ExitStatus::CanSpendAllOutputs);
}

#[test]
fn cpfp_fee_bump_arithmetic() {
    // 800 weight units at 15 sat per 1000: 12 sat owed, 5 already paid
    assert_eq!(ark_core::exit::cpfp_extra_fee(15, 800, 5), 7);
    // the package already pays enough
    assert_eq!(ark_core::exit::cpfp_extra_fee(15, 800, 50), 0);
    // rounding is up: 1 wu at 1 sat/kwu owes a whole satoshi
    assert_eq!(ark_core::exit::cpfp_extra_fee(1, 1, 0), 1);
}

#[test]
fn claim_inputs_carry_the_exit_timelock() {
    let c = claim(50_000, 12);
    let exit = ExitIndex::new(vec![c, claim(20_000, 24)]);
    let ins = exit.claim_inputs();
    assert_eq!(ins.len(), 2);
    assert_eq!(ins[0].sequence, 12);
    assert_eq!(ins[1].sequence, 24);
    assert!(ins[0].signature.is_none());
    let w = c.witness_txout(&[7; 32], &[9; 32]);
    assert_eq!(w.value, 50_000);
}
