//! The unilateral exit engine, client side: the ordered plan of exit
//! outputs to claim on chain. Every transaction of the exit path is
//! broadcast and fee-bumped elsewhere; this engine tracks, per claim,
//! the confirmation height of its exit transaction, and decides what
//! the exit still needs: more confirmations, more height, or nothing.

use vstd::prelude::*;
use crate::vtxo::OutPoint;

verus! {

/// One exit output the user intends to claim: the leaf exit outpoint,
/// its amount, its relative exit timelock, and, once the exit
/// transaction is confirmed, the height it confirmed at.
#[derive(Clone, Copy)]
pub struct ClaimInput {
    pub vtxo_point: OutPoint,
    pub amount: u64,
    pub exit_delta: u16,
    pub confirmed_at: Option<u32>,
}

/// The height from which a confirmed claim may be spent: its
/// confirmation height plus its relative exit timelock.
pub open spec fn spendable_at(c: ClaimInput) -> int
    recommends
        c.confirmed_at is Some,
{
    c.confirmed_at.unwrap() + c.exit_delta
}

/// What an exit still needs.
#[derive(Clone, Copy, PartialEq, Eq, Structural, Debug)]
pub enum ExitStatus {
    /// Some exit transaction is not confirmed yet: broadcast and bump.
    NeedMoreTxs,
    /// All exit transactions confirmed; the chain must reach this
    /// height before every output can be claimed.
    WaitingForHeight { height: u64 },
    /// Every output is claimable now.
    CanSpendAllOutputs,
}

/// The greatest spendable-at height among the claims (zero if none).
pub open spec fn max_spendable_at(claims: Seq<ClaimInput>) -> int
    decreases claims.len(),
{
    if claims.len() == 0 {
        0
    } else {
        let rest = max_spendable_at(claims.drop_last());
        if spendable_at(claims.last()) > rest {
            spendable_at(claims.last())
        } else {
            rest
        }
    }
}

/// The status of an exit at the given chain tip: more transactions if
/// any claim is unconfirmed; otherwise claimable once the tip reaches
/// the greatest spendable-at height.
pub open spec fn spec_exit_status(claims: Seq<ClaimInput>, tip: u32) -> ExitStatus {
    if exists|i: int| 0 <= i < claims.len()
        && (#[trigger] claims[i]).confirmed_at is None {
        ExitStatus::NeedMoreTxs
    } else if max_spendable_at(claims) <= tip {
        ExitStatus::CanSpendAllOutputs
    } else {
        ExitStatus::WaitingForHeight { height: max_spendable_at(claims) as u64 }
    }
}

/// The ongoing exit: the claims still tracked.
pub struct ExitIndex {
    pub claims: Vec<ClaimInput>,
}

impl ExitIndex {
    /// An exit over the given claims.
    pub fn new(claims: Vec<ClaimInput>) -> (r: ExitIndex)
        ensures
            r.claims@ == claims@,
    {
        ExitIndex { claims }
    }

    /// Record the confirmation of one claim's exit transaction.
    pub fn mark_confirmed(&mut self, index: usize, height: u32)
        requires
            index < old(self).claims@.len(),
        ensures
            final(self).claims@ == old(self).claims@.update(
                index as int,
                ClaimInput {
                    confirmed_at: Some(height),
                    ..old(self).claims@[index as int]
                },
            ),
    {
        let mut c = self.claims[index];
        c.confirmed_at = Some(height);
        self.claims[index] = c;
    }

    /// Drop every claim: the exit is done or restarted.
    pub fn clear(&mut self)
        ensures
            final(self).claims@.len() == 0,
    {
        self.claims = Vec::new();
    }

    /// What this exit still needs at the given chain tip.
    pub fn progress(&self, tip: u32) -> (r: ExitStatus)
        ensures
            r == spec_exit_status(self.claims@, tip),
    {
        let ghost claims = self.claims@;
        let mut max_h: u64 = 0;
        let mut i: usize = 0;
        while i < self.claims.len()
            invariant
                claims == self.claims@,
                0 <= i <= claims.len(),
                forall|k: int| 0 <= k < i
                    ==> (#[trigger] claims[k]).confirmed_at is Some,
                max_h == max_spendable_at(claims.take(i as int)),
            decreases claims.len() - i,
        {
            let c = self.claims[i];
            proof {
                assert(claims.take(i as int + 1).drop_last() =~= claims.take(i as int));
                assert(claims.take(i as int + 1).last() == claims[i as int]);
            }
            match c.confirmed_at {
                None => {
                    return ExitStatus::NeedMoreTxs;
                },
                Some(h) => {
                    let s = h as u64 + c.exit_delta as u64;
                    if s > max_h {
                        max_h = s;
                    }
                },
            }
            i += 1;
        }
        proof {
            assert(claims.take(claims.len() as int) =~= claims);
        }
        if max_h <= tip as u64 {
            ExitStatus::CanSpendAllOutputs
        } else {
            ExitStatus::WaitingForHeight { height: max_h }
        }
    }
}

/// The on-chain fee a package of the given weight owes at the given
/// feerate, rounded up to a whole satoshi.
pub open spec fn spec_package_fee(feerate_sat_per_kwu: u64, weight_wu: u64) -> int {
    (feerate_sat_per_kwu * weight_wu + 999) / 1000
}

/// The extra fee the fee-bump child of a CPFP package must add: what
/// the whole package owes at the urgent feerate, minus the fee the
/// package's transactions already carry; zero when they already carry
/// enough.
pub fn cpfp_extra_fee(
    feerate_sat_per_kwu: u64,
    package_weight_wu: u64,
    existing_fee: u64,
) -> (r: u64)
    requires
        feerate_sat_per_kwu * package_weight_wu + 999 <= u64::MAX,
    ensures
        r == if spec_package_fee(feerate_sat_per_kwu, package_weight_wu)
            >= existing_fee {
            spec_package_fee(feerate_sat_per_kwu, package_weight_wu) - existing_fee
        } else {
            0
        },
{
    let needed = (feerate_sat_per_kwu * package_weight_wu + 999) / 1000;
    if needed >= existing_fee {
        needed - existing_fee
    } else {
        0
    }
}

impl ClaimInput {
    /// The transaction input that claims this exit output: it spends
    /// the leaf exit outpoint under the relative exit timelock, not yet
    /// signed. The claim transaction an assembler builds around these
    /// inputs carries version two, per the exit script's semantics.
    pub fn claim_txin(&self) -> (r: crate::vtxo::TxIn)
        ensures
            r@ == (crate::vtxo::TxInV {
                prevout: self.vtxo_point@,
                sequence: self.exit_delta as u32,
                signature: None,
            }),
    {
        crate::vtxo::TxIn {
            prevout: self.vtxo_point,
            sequence: self.exit_delta as u32,
            signature: None,
        }
    }

    /// The output this claim spends, as its signer must see it: the
    /// claim's full amount under the exit script of the given keys.
    pub fn witness_txout(&self, user_pubkey: &[u8; 32], asp_pubkey: &[u8; 32]) -> (r: crate::vtxo::TxOut)
        ensures
            r@.value == self.amount,
            r@.spk == (crate::vtxo::SpkV::Exit {
                user_pubkey: user_pubkey@,
                asp_pubkey: asp_pubkey@,
                exit_delta: self.exit_delta,
            }),
    {
        crate::vtxo::TxOut {
            value: self.amount,
            spk: crate::vtxo::Spk::Exit {
                user_pubkey: *user_pubkey,
                asp_pubkey: *asp_pubkey,
                exit_delta: self.exit_delta,
            },
        }
    }
}

impl ExitIndex {
    /// The inputs of the claim transaction: one per claim, in order,
    /// each spending its exit outpoint under its own exit timelock.
    /// The assembler adds the drain output and the signatures.
    pub fn claim_inputs(&self) -> (r: Vec<crate::vtxo::TxIn>)
        ensures
            r@.len() == self.claims@.len(),
            forall|i: int| 0 <= i < r@.len() ==> (#[trigger] r@[i])@
                == (crate::vtxo::TxInV {
                    prevout: self.claims@[i].vtxo_point@,
                    sequence: self.claims@[i].exit_delta as u32,
                    signature: None,
                }),
    {
        let mut out: Vec<crate::vtxo::TxIn> = Vec::new();
        let mut i: usize = 0;
        while i < self.claims.len()
            invariant
                0 <= i <= self.claims@.len(),
                out@.len() == i,
                forall|k: int| 0 <= k < i ==> (#[trigger] out@[k])@
                    == (crate::vtxo::TxInV {
                        prevout: self.claims@[k].vtxo_point@,
                        sequence: self.claims@[k].exit_delta as u32,
                        signature: None,
                    }),
            decreases self.claims@.len() - i,
        {
            out.push(self.claims[i].claim_txin());
            i += 1;
        }
        out
    }
}

/// Exit monotonicity: once an exit reports that every output can be
/// spent, it keeps reporting so at every later chain tip, as long as
/// its claims are not cleared or replaced.
pub proof fn lemma_exit_monotone(claims: Seq<ClaimInput>, tip1: u32, tip2: u32)
    requires
        spec_exit_status(claims, tip1) is CanSpendAllOutputs,
        tip1 <= tip2,
    ensures
        spec_exit_status(claims, tip2) is CanSpendAllOutputs,
{
}

} // verus!
