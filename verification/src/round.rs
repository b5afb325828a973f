//! The round coordinator: the state machine the service provider runs
//! for one settlement round. It collects payment submissions during the
//! submit window, reserves their inputs atomically, builds the VTXO
//! tree from the admitted requests in canonical cosign-key order,
//! collects tree cosign signatures and forfeit signatures, retries with
//! a reduced participant set when a party fails to deliver, and
//! finalizes by marking the forfeited inputs spent, releasing the
//! reservations, and producing the round's balance sheet.
//!
//! Timing lives outside: the driver closes the submit window and
//! reports signing timeouts; the machine decides what follows. The
//! signature material itself is handed on to the aggregation layer;
//! the machine records which party has delivered.

use vstd::prelude::*;
use crate::bytes::u64_le;
use crate::vtxo::{VtxoId, OutPointV, P2TR_DUST};
use crate::tree::{VtxoRequest, VtxoRequestV, VtxoTreeSpec};
use crate::flux::{VtxosInFlux, find_conflict, batch_set, conflict_at};
use crate::store::{VtxoStore, StoredVtxoV, spec_mark_spent};
use crate::crypto::{sha256d_of, schnorr_valid};
use vstd::multiset::Multiset;

verus! {

broadcast use {
    crate::bytes::lemma_u64_le_len,
    vstd::seq_lib::group_to_multiset_ensures,
    vstd::multiset::group_multiset_axioms,
};

/// The parameters a round starts with.
#[derive(Clone, Copy)]
pub struct RoundParams {
    /// The round's sequence number.
    pub round_seq: u64,
    /// The feerate offboard outputs pay, in satoshi per 1000 vbytes.
    pub offboard_feerate_sat_per_kvb: u64,
    /// How many cosign nonces every tree request must supply.
    pub nb_round_nonces: usize,
    /// How many attempts the round may make before it is abandoned.
    pub max_attempts: u64,
    /// The chain tip when the round started; inputs must expire later.
    pub tip_height: u32,
    /// The fee the round transaction itself pays on chain.
    pub onchain_fee: u64,
}

/// An offboard request: an amount sent to an arbitrary on-chain script.
pub struct OffboardRequest {
    pub amount: u64,
    pub script_pubkey: Vec<u8>,
}

/// The view of an offboard request.
#[verifier::ext_equal]
pub ghost struct OffboardRequestV {
    pub amount: u64,
    pub script_pubkey: Seq<u8>,
}

impl View for OffboardRequest {
    type V = OffboardRequestV;

    open spec fn view(&self) -> OffboardRequestV {
        OffboardRequestV { amount: self.amount, script_pubkey: self.script_pubkey@ }
    }
}

/// The on-chain fee an offboard output owes: its output size (eight
/// value bytes, one length byte, the script) at the round's feerate,
/// rounded up to a whole satoshi.
pub open spec fn spec_offboard_fee(spk_len: int, feerate_sat_per_kvb: u64) -> int {
    ((spk_len + 9) * feerate_sat_per_kvb + 999) / 1000
}

/// The fee term of an offboard fits the machine's arithmetic.
pub open spec fn offboard_fee_fits(spk_len: int, feerate_sat_per_kvb: u64) -> bool {
    &&& spk_len + 9 <= u64::MAX
    &&& (spk_len + 9) * feerate_sat_per_kvb + 999 <= u64::MAX
}

/// The offboard fee, executable. The fee term must fit.
pub fn offboard_fee(spk_len: usize, feerate_sat_per_kvb: u64) -> (r: u64)
    requires
        offboard_fee_fits(spk_len as int, feerate_sat_per_kvb),
    ensures
        r == spec_offboard_fee(spk_len as int, feerate_sat_per_kvb),
{
    ((spk_len as u64 + 9) * feerate_sat_per_kvb + 999) / 1000
}

/// One submission: the inputs to forfeit with their ownership proofs,
/// the requested tree leaves with their cosign nonces, and the offboard
/// requests.
pub struct Submission {
    pub input_ids: Vec<VtxoId>,
    pub ownership_proofs: Vec<[u8; 64]>,
    pub vtxo_requests: Vec<VtxoRequest>,
    pub cosign_nonces: Vec<Vec<[u8; 66]>>,
    pub offboards: Vec<OffboardRequest>,
}

/// The view of a submission.
#[verifier::ext_equal]
pub ghost struct SubmissionV {
    pub input_ids: Seq<OutPointV>,
    pub ownership_proofs: Seq<Seq<u8>>,
    pub vtxo_requests: Seq<VtxoRequestV>,
    pub cosign_nonces: Seq<Seq<Seq<u8>>>,
    pub offboards: Seq<OffboardRequestV>,
}

impl View for Submission {
    type V = SubmissionV;

    open spec fn view(&self) -> SubmissionV {
        SubmissionV {
            input_ids: self.input_ids@.map_values(|x: VtxoId| x@),
            ownership_proofs: self.ownership_proofs@.map_values(|x: [u8; 64]| x@),
            vtxo_requests: self.vtxo_requests@.map_values(|x: VtxoRequest| x@),
            cosign_nonces: self.cosign_nonces@.map_values(
                |x: Vec<[u8; 66]>| x@.map_values(|y: [u8; 66]| y@),
            ),
            offboards: self.offboards@.map_values(|x: OffboardRequest| x@),
        }
    }
}

/// The sighash an input owner signs to prove ownership for this round
/// and attempt: the digest of the input id, the round sequence number,
/// and the attempt number.
pub open spec fn ownership_sighash(id: OutPointV, round_seq: u64, attempt: u64) -> Seq<u8> {
    sha256d_of(crate::codec::enc_outpoint(id) + u64_le(round_seq) + u64_le(attempt))
}

/// Why a submission is rejected.
#[derive(Debug)]
pub enum RoundError {
    /// The round is not collecting submissions.
    NotCollecting,
    /// The proof list does not match the input list.
    ProofCountMismatch,
    /// An input id the provider does not know.
    UnknownInput { id: VtxoId },
    /// An input that was already spent.
    AlreadySpent { id: VtxoId },
    /// An input that expires at or before the round's tip.
    InputExpired { id: VtxoId },
    /// An ownership proof that does not verify.
    BadOwnershipProof { id: VtxoId },
    /// A requested tree leaf below the dust bound.
    OutputBelowDust { index: usize },
    /// A request with the wrong number of cosign nonces.
    BadNonceCount { index: usize },
    /// An offboard output below the dust bound.
    OffboardBelowDust { index: usize },
    /// Input amounts do not equal output amounts plus offboard amounts
    /// and fees.
    UnbalancedAmounts,
    /// An input already reserved by another operation.
    VtxoInFlux { id: VtxoId },
    /// The machine is not in the stage the call needs.
    WrongStage,
    /// The given party or input is not part of this round.
    UnknownParty,
    /// The signature list has the wrong length.
    BadSignatureCount,
}

/// One admitted party of the round.
pub struct Participant {
    pub input_ids: Vec<VtxoId>,
    pub vtxo_requests: Vec<VtxoRequest>,
    pub offboards: Vec<OffboardRequest>,
    pub vtxo_sigs_received: bool,
    pub forfeit_done: Vec<bool>,
}

/// The view of an admitted party.
#[verifier::ext_equal]
pub ghost struct ParticipantV {
    pub input_ids: Seq<OutPointV>,
    pub vtxo_requests: Seq<VtxoRequestV>,
    pub offboards: Seq<OffboardRequestV>,
    pub vtxo_sigs_received: bool,
    pub forfeit_done: Seq<bool>,
}

impl View for Participant {
    type V = ParticipantV;

    open spec fn view(&self) -> ParticipantV {
        ParticipantV {
            input_ids: self.input_ids@.map_values(|x: VtxoId| x@),
            vtxo_requests: self.vtxo_requests@.map_values(|x: VtxoRequest| x@),
            offboards: self.offboards@.map_values(|x: OffboardRequest| x@),
            vtxo_sigs_received: self.vtxo_sigs_received,
            forfeit_done: self.forfeit_done@,
        }
    }
}

/// The stage a round is in.
#[derive(Clone, Copy, PartialEq, Eq, Structural, Debug)]
pub enum Stage {
    /// Submissions are accepted.
    Collecting,
    /// The submit window is closed; the tree proposal is being built.
    Proposing,
    /// The tree proposal is out; cosign signatures are awaited.
    AwaitingVtxoSigs,
    /// The round proposal is out; forfeit signatures are awaited.
    AwaitingForfeits,
    /// All signatures arrived; the round may be finalized.
    Finalizable,
    /// The round is done.
    Finished,
    /// The round was abandoned.
    Abandoned,
}

/// Whether one input of a submission is admissible: known to the
/// provider, unspent, expiring after the round's tip, and covered by a
/// valid ownership proof for this round and attempt.
pub open spec fn input_ok(
    m: Map<OutPointV, StoredVtxoV>,
    tip: u32,
    round_seq: u64,
    attempt: u64,
    id: OutPointV,
    ownership_proof: Seq<u8>,
) -> bool {
    &&& m.contains_key(id)
    &&& !m[id].spent
    &&& m[id].expiry_height > tip
    &&& schnorr_valid(
        ownership_proof,
        ownership_sighash(id, round_seq, attempt),
        m[id].user_pubkey,
    )
}

/// The sum of the stored amounts of a submission's inputs.
pub open spec fn sum_input_amounts(
    m: Map<OutPointV, StoredVtxoV>,
    ids: Seq<OutPointV>,
) -> int
    decreases ids.len(),
{
    if ids.len() == 0 {
        0
    } else {
        sum_input_amounts(m, ids.drop_last()) + m[ids.last()].amount
    }
}

/// The sum of the amounts of requested tree leaves.
pub open spec fn sum_leaf_amounts(s: Seq<VtxoRequestV>) -> int
    decreases s.len(),
{
    if s.len() == 0 {
        0
    } else {
        sum_leaf_amounts(s.drop_last()) + s.last().amount
    }
}

/// The sum of offboard amounts plus their on-chain fees.
pub open spec fn sum_offboard_amounts(s: Seq<OffboardRequestV>, feerate: u64) -> int
    decreases s.len(),
{
    if s.len() == 0 {
        0
    } else {
        sum_offboard_amounts(s.drop_last(), feerate) + s.last().amount
            + spec_offboard_fee(s.last().script_pubkey.len() as int, feerate)
    }
}

/// A submission whose books balance: the stored input amounts equal
/// the requested leaf amounts plus the offboard amounts and fees.
pub open spec fn submission_balanced(
    m: Map<OutPointV, StoredVtxoV>,
    sub: SubmissionV,
    feerate: u64,
) -> bool {
    sum_input_amounts(m, sub.input_ids)
        == sum_leaf_amounts(sub.vtxo_requests)
            + sum_offboard_amounts(sub.offboards, feerate)
}

/// A submission that passes every check but the in-flux reservation.
pub open spec fn submission_ok(
    m: Map<OutPointV, StoredVtxoV>,
    tip: u32,
    round_seq: u64,
    attempt: u64,
    nb_nonces: usize,
    feerate: u64,
    sub: SubmissionV,
) -> bool {
    &&& sub.ownership_proofs.len() == sub.input_ids.len()
    &&& sub.cosign_nonces.len() == sub.vtxo_requests.len()
    &&& forall|i: int| 0 <= i < sub.input_ids.len()
        ==> input_ok(m, tip, round_seq, attempt, #[trigger] sub.input_ids[i],
            sub.ownership_proofs[i])
    &&& forall|i: int| 0 <= i < sub.vtxo_requests.len()
        ==> (#[trigger] sub.vtxo_requests[i]).amount >= P2TR_DUST
    &&& forall|i: int| 0 <= i < sub.cosign_nonces.len()
        ==> (#[trigger] sub.cosign_nonces[i]).len() == nb_nonces
    &&& forall|i: int| 0 <= i < sub.offboards.len()
        ==> (#[trigger] sub.offboards[i]).amount >= P2TR_DUST
    &&& submission_balanced(m, sub, feerate)
}

/// The coordinator of one round.
pub struct RoundCoordinator {
    pub params: RoundParams,
    pub attempt: u64,
    pub stage: Stage,
    pub flux: VtxosInFlux,
    pub store: VtxoStore,
    pub participants: Vec<Participant>,
}

impl RoundCoordinator {
    /// The admitted parties, in admission order.
    pub open spec fn parts(&self) -> Seq<ParticipantV> {
        self.participants@.map_values(|p: Participant| p@)
    }

    /// Well-formed: guard and table are well-formed; every admitted
    /// party's lists are aligned; and, until the round ends, every
    /// admitted input is a known, unspent table entry.
    pub open spec fn wf(&self) -> bool {
        &&& self.flux.wf()
        &&& self.store.wf()
        &&& forall|p: int| 0 <= p < self.parts().len() ==> {
            &&& (#[trigger] self.parts()[p]).forfeit_done.len()
                == self.parts()[p].input_ids.len()
            &&& self.parts()[p].input_ids.len() <= usize::MAX
        }
        &&& (self.stage != Stage::Finished && self.stage != Stage::Abandoned)
            ==> forall|p: int, i: int|
                0 <= p < self.parts().len()
                    && 0 <= i < self.parts()[p].input_ids.len()
                ==> {
                    &&& self.store@.contains_key(
                        #[trigger] self.parts()[p].input_ids[i],
                    )
                    &&& !self.store@[self.parts()[p].input_ids[i]].spent
                }
        &&& (self.stage != Stage::Finished && self.stage != Stage::Abandoned)
            ==> forall|p: int| 0 <= p < self.parts().len()
                ==> sum_input_amounts(self.store@, (#[trigger] self.parts()[p]).input_ids)
                    == sum_leaf_amounts(self.parts()[p].vtxo_requests)
                        + sum_offboard_amounts(
                            self.parts()[p].offboards,
                            self.params.offboard_feerate_sat_per_kvb,
                        )
    }

    /// Start a round over the given table: the submit window opens with
    /// the first attempt.
    pub fn new(params: RoundParams, store: VtxoStore) -> (r: RoundCoordinator)
        requires
            store.wf(),
        ensures
            r.wf(),
            r.params == params,
            r.attempt == 1,
            r.stage == Stage::Collecting,
            r.parts().len() == 0,
            r.flux@ == Set::<OutPointV>::empty(),
            r.store@ == store@,
    {
        let r = RoundCoordinator {
            params,
            attempt: 1,
            stage: Stage::Collecting,
            flux: VtxosInFlux::new(),
            store,
            participants: Vec::new(),
        };
        proof {
            assert(r.parts() =~= Seq::<ParticipantV>::empty());
        }
        r
    }

    /// Validate one submission against the table, the round clock and
    /// the books, without touching any state. Checks run in order:
    /// proof alignment; each input in submission order (known, unspent,
    /// unexpired, proof valid); each requested leaf (dust, then nonce
    /// count); each offboard (dust); the balance.
    fn validate_submission(&self, sub: &Submission) -> (r: Result<(), RoundError>)
        requires
            self.wf(),
            sum_input_amounts(self.store@, sub@.input_ids) <= u64::MAX,
            sum_leaf_amounts(sub@.vtxo_requests) <= u64::MAX,
            sum_offboard_amounts(
                sub@.offboards, self.params.offboard_feerate_sat_per_kvb,
            ) <= u64::MAX,
            forall|i: int| 0 <= i < sub@.offboards.len()
                ==> offboard_fee_fits(
                    (#[trigger] sub@.offboards[i]).script_pubkey.len() as int,
                    self.params.offboard_feerate_sat_per_kvb,
                ),
        ensures
            r is Err ==> !(r.unwrap_err() is VtxoInFlux),
            r is Ok <==> submission_ok(
                self.store@,
                self.params.tip_height,
                self.params.round_seq,
                self.attempt,
                self.params.nb_round_nonces,
                self.params.offboard_feerate_sat_per_kvb,
                sub@,
            ),
    {
        let ghost m = self.store@;
        let ghost subv = sub@;
        let ghost rs = self.params.round_seq;
        let ghost att = self.attempt;
        let ghost tip = self.params.tip_height;
        if sub.ownership_proofs.len() != sub.input_ids.len() {
            return Err(RoundError::ProofCountMismatch);
        }
        if sub.cosign_nonces.len() != sub.vtxo_requests.len() {
            return Err(RoundError::ProofCountMismatch);
        }
        // inputs
        let mut i: usize = 0;
        while i < sub.input_ids.len()
            invariant
                self.wf(),
                m == self.store@,
                subv == sub@,
                rs == self.params.round_seq,
                att == self.attempt,
                tip == self.params.tip_height,
                0 <= i <= sub.input_ids@.len(),
                sub.ownership_proofs@.len() == sub.input_ids@.len(),
                forall|k: int| 0 <= k < i
                    ==> input_ok(m, tip, rs, att, #[trigger] subv.input_ids[k],
                        subv.ownership_proofs[k]),
            decreases sub.input_ids@.len() - i,
        {
            let id = sub.input_ids[i];
            proof {
                assert(subv.input_ids[i as int] == id@);
                assert(subv.ownership_proofs[i as int] == sub.ownership_proofs@[i as int]@);
            }
            let entry = match self.store.get(&id) {
                Some(e) => e,
                None => {
                    return Err(RoundError::UnknownInput { id });
                },
            };
            if entry.spent {
                return Err(RoundError::AlreadySpent { id });
            }
            if entry.expiry_height <= self.params.tip_height {
                return Err(RoundError::InputExpired { id });
            }
            let mut buf: Vec<u8> = Vec::new();
            crate::wire::encode_outpoint(&mut buf, &id.point);
            crate::bytes::push_u64(&mut buf, self.params.round_seq);
            crate::bytes::push_u64(&mut buf, self.attempt);
            let h = crate::crypto::sha256d(buf.as_slice());
            proof {
                assert(buf@ =~= crate::codec::enc_outpoint(id@) + u64_le(rs) + u64_le(att));
            }
            if !crate::crypto::schnorr_verify(
                &sub.ownership_proofs[i], &h, &entry.user_pubkey,
            ) {
                return Err(RoundError::BadOwnershipProof { id });
            }
            i += 1;
        }
        // requested leaves
        let mut j: usize = 0;
        while j < sub.vtxo_requests.len()
            invariant
                subv == sub@,
                0 <= j <= sub.vtxo_requests@.len(),
                sub.cosign_nonces@.len() == sub.vtxo_requests@.len(),
                forall|k: int| 0 <= k < j
                    ==> (#[trigger] subv.vtxo_requests[k]).amount >= P2TR_DUST,
                forall|k: int| 0 <= k < j
                    ==> (#[trigger] subv.cosign_nonces[k]).len()
                        == self.params.nb_round_nonces,
            decreases sub.vtxo_requests@.len() - j,
        {
            if sub.vtxo_requests[j].amount < P2TR_DUST {
                proof {
                    assert(subv.vtxo_requests[j as int].amount < P2TR_DUST);
                }
                return Err(RoundError::OutputBelowDust { index: j });
            }
            if sub.cosign_nonces[j].len() != self.params.nb_round_nonces {
                proof {
                    assert(subv.cosign_nonces[j as int]
                        == sub.cosign_nonces@[j as int]@.map_values(|y: [u8; 66]| y@));
                    assert(subv.cosign_nonces[j as int].len()
                        != self.params.nb_round_nonces);
                }
                return Err(RoundError::BadNonceCount { index: j });
            }
            proof {
                assert(subv.cosign_nonces[j as int]
                    == sub.cosign_nonces@[j as int]@.map_values(|y: [u8; 66]| y@));
            }
            j += 1;
        }
        // offboards
        let mut k: usize = 0;
        while k < sub.offboards.len()
            invariant
                subv == sub@,
                0 <= k <= sub.offboards@.len(),
                forall|n: int| 0 <= n < k
                    ==> (#[trigger] subv.offboards[n]).amount >= P2TR_DUST,
            decreases sub.offboards@.len() - k,
        {
            if sub.offboards[k].amount < P2TR_DUST {
                proof {
                    assert(subv.offboards[k as int].amount < P2TR_DUST);
                }
                return Err(RoundError::OffboardBelowDust { index: k });
            }
            k += 1;
        }
        // balance
        proof {
            assert forall|n: int| 0 <= n < sub.input_ids@.len()
                implies m.contains_key((#[trigger] sub.input_ids@[n])@) by {
                assert(subv.input_ids[n] == sub.input_ids@[n]@);
                assert(input_ok(m, tip, rs, att, subv.input_ids[n],
                    subv.ownership_proofs[n]));
            }
            assert(sub.input_ids@.map_values(|x: VtxoId| x@) == subv.input_ids);
            assert(sub.offboards@.map_values(|x: OffboardRequest| x@) == subv.offboards);
            assert forall|n: int| 0 <= n < sub.offboards@.len()
                implies offboard_fee_fits(
                    (#[trigger] sub.offboards@[n])@.script_pubkey.len() as int,
                    self.params.offboard_feerate_sat_per_kvb,
                ) by {
                assert(subv.offboards[n] == sub.offboards@[n]@);
            }
            assert(sub.vtxo_requests@.map_values(|x: VtxoRequest| x@)
                == subv.vtxo_requests);
        }
        let in_sum = self.sum_inputs(&sub.input_ids);
        let leaf_sum = sum_requests(&sub.vtxo_requests);
        let offb_sum = self.sum_offboards(&sub.offboards);
        if leaf_sum > u64::MAX - offb_sum || in_sum != leaf_sum + offb_sum {
            return Err(RoundError::UnbalancedAmounts);
        }
        Ok(())
    }

    /// The sum of the stored amounts of the given input ids.
    fn sum_inputs(&self, ids: &Vec<VtxoId>) -> (r: u64)
        requires
            self.wf(),
            forall|i: int| 0 <= i < ids@.len()
                ==> self.store@.contains_key((#[trigger] ids@[i])@),
            sum_input_amounts(self.store@, ids@.map_values(|x: VtxoId| x@)) <= u64::MAX,
        ensures
            r == sum_input_amounts(self.store@, ids@.map_values(|x: VtxoId| x@)),
    {
        let ghost m = self.store@;
        let ghost views = ids@.map_values(|x: VtxoId| x@);
        let mut sum: u64 = 0;
        let mut i: usize = 0;
        while i < ids.len()
            invariant
                self.wf(),
                m == self.store@,
                views == ids@.map_values(|x: VtxoId| x@),
                0 <= i <= ids@.len(),
                forall|k: int| 0 <= k < ids@.len()
                    ==> m.contains_key((#[trigger] ids@[k])@),
                sum_input_amounts(m, views) <= u64::MAX,
                sum == sum_input_amounts(m, views.take(i as int)),
            decreases ids@.len() - i,
        {
            let id = ids[i];
            let entry = match self.store.get(&id) {
                Some(e) => e,
                None => {
                    proof {
                        assert(m.contains_key(ids@[i as int]@));
                        assert(false);
                    }
                    unreached()
                },
            };
            proof {
                assert(views.take(i as int + 1).drop_last() =~= views.take(i as int));
                assert(views.take(i as int + 1).last() == views[i as int]);
                assert(entry@ == m[views[i as int]]);
                lemma_sum_inputs_bound(m, views, i as int);
            }
            sum = sum + entry.amount;
            i += 1;
        }
        proof {
            assert(views.take(views.len() as int) =~= views);
        }
        sum
    }

    /// The sum of offboard amounts plus their fees.
    fn sum_offboards(&self, offbs: &Vec<OffboardRequest>) -> (r: u64)
        requires
            sum_offboard_amounts(
                offbs@.map_values(|x: OffboardRequest| x@),
                self.params.offboard_feerate_sat_per_kvb,
            ) <= u64::MAX,
            forall|i: int| 0 <= i < offbs@.len()
                ==> offboard_fee_fits(
                    (#[trigger] offbs@[i])@.script_pubkey.len() as int,
                    self.params.offboard_feerate_sat_per_kvb,
                ),
        ensures
            r == sum_offboard_amounts(
                offbs@.map_values(|x: OffboardRequest| x@),
                self.params.offboard_feerate_sat_per_kvb,
            ),
    {
        let feerate = self.params.offboard_feerate_sat_per_kvb;
        let ghost views = offbs@.map_values(|x: OffboardRequest| x@);
        let mut sum: u64 = 0;
        let mut i: usize = 0;
        while i < offbs.len()
            invariant
                feerate == self.params.offboard_feerate_sat_per_kvb,
                views == offbs@.map_values(|x: OffboardRequest| x@),
                0 <= i <= offbs@.len(),
                sum_offboard_amounts(views, feerate) <= u64::MAX,
                forall|k: int| 0 <= k < offbs@.len()
                    ==> offboard_fee_fits(
                        (#[trigger] offbs@[k])@.script_pubkey.len() as int, feerate,
                    ),
                sum == sum_offboard_amounts(views.take(i as int), feerate),
            decreases offbs@.len() - i,
        {
            let o = &offbs[i];
            proof {
                assert(views[i as int] == offbs@[i as int]@);
                assert(views.take(i as int + 1).drop_last() =~= views.take(i as int));
                assert(views.take(i as int + 1).last() == views[i as int]);
                lemma_sum_offboards_bound(views, feerate, i as int);
            }
            let fee = offboard_fee(o.script_pubkey.len(), feerate);
            sum = sum + o.amount + fee;
            i += 1;
        }
        proof {
            assert(views.take(views.len() as int) =~= views);
        }
        sum
    }

    /// Accept or reject one submission during the submit window. On
    /// acceptance the inputs are reserved atomically and the party is
    /// admitted; on any rejection the machine's state is unchanged.
    pub fn submit(&mut self, sub: Submission) -> (r: Result<(), RoundError>)
        requires
            old(self).wf(),
            sum_input_amounts(old(self).store@, sub@.input_ids) <= u64::MAX,
            sum_leaf_amounts(sub@.vtxo_requests) <= u64::MAX,
            sum_offboard_amounts(
                sub@.offboards, old(self).params.offboard_feerate_sat_per_kvb,
            ) <= u64::MAX,
            forall|i: int| 0 <= i < sub@.offboards.len()
                ==> offboard_fee_fits(
                    (#[trigger] sub@.offboards[i]).script_pubkey.len() as int,
                    old(self).params.offboard_feerate_sat_per_kvb,
                ),
        ensures
            final(self).wf(),
            final(self).params == old(self).params,
            final(self).attempt == old(self).attempt,
            final(self).stage == old(self).stage,
            final(self).store@ == old(self).store@,
            r is Ok <==> {
                &&& old(self).stage == Stage::Collecting
                &&& submission_ok(
                    old(self).store@,
                    old(self).params.tip_height,
                    old(self).params.round_seq,
                    old(self).attempt,
                    old(self).params.nb_round_nonces,
                    old(self).params.offboard_feerate_sat_per_kvb,
                    sub@,
                )
                &&& find_conflict(old(self).flux@, sub@.input_ids, 0) is None
            },
            r is Ok ==> {
                &&& final(self).flux@ == old(self).flux@.union(batch_set(sub@.input_ids))
                &&& final(self).parts() == old(self).parts().push(
                    ParticipantV {
                        input_ids: sub@.input_ids,
                        vtxo_requests: sub@.vtxo_requests,
                        offboards: sub@.offboards,
                        vtxo_sigs_received: false,
                        forfeit_done: Seq::new(sub@.input_ids.len(), |i: int| false),
                    },
                )
            },
            r is Err ==> {
                &&& final(self).flux@ == old(self).flux@
                &&& final(self).parts() == old(self).parts()
                &&& (r matches Err(RoundError::VtxoInFlux { id })
                    ==> old(self).flux@.contains(id@)
                        || exists|i: int, j: int| 0 <= i < j < sub@.input_ids.len()
                            && sub@.input_ids[i] == sub@.input_ids[j] && sub@.input_ids[j]
                                == id@)
            },
    {
        if !matches!(self.stage, Stage::Collecting) {
            return Err(RoundError::NotCollecting);
        }
        match self.validate_submission(&sub) {
            Ok(()) => {},
            Err(e) => {
                return Err(e);
            },
        }
        let ghost idviews = sub@.input_ids;
        proof {
            assert(idviews == sub.input_ids@.map_values(|x: VtxoId| x@));
        }
        match self.flux.atomic_check_put(&sub.input_ids) {
            Ok(()) => {},
            Err(id) => {
                proof {
                    assert(self.parts() =~= old(self).parts());
                    assert(self.wf());
                    crate::flux::lemma_no_conflict(old(self).flux@, idviews, 0);
                    let c = find_conflict(old(self).flux@, idviews, 0).unwrap();
                    assert(conflict_at(old(self).flux@, idviews, c));
                    assert(id@ == idviews[c]);
                    if !old(self).flux@.contains(idviews[c]) {
                        let j = choose|j: int| 0 <= j < c
                            && idviews[j] == idviews[c];
                        assert(0 <= j < c < idviews.len()
                            && idviews[j] == idviews[c] && idviews[c] == id@);
                    }
                }
                return Err(RoundError::VtxoInFlux { id });
            },
        }
        let n_inputs = sub.input_ids.len();
        let mut forfeit_done: Vec<bool> = Vec::new();
        let mut i: usize = 0;
        while i < n_inputs
            invariant
                0 <= i <= n_inputs,
                forfeit_done@.len() == i,
                forall|k: int| 0 <= k < i ==> !(#[trigger] forfeit_done@[k]),
            decreases n_inputs - i,
        {
            forfeit_done.push(false);
            i += 1;
        }
        let ghost pre_parts = self.parts();
        let p = Participant {
            input_ids: sub.input_ids,
            vtxo_requests: sub.vtxo_requests,
            offboards: sub.offboards,
            vtxo_sigs_received: false,
            forfeit_done,
        };
        proof {
            assert(p@.forfeit_done =~= Seq::new(idviews.len(), |k: int| false));
        }
        self.participants.push(p);
        proof {
            assert(self.parts() =~= pre_parts.push(p@));
            let newp = self.parts()[self.parts().len() - 1];
            assert(newp.input_ids == idviews);
            assert forall|q: int, n: int|
                0 <= q < self.parts().len() && 0 <= n < self.parts()[q].input_ids.len()
                implies self.store@.contains_key(
                    #[trigger] self.parts()[q].input_ids[n],
                ) && !self.store@[self.parts()[q].input_ids[n]].spent by {
                if q < self.parts().len() - 1 {
                    assert(self.parts()[q] == old(self).parts()[q]);
                } else {
                    assert(self.parts()[q].input_ids[n] == sub@.input_ids[n]);
                    assert(input_ok(old(self).store@, old(self).params.tip_height,
                        old(self).params.round_seq, old(self).attempt,
                        sub@.input_ids[n], sub@.ownership_proofs[n]));
                }
            }
            assert forall|q: int| 0 <= q < self.parts().len()
                implies (#[trigger] self.parts()[q]).forfeit_done.len()
                    == self.parts()[q].input_ids.len()
                    && self.parts()[q].input_ids.len() <= usize::MAX by {
                if q < self.parts().len() - 1 {
                    assert(self.parts()[q] == old(self).parts()[q]);
                } else {
                    let pv = self.participants@[q];
                    assert(self.parts()[q] == pv@);
                    assert(pv.input_ids.len() == pv.input_ids@.len());
                    assert(pv.forfeit_done.len() == pv.forfeit_done@.len());
                }
            }
            assert forall|q: int| 0 <= q < self.parts().len()
                implies sum_input_amounts(
                    self.store@, (#[trigger] self.parts()[q]).input_ids,
                ) == sum_leaf_amounts(self.parts()[q].vtxo_requests)
                    + sum_offboard_amounts(
                        self.parts()[q].offboards,
                        self.params.offboard_feerate_sat_per_kvb,
                    ) by {
                if q < self.parts().len() - 1 {
                    assert(self.parts()[q] == old(self).parts()[q]);
                } else {
                    assert(self.parts()[q].input_ids == sub@.input_ids);
                    assert(self.parts()[q].vtxo_requests == sub@.vtxo_requests);
                    assert(self.parts()[q].offboards == sub@.offboards);
                    assert(submission_balanced(
                        old(self).store@, sub@,
                        old(self).params.offboard_feerate_sat_per_kvb,
                    ));
                }
            }
            assert(self.wf());
        }
        Ok(())
    }
}

// ---------------------------------------------------------------
// canonical ordering of tree requests
// ---------------------------------------------------------------

/// Lexicographic order on byte strings.
pub open spec fn lex_leq(a: Seq<u8>, b: Seq<u8>) -> bool
    decreases a.len(),
{
    if a.len() == 0 {
        true
    } else if b.len() == 0 {
        false
    } else if a[0] < b[0] {
        true
    } else if a[0] > b[0] {
        false
    } else {
        lex_leq(a.drop_first(), b.drop_first())
    }
}

/// Lexicographic order is total.
pub proof fn lemma_lex_total(a: Seq<u8>, b: Seq<u8>)
    ensures
        lex_leq(a, b) || lex_leq(b, a),
    decreases a.len(),
{
    if a.len() > 0 && b.len() > 0 && a[0] == b[0] {
        lemma_lex_total(a.drop_first(), b.drop_first());
    }
}

/// Lexicographic order is transitive.
pub proof fn lemma_lex_trans(a: Seq<u8>, b: Seq<u8>, c: Seq<u8>)
    requires
        lex_leq(a, b),
        lex_leq(b, c),
    ensures
        lex_leq(a, c),
    decreases a.len(),
{
    if a.len() > 0 && b.len() > 0 && c.len() > 0 && a[0] == b[0] && b[0] == c[0] {
        lemma_lex_trans(a.drop_first(), b.drop_first(), c.drop_first());
    }
}

/// Compare two 32-byte keys lexicographically.
pub fn key_leq(a: &[u8; 32], b: &[u8; 32]) -> (r: bool)
    ensures
        r == lex_leq(a@, b@),
{
    let ghost av = a@;
    let ghost bv = b@;
    proof {
        assert(av.skip(0) =~= av);
        assert(bv.skip(0) =~= bv);
    }
    let mut i: usize = 0;
    while i < 32
        invariant
            0 <= i <= 32,
            av == a@,
            bv == b@,
            forall|j: int| 0 <= j < i ==> av[j] == bv[j],
            lex_leq(av, bv) == lex_leq(av.skip(i as int), bv.skip(i as int)),
        decreases 32 - i,
    {
        let x = a[i];
        let y = b[i];
        proof {
            assert(av.skip(i as int)[0] == av[i as int]);
            assert(bv.skip(i as int)[0] == bv[i as int]);
            assert(av.skip(i as int).drop_first() =~= av.skip(i as int + 1));
            assert(bv.skip(i as int).drop_first() =~= bv.skip(i as int + 1));
        }
        if x < y {
            return true;
        }
        if x > y {
            return false;
        }
        i += 1;
    }
    proof {
        assert(av.skip(32) =~= Seq::<u8>::empty());
    }
    true
}

/// Requests ordered by their cosign keys.
pub open spec fn sorted_requests(s: Seq<VtxoRequestV>) -> bool {
    forall|i: int, j: int| 0 <= i < j < s.len()
        ==> lex_leq((#[trigger] s[i]).cosign_pk, (#[trigger] s[j]).cosign_pk)
}

/// The position in an ordered request list at which a request belongs:
/// every earlier key precedes it, and the key at the position (if any)
/// does not.
fn find_insert_pos(out: &Vec<VtxoRequest>, x: &VtxoRequest) -> (j: usize)
    ensures
        0 <= j <= out@.len(),
        forall|k: int| 0 <= k < j
            ==> lex_leq(((#[trigger] out@[k])@).cosign_pk, x@.cosign_pk),
        j < out@.len() ==> !lex_leq(out@[j as int]@.cosign_pk, x@.cosign_pk),
{
    let mut j: usize = 0;
    while j < out.len()
        invariant
            0 <= j <= out@.len(),
            forall|k: int| 0 <= k < j
                ==> lex_leq(((#[trigger] out@[k])@).cosign_pk, x@.cosign_pk),
        decreases out@.len() - j,
    {
        if !key_leq(&out[j].cosign_pk, &x.cosign_pk) {
            return j;
        }
        j += 1;
    }
    j
}

/// Sort requests by their cosign keys: the result is ordered and holds
/// exactly the given requests.
pub fn sort_requests(reqs: Vec<VtxoRequest>) -> (r: Vec<VtxoRequest>)
    ensures
        sorted_requests(r@.map_values(|x: VtxoRequest| x@)),
        r@.map_values(|x: VtxoRequest| x@).to_multiset()
            == reqs@.map_values(|x: VtxoRequest| x@).to_multiset(),
{
    let ghost views = reqs@.map_values(|x: VtxoRequest| x@);
    let mut out: Vec<VtxoRequest> = Vec::new();
    let mut i: usize = 0;
    while i < reqs.len()
        invariant
            0 <= i <= reqs@.len(),
            views == reqs@.map_values(|x: VtxoRequest| x@),
            sorted_requests(out@.map_values(|x: VtxoRequest| x@)),
            out@.map_values(|x: VtxoRequest| x@).to_multiset()
                == views.take(i as int).to_multiset(),
        decreases reqs@.len() - i,
    {
        let x = reqs[i];
        let j = find_insert_pos(&out, &x);
        let ghost pre = out@.map_values(|q: VtxoRequest| q@);
        proof {
            assert(forall|k: int| 0 <= k < pre.len()
                ==> #[trigger] pre[k] == out@[k]@);
            if j < out@.len() {
                lemma_lex_total(pre[j as int].cosign_pk, x@.cosign_pk);
            }
        }
        out.insert(j, x);
        proof {
            let post = out@.map_values(|q: VtxoRequest| q@);
            assert(post =~= pre.insert(j as int, x@));
            // ordering
            assert forall|p: int, q: int| 0 <= p < q < post.len()
                implies lex_leq((#[trigger] post[p]).cosign_pk,
                    (#[trigger] post[q]).cosign_pk) by {
                let jj = j as int;
                if p < jj && q < jj {
                    assert(post[p] == pre[p] && post[q] == pre[q]);
                } else if p < jj && q == jj {
                    assert(post[p] == pre[p] && post[q] == x@);
                } else if p < jj && q > jj {
                    assert(post[p] == pre[p] && post[q] == pre[q - 1]);
                } else if p == jj && q > jj {
                    assert(post[p] == x@ && post[q] == pre[q - 1]);
                    assert(!lex_leq(pre[jj].cosign_pk, x@.cosign_pk));
                    assert(lex_leq(x@.cosign_pk, pre[jj].cosign_pk));
                    if q - 1 > jj {
                        assert(lex_leq(pre[jj].cosign_pk, pre[q - 1].cosign_pk));
                        lemma_lex_trans(x@.cosign_pk, pre[jj].cosign_pk,
                            pre[q - 1].cosign_pk);
                    }
                } else {
                    assert(p > jj && q > jj);
                    assert(post[p] == pre[p - 1] && post[q] == pre[q - 1]);
                }
            }
            // contents
            assert(post.to_multiset() == pre.insert(j as int, x@).to_multiset());
            assert(pre.insert(j as int, x@).to_multiset()
                == pre.to_multiset().insert(x@));
            assert(views.take(i as int + 1)
                =~= views.take(i as int).push(views[i as int]));
            assert(views[i as int] == x@);
            assert(views.take(i as int).push(x@).to_multiset()
                =~= views.take(i as int).to_multiset().insert(x@));
        }
        i += 1;
    }
    proof {
        assert(views.take(views.len() as int) =~= views);
    }
    out
}

/// The sum of requested leaf amounts, executable.
pub fn sum_requests(reqs: &Vec<VtxoRequest>) -> (r: u64)
    requires
        sum_leaf_amounts(reqs@.map_values(|x: VtxoRequest| x@)) <= u64::MAX,
    ensures
        r == sum_leaf_amounts(reqs@.map_values(|x: VtxoRequest| x@)),
{
    let ghost views = reqs@.map_values(|x: VtxoRequest| x@);
    let mut sum: u64 = 0;
    let mut i: usize = 0;
    while i < reqs.len()
        invariant
            views == reqs@.map_values(|x: VtxoRequest| x@),
            0 <= i <= reqs@.len(),
            sum_leaf_amounts(views) <= u64::MAX,
            sum == sum_leaf_amounts(views.take(i as int)),
        decreases reqs@.len() - i,
    {
        proof {
            assert(views[i as int] == reqs@[i as int]@);
            assert(views.take(i as int + 1).drop_last() =~= views.take(i as int));
            assert(views.take(i as int + 1).last() == views[i as int]);
            lemma_sum_leaves_bound(views, i as int);
        }
        sum = sum + reqs[i].amount;
        i += 1;
    }
    proof {
        assert(views.take(views.len() as int) =~= views);
    }
    sum
}

// ---------------------------------------------------------------
// proposals, signature receipt, retries, and finalization
// ---------------------------------------------------------------

/// All tree requests of the admitted parties, in admission order.
pub open spec fn all_requests(parts: Seq<ParticipantV>) -> Seq<VtxoRequestV>
    decreases parts.len(),
{
    if parts.len() == 0 {
        Seq::empty()
    } else {
        all_requests(parts.drop_last()) + parts.last().vtxo_requests
    }
}

/// All input ids of the admitted parties, in admission order.
pub open spec fn all_input_ids(parts: Seq<ParticipantV>) -> Seq<OutPointV>
    decreases parts.len(),
{
    if parts.len() == 0 {
        Seq::empty()
    } else {
        all_input_ids(parts.drop_last()) + parts.last().input_ids
    }
}

/// Whether a party has delivered what the stage awaits.
pub open spec fn responded(p: ParticipantV, stage: Stage) -> bool {
    if stage is AwaitingVtxoSigs {
        p.vtxo_sigs_received
    } else {
        forall|i: int| 0 <= i < p.forfeit_done.len() ==> #[trigger] p.forfeit_done[i]
    }
}

/// The parties that responded, in order.
pub open spec fn kept_parts(parts: Seq<ParticipantV>, stage: Stage) -> Seq<ParticipantV>
    decreases parts.len(),
{
    if parts.len() == 0 {
        Seq::empty()
    } else if responded(parts.last(), stage) {
        kept_parts(parts.drop_last(), stage).push(parts.last())
    } else {
        kept_parts(parts.drop_last(), stage)
    }
}

/// The parties that failed to respond, in order.
pub open spec fn dropped_parts(parts: Seq<ParticipantV>, stage: Stage) -> Seq<ParticipantV>
    decreases parts.len(),
{
    if parts.len() == 0 {
        Seq::empty()
    } else if responded(parts.last(), stage) {
        dropped_parts(parts.drop_last(), stage)
    } else {
        dropped_parts(parts.drop_last(), stage).push(parts.last())
    }
}

/// A party with its delivery marks cleared for a fresh attempt.
pub open spec fn reset_part(p: ParticipantV) -> ParticipantV {
    ParticipantV {
        input_ids: p.input_ids,
        vtxo_requests: p.vtxo_requests,
        offboards: p.offboards,
        vtxo_sigs_received: false,
        forfeit_done: Seq::new(p.forfeit_done.len(), |i: int| false),
    }
}

/// All parties with their delivery marks cleared.
pub open spec fn reset_parts(parts: Seq<ParticipantV>) -> Seq<ParticipantV>
    decreases parts.len(),
{
    if parts.len() == 0 {
        Seq::empty()
    } else {
        reset_parts(parts.drop_last()).push(reset_part(parts.last()))
    }
}

/// What a signing timeout decides.
#[derive(Clone, Copy, PartialEq, Eq, Structural, Debug)]
pub enum TimeoutOutcome {
    /// Every party delivered; the round proceeds.
    Proceed,
    /// Some party failed; the round retries without it.
    NewAttempt,
    /// Some party failed and no retry is possible; the round is over.
    Abandon,
}

/// The balance sheet of a finished round.
pub struct FinishedRound {
    /// The round's sequence number.
    pub round_seq: u64,
    /// The sum of the leaf amounts of the signed VTXO tree.
    pub leaf_total: u64,
    /// The sum of the offboard output amounts.
    pub offboard_amount_total: u64,
    /// The sum of the offboard fees.
    pub offboard_fee_total: u64,
    /// One connector per forfeited input.
    pub nb_connectors: u64,
    /// The value of the connector output: one dust unit per connector.
    pub connector_total: u64,
    /// The fee the round transaction pays on chain.
    pub onchain_fee: u64,
    /// The value the round transaction's funding inputs carry.
    pub funding_value: u64,
    /// The forfeited input ids.
    pub forfeited: Vec<VtxoId>,
}

impl RoundCoordinator {
    /// Build the tree proposal from the admitted parties: the submit
    /// window closes (or a fresh attempt restarts), every delivery mark
    /// is cleared, and the leaf requests are laid out in canonical
    /// cosign-key order. With nobody admitted the round is abandoned.
    pub fn make_proposal(
        &mut self,
        cosign_agg_pk: [u8; 32],
        asp_pk: [u8; 32],
        expiry_height: u32,
        exit_delta: u16,
    ) -> (r: Result<VtxoTreeSpec, RoundError>)
        requires
            old(self).wf(),
        ensures
            final(self).wf(),
            final(self).params == old(self).params,
            final(self).attempt == old(self).attempt,
            final(self).flux@ == old(self).flux@,
            final(self).store@ == old(self).store@,
            r is Ok <==> (old(self).stage == Stage::Collecting
                || old(self).stage == Stage::Proposing) && old(self).parts().len() > 0,
            r is Ok ==> {
                &&& final(self).stage == Stage::AwaitingVtxoSigs
                &&& final(self).parts() == reset_parts(old(self).parts())
                &&& sorted_requests(r.unwrap()@.vtxos)
                &&& r.unwrap()@.vtxos.to_multiset()
                    == all_requests(old(self).parts()).to_multiset()
                &&& r.unwrap()@.cosign_agg_pk == cosign_agg_pk@
                &&& r.unwrap()@.asp_pk == asp_pk@
                &&& r.unwrap()@.expiry_height == expiry_height
                &&& r.unwrap()@.exit_delta == exit_delta
            },
            r is Err ==> if (old(self).stage == Stage::Collecting
                || old(self).stage == Stage::Proposing) {
                final(self).stage == Stage::Abandoned
                    && final(self).parts() == old(self).parts()
            } else {
                final(self).stage == old(self).stage
                    && final(self).parts() == old(self).parts()
            },
    {
        if !(matches!(self.stage, Stage::Collecting) || matches!(self.stage, Stage::Proposing)) {
            return Err(RoundError::WrongStage);
        }
        if self.participants.len() == 0 {
            self.stage = Stage::Abandoned;
            proof {
                assert(self.wf());
            }
            return Err(RoundError::UnknownParty);
        }
        let ghost parts0 = self.parts();
        // collect every request, clearing delivery marks as we go
        let mut reqs: Vec<VtxoRequest> = Vec::new();
        let mut done: Vec<Participant> = Vec::new();
        while self.participants.len() > 0
            invariant
                self.flux == old(self).flux,
                self.store == old(self).store,
                self.stage == old(self).stage,
                self.params == old(self).params,
                self.attempt == old(self).attempt,
                old(self).wf(),
                parts0 == old(self).parts(),
                done@.len() + self.participants@.len() == parts0.len(),
                forall|q: int| 0 <= q < self.participants@.len()
                    ==> ((#[trigger] self.participants@[q])@)
                        == parts0[done@.len() + q],
                forall|q: int| 0 <= q < parts0.len() ==> {
                    &&& ((#[trigger] parts0[q])).forfeit_done.len()
                        == parts0[q].input_ids.len()
                    &&& parts0[q].input_ids.len() <= usize::MAX
                },
                done@.map_values(|p: Participant| p@)
                    == reset_parts(parts0.take(done@.len() as int)),
                reqs@.map_values(|x: VtxoRequest| x@)
                    == all_requests(parts0.take(done@.len() as int)),
            decreases self.participants@.len(),
        {
            let ghost i = done@.len() as int;
            let ghost pv = self.participants@[0]@;
            proof {
                assert(parts0[i] == pv);
                assert(pv.forfeit_done.len() == pv.input_ids.len());
            }
            let mut p = self.participants.remove(0);
            proof {
                assert(p@ == pv);
                assert(p.input_ids@.len() == pv.input_ids.len());
            }
            let mut k: usize = 0;
            while k < p.vtxo_requests.len()
                invariant
                    0 <= k <= p.vtxo_requests@.len(),
                    pv.vtxo_requests
                        == p.vtxo_requests@.map_values(|x: VtxoRequest| x@),
                    reqs@.map_values(|x: VtxoRequest| x@)
                        == all_requests(parts0.take(i))
                            + pv.vtxo_requests.take(k as int),
                decreases p.vtxo_requests@.len() - k,
            {
                let ghost pre = reqs@.map_values(|x: VtxoRequest| x@);
                reqs.push(p.vtxo_requests[k]);
                proof {
                    assert(reqs@.map_values(|x: VtxoRequest| x@)
                        =~= pre.push(pv.vtxo_requests[k as int]));
                    assert(pv.vtxo_requests.take(k as int + 1)
                        =~= pv.vtxo_requests.take(k as int)
                            .push(pv.vtxo_requests[k as int]));
                    assert(pre.push(pv.vtxo_requests[k as int])
                        =~= all_requests(parts0.take(i))
                            + pv.vtxo_requests.take(k as int + 1));
                }
                k += 1;
            }
            p.vtxo_sigs_received = false;
            let n_inputs = p.input_ids.len();
            let mut fresh: Vec<bool> = Vec::new();
            let mut f: usize = 0;
            while f < n_inputs
                invariant
                    0 <= f <= n_inputs,
                    fresh@.len() == f,
                    forall|z: int| 0 <= z < f ==> !(#[trigger] fresh@[z]),
                decreases n_inputs - f,
            {
                fresh.push(false);
                f += 1;
            }
            p.forfeit_done = fresh;
            let ghost done_pre = done@.map_values(|q: Participant| q@);
            proof {
                assert(fresh@ =~= Seq::new(pv.forfeit_done.len(), |z: int| false));
                assert(p@ =~= reset_part(pv));
                assert(pv.vtxo_requests.take(pv.vtxo_requests.len() as int)
                    =~= pv.vtxo_requests);
                assert(parts0.take(i + 1).drop_last() =~= parts0.take(i));
                assert(parts0.take(i + 1).last() == parts0[i]);
            }
            done.push(p);
            proof {
                assert(done@.map_values(|q: Participant| q@)
                    =~= done_pre.push(reset_part(pv)));
                assert(done_pre.push(reset_part(pv))
                    =~= reset_parts(parts0.take(i + 1)));
            }
        }
        self.participants = done;
        let sorted = sort_requests(reqs);
        proof {
            assert(parts0.take(parts0.len() as int) =~= parts0);
            assert(self.parts() == reset_parts(parts0));
            lemma_reset_parts_wf(parts0, old(self).store@);
            assert(self.wf());
        }
        self.stage = Stage::AwaitingVtxoSigs;
        Ok(VtxoTreeSpec {
            vtxos: sorted,
            cosign_agg_pk,
            asp_pk,
            expiry_height,
            exit_delta,
        })
    }
}

impl RoundCoordinator {
    /// Record a party's tree cosign signatures: one signature per nonce
    /// slot, delivered under one of the party's cosign keys. Accepts
    /// exactly when the stage awaits them, the count is right, and some
    /// admitted party uses the key; the first such party is marked.
    pub fn receive_vtxo_sigs(&mut self, cosign_pk: &[u8; 32], n_sigs: usize) -> (r: Result<
        (),
        RoundError,
    >)
        requires
            old(self).wf(),
        ensures
            final(self).wf(),
            final(self).params == old(self).params,
            final(self).attempt == old(self).attempt,
            final(self).stage == old(self).stage,
            final(self).flux@ == old(self).flux@,
            final(self).store@ == old(self).store@,
            r is Ok <==> {
                &&& old(self).stage == Stage::AwaitingVtxoSigs
                &&& n_sigs == old(self).params.nb_round_nonces
                &&& exists|p: int, q: int|
                    0 <= p < old(self).parts().len()
                        && 0 <= q < old(self).parts()[p].vtxo_requests.len()
                        && (#[trigger] old(self).parts()[p].vtxo_requests[q]).cosign_pk
                            == cosign_pk@
            },
            r is Ok ==> exists|p: int| {
                &&& 0 <= p < old(self).parts().len()
                &&& final(self).parts() == old(self).parts().update(
                    p,
                    #[trigger] mark_vtxo_sigs(old(self).parts()[p]),
                )
                &&& exists|q: int| 0 <= q < old(self).parts()[p].vtxo_requests.len()
                    && (#[trigger] old(self).parts()[p].vtxo_requests[q]).cosign_pk
                        == cosign_pk@
            },
            r is Err ==> final(self).parts() == old(self).parts(),
    {
        if !matches!(self.stage, Stage::AwaitingVtxoSigs) {
            return Err(RoundError::WrongStage);
        }
        if n_sigs != self.params.nb_round_nonces {
            return Err(RoundError::BadSignatureCount);
        }
        let ghost parts0 = self.parts();
        // find the first party using this cosign key
        let mut p: usize = 0;
        let mut found = false;
        let mut hit: usize = 0;
        while p < self.participants.len() && !found
            invariant
                parts0 == self.parts(),
                0 <= p <= self.participants@.len(),
                !found ==> forall|a: int, b: int|
                    0 <= a < p && 0 <= b < parts0[a].vtxo_requests.len()
                    ==> (#[trigger] parts0[a].vtxo_requests[b]).cosign_pk != cosign_pk@,
                found ==> 0 <= hit < parts0.len()
                    && exists|b: int| 0 <= b < parts0[hit as int].vtxo_requests.len()
                        && (#[trigger] parts0[hit as int].vtxo_requests[b]).cosign_pk
                            == cosign_pk@,
            decreases self.participants@.len() - p,
        {
            let ghost found0 = found;
            let mut q: usize = 0;
            let nreq = self.participants[p].vtxo_requests.len();
            while q < nreq
                invariant
                    found0 ==> found,
                    !found ==> !found0,
                    parts0 == self.parts(),
                    0 <= p < self.participants@.len(),
                    nreq == parts0[p as int].vtxo_requests.len(),
                    0 <= q <= nreq,
                    !found ==> forall|b: int| 0 <= b < q
                        ==> (#[trigger] parts0[p as int].vtxo_requests[b]).cosign_pk
                            != cosign_pk@,
                    found ==> 0 <= hit < parts0.len()
                        && exists|b: int| 0 <= b < parts0[hit as int].vtxo_requests.len()
                            && (#[trigger] parts0[hit as int].vtxo_requests[b]).cosign_pk
                                == cosign_pk@,
                decreases nreq - q,
            {
                proof {
                    assert(parts0[p as int].vtxo_requests[q as int]
                        == self.participants@[p as int].vtxo_requests@[q as int]@);
                }
                if !found && crate::bytes::bytes_eq(
                    &self.participants[p].vtxo_requests[q].cosign_pk, cosign_pk,
                ) {
                    found = true;
                    hit = p;
                }
                q += 1;
            }
            proof {
                if !found {
                    assert forall|a: int, b: int|
                        0 <= a < p + 1 && 0 <= b < parts0[a].vtxo_requests.len()
                        implies (#[trigger] parts0[a].vtxo_requests[b]).cosign_pk
                            != cosign_pk@ by {
                        if a == p {
                            assert(parts0[p as int].vtxo_requests[b].cosign_pk
                                != cosign_pk@);
                        }
                    }
                }
            }
            p += 1;
        }
        if !found {
            proof {
                assert(forall|a: int, b: int|
                    0 <= a < parts0.len() && 0 <= b < parts0[a].vtxo_requests.len()
                    ==> (#[trigger] parts0[a].vtxo_requests[b]).cosign_pk != cosign_pk@);
                if exists|a: int, b: int|
                    0 <= a < old(self).parts().len()
                        && 0 <= b < old(self).parts()[a].vtxo_requests.len()
                        && (#[trigger] old(self).parts()[a].vtxo_requests[b]).cosign_pk
                            == cosign_pk@ {
                    let (a, b) = choose|a: int, b: int|
                        0 <= a < old(self).parts().len()
                            && 0 <= b < old(self).parts()[a].vtxo_requests.len()
                            && (#[trigger] old(self).parts()[a].vtxo_requests[b])
                                .cosign_pk == cosign_pk@;
                    assert(parts0[a].vtxo_requests[b].cosign_pk == cosign_pk@);
                }
            }
            return Err(RoundError::UnknownParty);
        }
        let ghost hv = parts0[hit as int];
        proof {
            let b = choose|b: int| 0 <= b < parts0[hit as int].vtxo_requests.len()
                && (#[trigger] parts0[hit as int].vtxo_requests[b]).cosign_pk
                    == cosign_pk@;
            assert(old(self).parts()[hit as int].vtxo_requests[b].cosign_pk
                == cosign_pk@);
        }
        let mut part = self.participants.remove(hit);
        part.vtxo_sigs_received = true;
        proof {
            assert(part@ =~= mark_vtxo_sigs(hv));
        }
        self.participants.insert(hit, part);
        proof {
            assert(self.parts() =~= parts0.update(hit as int, mark_vtxo_sigs(hv)));
            assert forall|a: int| 0 <= a < self.parts().len()
                implies ((#[trigger] self.parts()[a]).forfeit_done.len()
                    == self.parts()[a].input_ids.len()
                    && self.parts()[a].input_ids.len() <= usize::MAX) by {
                if a != hit {
                    assert(self.parts()[a] == parts0[a]);
                }
            }
            assert forall|a: int, b: int|
                0 <= a < self.parts().len()
                    && 0 <= b < self.parts()[a].input_ids.len()
                implies self.store@.contains_key(
                    #[trigger] self.parts()[a].input_ids[b],
                ) && !self.store@[self.parts()[a].input_ids[b]].spent by {
                if a != hit {
                    assert(self.parts()[a] == parts0[a]);
                } else {
                    assert(parts0[a].input_ids[b] == self.parts()[a].input_ids[b]);
                }
            }
        }
        Ok(())
    }

    /// Record a party's forfeit signatures for one of its inputs: one
    /// public nonce and one partial signature per connector. Accepts
    /// exactly when the stage awaits them, the counts equal the number
    /// of connectors, and the input belongs to an admitted party; the
    /// first such input is marked.
    pub fn receive_forfeit_sigs(
        &mut self,
        vtxo_id: &VtxoId,
        n_nonces: usize,
        n_sigs: usize,
    ) -> (r: Result<(), RoundError>)
        requires
            old(self).wf(),
            all_input_ids(old(self).parts()).len() <= usize::MAX,
        ensures
            final(self).wf(),
            final(self).params == old(self).params,
            final(self).attempt == old(self).attempt,
            final(self).stage == old(self).stage,
            final(self).flux@ == old(self).flux@,
            final(self).store@ == old(self).store@,
            r is Ok <==> {
                &&& old(self).stage == Stage::AwaitingForfeits
                &&& n_nonces == all_input_ids(old(self).parts()).len()
                &&& n_sigs == all_input_ids(old(self).parts()).len()
                &&& exists|p: int, q: int|
                    0 <= p < old(self).parts().len()
                        && 0 <= q < old(self).parts()[p].input_ids.len()
                        && #[trigger] old(self).parts()[p].input_ids[q] == vtxo_id@
            },
            r is Ok ==> exists|p: int, q: int| {
                &&& 0 <= p < old(self).parts().len()
                &&& 0 <= q < old(self).parts()[p].input_ids.len()
                &&& #[trigger] old(self).parts()[p].input_ids[q] == vtxo_id@
                &&& final(self).parts() == old(self).parts().update(
                    p,
                    mark_forfeit(old(self).parts()[p], q),
                )
            },
            r is Err ==> final(self).parts() == old(self).parts(),
    {
        if !matches!(self.stage, Stage::AwaitingForfeits) {
            return Err(RoundError::WrongStage);
        }
        let nb_connectors = self.count_inputs();
        if n_nonces != nb_connectors || n_sigs != nb_connectors {
            return Err(RoundError::BadSignatureCount);
        }
        let ghost parts0 = self.parts();
        let mut p: usize = 0;
        let mut found = false;
        let mut hit_p: usize = 0;
        let mut hit_q: usize = 0;
        while p < self.participants.len() && !found
            invariant
                parts0 == self.parts(),
                0 <= p <= self.participants@.len(),
                !found ==> forall|a: int, b: int|
                    0 <= a < p && 0 <= b < parts0[a].input_ids.len()
                    ==> #[trigger] parts0[a].input_ids[b] != vtxo_id@,
                found ==> 0 <= hit_p < parts0.len()
                    && 0 <= hit_q < parts0[hit_p as int].input_ids.len()
                    && parts0[hit_p as int].input_ids[hit_q as int] == vtxo_id@,
            decreases self.participants@.len() - p,
        {
            let ghost found0 = found;
            let mut q: usize = 0;
            let nin = self.participants[p].input_ids.len();
            while q < nin
                invariant
                    found0 ==> found,
                    !found ==> !found0,
                    parts0 == self.parts(),
                    0 <= p < self.participants@.len(),
                    nin == parts0[p as int].input_ids.len(),
                    0 <= q <= nin,
                    !found ==> forall|b: int| 0 <= b < q
                        ==> #[trigger] parts0[p as int].input_ids[b] != vtxo_id@,
                    found ==> 0 <= hit_p < parts0.len()
                        && 0 <= hit_q < parts0[hit_p as int].input_ids.len()
                        && parts0[hit_p as int].input_ids[hit_q as int] == vtxo_id@,
                decreases nin - q,
            {
                proof {
                    assert(parts0[p as int].input_ids[q as int]
                        == self.participants@[p as int].input_ids@[q as int]@);
                }
                if !found && self.participants[p].input_ids[q].eq_id(vtxo_id) {
                    found = true;
                    hit_p = p;
                    hit_q = q;
                }
                q += 1;
            }
            proof {
                if !found {
                    assert forall|a: int, b: int|
                        0 <= a < p + 1 && 0 <= b < parts0[a].input_ids.len()
                        implies #[trigger] parts0[a].input_ids[b] != vtxo_id@ by {
                        if a == p {
                            assert(parts0[p as int].input_ids[b] != vtxo_id@);
                        }
                    }
                }
            }
            p += 1;
        }
        if !found {
            proof {
                assert(forall|a: int, b: int|
                    0 <= a < parts0.len() && 0 <= b < parts0[a].input_ids.len()
                    ==> #[trigger] parts0[a].input_ids[b] != vtxo_id@);
                if exists|a: int, b: int|
                    0 <= a < old(self).parts().len()
                        && 0 <= b < old(self).parts()[a].input_ids.len()
                        && #[trigger] old(self).parts()[a].input_ids[b] == vtxo_id@ {
                    let (a, b) = choose|a: int, b: int|
                        0 <= a < old(self).parts().len()
                            && 0 <= b < old(self).parts()[a].input_ids.len()
                            && #[trigger] old(self).parts()[a].input_ids[b] == vtxo_id@;
                    assert(parts0[a].input_ids[b] == vtxo_id@);
                }
            }
            return Err(RoundError::UnknownParty);
        }
        let ghost hv = parts0[hit_p as int];
        proof {
            assert(old(self).parts()[hit_p as int].input_ids[hit_q as int] == vtxo_id@);
        }
        let mut part = self.participants.remove(hit_p);
        proof {
            assert(part@ == hv);
            assert(part.forfeit_done@.len() == part.input_ids@.len());
        }
        let t = true;
        part.forfeit_done[hit_q] = t;
        proof {
            assert(part@ =~= mark_forfeit(hv, hit_q as int));
        }
        self.participants.insert(hit_p, part);
        proof {
            assert(self.parts()
                =~= parts0.update(hit_p as int, mark_forfeit(hv, hit_q as int)));
            assert forall|a: int| 0 <= a < self.parts().len()
                implies ((#[trigger] self.parts()[a]).forfeit_done.len()
                    == self.parts()[a].input_ids.len()
                    && self.parts()[a].input_ids.len() <= usize::MAX) by {
                if a != hit_p {
                    assert(self.parts()[a] == parts0[a]);
                }
            }
            assert forall|a: int, b: int|
                0 <= a < self.parts().len()
                    && 0 <= b < self.parts()[a].input_ids.len()
                implies self.store@.contains_key(
                    #[trigger] self.parts()[a].input_ids[b],
                ) && !self.store@[self.parts()[a].input_ids[b]].spent by {
                if a != hit_p {
                    assert(self.parts()[a] == parts0[a]);
                } else {
                    assert(parts0[a].input_ids[b] == self.parts()[a].input_ids[b]);
                }
            }
        }
        Ok(())
    }

    /// The number of forfeited inputs across all admitted parties: one
    /// connector each.
    pub fn count_inputs(&self) -> (r: usize)
        requires
            self.wf(),
            all_input_ids(self.parts()).len() <= usize::MAX,
        ensures
            r == all_input_ids(self.parts()).len(),
    {
        let ghost parts0 = self.parts();
        let mut n: usize = 0;
        let mut p: usize = 0;
        while p < self.participants.len()
            invariant
                parts0 == self.parts(),
                all_input_ids(parts0).len() <= usize::MAX,
                0 <= p <= self.participants@.len(),
                n == all_input_ids(parts0.take(p as int)).len(),
            decreases self.participants@.len() - p,
        {
            proof {
                assert(parts0.take(p as int + 1).drop_last() =~= parts0.take(p as int));
                assert(parts0.take(p as int + 1).last() == parts0[p as int]);
                lemma_all_input_ids_prefix(parts0, p as int + 1);
                assert(self.participants@[p as int].input_ids@.len()
                    == parts0[p as int].input_ids.len());
            }
            n = n + self.participants[p].input_ids.len();
            p += 1;
        }
        proof {
            assert(parts0.take(parts0.len() as int) =~= parts0);
        }
        n
    }
}

/// Whether a party has delivered what the stage awaits, executable.
fn is_responded(p: &Participant, stage: Stage) -> (r: bool)
    ensures
        r == responded(p@, stage),
{
    match stage {
        Stage::AwaitingVtxoSigs => p.vtxo_sigs_received,
        _ => {
        proof {
            assert(!(stage is AwaitingVtxoSigs));
        }
        let mut i: usize = 0;
        while i < p.forfeit_done.len()
            invariant
                !(stage is AwaitingVtxoSigs),
                0 <= i <= p.forfeit_done@.len(),
                forall|k: int| 0 <= k < i ==> #[trigger] p.forfeit_done@[k],
            decreases p.forfeit_done@.len() - i,
        {
            if !p.forfeit_done[i] {
                proof {
                    assert(!(p@.forfeit_done[i as int]));
                    assert(!responded(p@, stage));
                }
                return false;
            }
            i += 1;
        }
        true
        },
    }
}

/// The total stored value of the parties' inputs.
pub open spec fn total_input_amount(
    m: Map<OutPointV, StoredVtxoV>,
    parts: Seq<ParticipantV>,
) -> int
    decreases parts.len(),
{
    if parts.len() == 0 {
        0
    } else {
        total_input_amount(m, parts.drop_last())
            + sum_input_amounts(m, parts.last().input_ids)
    }
}

/// The total requested leaf value of the parties.
pub open spec fn total_leaf_amount(parts: Seq<ParticipantV>) -> int
    decreases parts.len(),
{
    if parts.len() == 0 {
        0
    } else {
        total_leaf_amount(parts.drop_last()) + sum_leaf_amounts(parts.last().vtxo_requests)
    }
}

/// The total offboard value (amounts and fees) of the parties.
pub open spec fn total_offboard_amount(parts: Seq<ParticipantV>, feerate: u64) -> int
    decreases parts.len(),
{
    if parts.len() == 0 {
        0
    } else {
        total_offboard_amount(parts.drop_last(), feerate)
            + sum_offboard_amounts(parts.last().offboards, feerate)
    }
}

/// Split the parties into responders, kept in place and in order, and
/// non-responders, dropped; the dropped parties' input ids and whether
/// everyone responded are returned.
fn split_responders(parts: &mut Vec<Participant>, stage: Stage) -> (r: (Vec<VtxoId>, bool))
    ensures
        final(parts)@.map_values(|x: Participant| x@)
            == kept_parts(old(parts)@.map_values(|x: Participant| x@), stage),
        r.0@.map_values(|x: VtxoId| x@)
            == all_input_ids(dropped_parts(
                old(parts)@.map_values(|x: Participant| x@), stage,
            )),
        r.1 <==> forall|p: int|
            0 <= p < old(parts)@.len()
            ==> responded((#[trigger] old(parts)@[p])@, stage),
{
    let ghost parts0 = parts@.map_values(|x: Participant| x@);
    let ghost n0 = parts0.len();
    let mut kept: Vec<Participant> = Vec::new();
    let mut dropped_ids: Vec<VtxoId> = Vec::new();
    let mut all_ok = true;
    while parts.len() > 0
        invariant
            parts0 == old(parts)@.map_values(|x: Participant| x@),
            n0 == parts0.len(),
            ({
                let k = n0 - parts@.len();
                &&& 0 <= k <= n0
                &&& forall|q: int| 0 <= q < parts@.len()
                    ==> ((#[trigger] parts@[q])@) == parts0[k + q]
                &&& (all_ok <==> forall|q: int| 0 <= q < k
                    ==> responded(#[trigger] parts0[q], stage))
                &&& kept@.map_values(|x: Participant| x@)
                    == kept_parts(parts0.take(k), stage)
                &&& dropped_ids@.map_values(|x: VtxoId| x@)
                    == all_input_ids(dropped_parts(parts0.take(k), stage))
            }),
        decreases parts@.len(),
    {
        let ghost k = n0 - parts@.len();
        let ghost pv = parts@[0]@;
        proof {
            assert(parts0[k] == pv);
            assert(parts0.take(k + 1).drop_last() =~= parts0.take(k));
            assert(parts0.take(k + 1).last() == parts0[k]);
        }
        let p = parts.remove(0);
        proof {
            assert(p@ == pv);
        }
        if is_responded(&p, stage) {
            let ghost pre = kept@.map_values(|x: Participant| x@);
            kept.push(p);
            proof {
                assert(kept@.map_values(|x: Participant| x@) =~= pre.push(pv));
                assert(kept_parts(parts0.take(k + 1), stage)
                    == kept_parts(parts0.take(k), stage).push(pv));
                if all_ok {
                    assert forall|q: int| 0 <= q < k + 1
                        implies responded(#[trigger] parts0[q], stage) by {
                        if q == k {
                            assert(responded(pv, stage));
                        }
                    }
                } else {
                    assert(!(forall|q: int| 0 <= q < k
                        ==> responded(#[trigger] parts0[q], stage)));
                    let w = choose|q: int| 0 <= q < k
                        && !responded(#[trigger] parts0[q], stage);
                    assert(0 <= w < k + 1 && !responded(parts0[w], stage));
                }
            }
        } else {
            all_ok = false;
            proof {
                assert(!responded(parts0[k], stage));
            }
            let ghost pre = dropped_ids@.map_values(|x: VtxoId| x@);
            let mut z: usize = 0;
            while z < p.input_ids.len()
                invariant
                    0 <= z <= p.input_ids@.len(),
                    pv.input_ids == p.input_ids@.map_values(|x: VtxoId| x@),
                    dropped_ids@.map_values(|x: VtxoId| x@)
                        == pre + pv.input_ids.take(z as int),
                decreases p.input_ids@.len() - z,
            {
                let ghost dpre = dropped_ids@.map_values(|x: VtxoId| x@);
                dropped_ids.push(p.input_ids[z]);
                proof {
                    assert(dropped_ids@.map_values(|x: VtxoId| x@)
                        =~= dpre.push(pv.input_ids[z as int]));
                    assert(pv.input_ids.take(z as int + 1)
                        =~= pv.input_ids.take(z as int).push(pv.input_ids[z as int]));
                    assert(dpre.push(pv.input_ids[z as int])
                        =~= pre + pv.input_ids.take(z as int + 1));
                }
                z += 1;
            }
            proof {
                assert(pv.input_ids.take(pv.input_ids.len() as int) =~= pv.input_ids);
                assert(dropped_parts(parts0.take(k + 1), stage)
                    == dropped_parts(parts0.take(k), stage).push(pv));
                assert(dropped_parts(parts0.take(k), stage).push(pv).drop_last()
                    =~= dropped_parts(parts0.take(k), stage));
                assert(dropped_ids@.map_values(|x: VtxoId| x@)
                    =~= all_input_ids(dropped_parts(parts0.take(k + 1), stage)));
            }
        }
    }
    proof {
        assert(parts0.take(n0 as int) =~= parts0);
        assert forall|p: int| 0 <= p < n0
            implies #[trigger] parts0[p] == (old(parts)@[p])@ by {}
        if all_ok {
            assert forall|p: int| 0 <= p < old(parts)@.len()
                implies responded((#[trigger] old(parts)@[p])@, stage) by {
                assert(responded(parts0[p], stage));
            }
        } else {
            let w = choose|q: int| 0 <= q < n0
                && !responded(#[trigger] parts0[q], stage);
            assert(!responded((old(parts)@[w])@, stage));
        }
    }
    let mut swap = kept;
    core::mem::swap(parts, &mut swap);
    (dropped_ids, all_ok)
}

/// Every input id of the given parties, in order.
pub fn collect_all_ids(parts: &Vec<Participant>) -> (r: Vec<VtxoId>)
    ensures
        r@.map_values(|x: VtxoId| x@)
            == all_input_ids(parts@.map_values(|x: Participant| x@)),
{
    let ghost kv = parts@.map_values(|x: Participant| x@);
    let mut out: Vec<VtxoId> = Vec::new();
    let mut p: usize = 0;
    while p < parts.len()
        invariant
            kv == parts@.map_values(|x: Participant| x@),
            0 <= p <= parts@.len(),
            out@.map_values(|x: VtxoId| x@) == all_input_ids(kv.take(p as int)),
        decreases parts@.len() - p,
    {
        let ghost pre = out@.map_values(|x: VtxoId| x@);
        let ghost pv = parts@[p as int]@;
        let mut z: usize = 0;
        while z < parts[p].input_ids.len()
            invariant
                0 <= p < parts@.len(),
                pv == parts@[p as int]@,
                0 <= z <= parts@[p as int].input_ids@.len(),
                pv.input_ids == parts@[p as int].input_ids@.map_values(|x: VtxoId| x@),
                out@.map_values(|x: VtxoId| x@) == pre + pv.input_ids.take(z as int),
            decreases parts@[p as int].input_ids@.len() - z,
        {
            let ghost dpre = out@.map_values(|x: VtxoId| x@);
            out.push(parts[p].input_ids[z]);
            proof {
                assert(out@.map_values(|x: VtxoId| x@)
                    =~= dpre.push(pv.input_ids[z as int]));
                assert(pv.input_ids.take(z as int + 1)
                    =~= pv.input_ids.take(z as int).push(pv.input_ids[z as int]));
                assert(dpre.push(pv.input_ids[z as int])
                    =~= pre + pv.input_ids.take(z as int + 1));
            }
            z += 1;
        }
        proof {
            assert(pv.input_ids.take(pv.input_ids.len() as int) =~= pv.input_ids);
            assert(kv.take(p as int + 1).drop_last() =~= kv.take(p as int));
            assert(kv.take(p as int + 1).last() == kv[p as int]);
            assert(out@.map_values(|x: VtxoId| x@)
                =~= all_input_ids(kv.take(p as int + 1)));
        }
        p += 1;
    }
    proof {
        assert(kv.take(kv.len() as int) =~= kv);
    }
    out
}

impl RoundCoordinator {
    /// Handle a signing timeout: with every delivery in, the round
    /// proceeds to its next stage; otherwise the parties that failed to
    /// deliver are excluded, their inputs are released, and the round
    /// either starts a fresh attempt with the rest or, when nobody is
    /// left or the attempt budget is spent, is abandoned with every
    /// reservation released.
    pub fn sign_timeout(&mut self) -> (r: TimeoutOutcome)
        requires
            old(self).wf(),
            old(self).stage is AwaitingVtxoSigs || old(self).stage is AwaitingForfeits,
        ensures
            final(self).wf(),
            final(self).params == old(self).params,
            final(self).store@ == old(self).store@,
            r is Proceed <==> forall|p: int|
                0 <= p < old(self).parts().len()
                ==> responded(#[trigger] old(self).parts()[p], old(self).stage),
            r is Proceed ==> {
                &&& if old(self).stage is AwaitingVtxoSigs {
                    final(self).stage is AwaitingForfeits
                } else {
                    final(self).stage is Finalizable
                }
                &&& final(self).parts() == old(self).parts()
                &&& final(self).flux@ == old(self).flux@
                &&& final(self).attempt == old(self).attempt
            },
            r is NewAttempt ==> {
                &&& final(self).stage is Proposing
                &&& final(self).attempt == old(self).attempt + 1
                &&& final(self).attempt <= old(self).params.max_attempts
                &&& final(self).parts()
                    == kept_parts(old(self).parts(), old(self).stage)
                &&& final(self).parts().len() > 0
                &&& final(self).flux@ == old(self).flux@.difference(batch_set(
                    all_input_ids(dropped_parts(old(self).parts(), old(self).stage)),
                ))
            },
            r is Abandon ==> {
                &&& final(self).stage is Abandoned
                &&& final(self).parts().len() == 0
                &&& (kept_parts(old(self).parts(), old(self).stage).len() == 0
                    || old(self).attempt >= old(self).params.max_attempts)
                &&& final(self).flux@ == old(self).flux@
                    .difference(batch_set(all_input_ids(
                        dropped_parts(old(self).parts(), old(self).stage),
                    )))
                    .difference(batch_set(all_input_ids(
                        kept_parts(old(self).parts(), old(self).stage),
                    )))
            },
    {
        let ghost parts0 = self.parts();
        let stage0 = self.stage;
        let (dropped_ids, all_ok) = split_responders(&mut self.participants, stage0);
        proof {
            assert(self.parts() == kept_parts(parts0, stage0));
            if all_ok {
                assert forall|p: int| 0 <= p < parts0.len()
                    implies responded(#[trigger] parts0[p], stage0) by {
                    assert(parts0[p] == (old(self).participants@[p])@);
                    assert(responded((old(self).participants@[p])@, stage0));
                }
            } else {
                assert(!(forall|p: int| 0 <= p < old(self).participants@.len()
                    ==> responded((#[trigger] old(self).participants@[p])@, stage0)));
                let w = choose|p: int| 0 <= p < old(self).participants@.len()
                    && !responded((#[trigger] old(self).participants@[p])@, stage0);
                assert(parts0[w] == (old(self).participants@[w])@);
                assert(!responded(parts0[w], stage0));
            }
        }
        if all_ok {
            proof {
                lemma_kept_all(parts0, stage0);
                assert(self.parts() == old(self).parts());
                assert(self.wf());
            }
            if matches!(stage0, Stage::AwaitingVtxoSigs) {
                self.stage = Stage::AwaitingForfeits;
            } else {
                self.stage = Stage::Finalizable;
            }
            proof {
                assert(self.wf());
            }
            return TimeoutOutcome::Proceed;
        }
        self.flux.release(&dropped_ids);
        proof {
            lemma_kept_parts_wf(parts0, stage0, old(self).store@,
                old(self).params.offboard_feerate_sat_per_kvb);
        }
        if self.participants.len() == 0 || self.attempt >= self.params.max_attempts {
            // abandon: release the remaining reservations too
            let kept_ids = collect_all_ids(&self.participants);
            self.flux.release(&kept_ids);
            self.participants = Vec::new();
            self.stage = Stage::Abandoned;
            proof {
                assert(self.parts() =~= Seq::<ParticipantV>::empty());
                assert(self.wf());
            }
            TimeoutOutcome::Abandon
        } else {
            self.attempt = self.attempt + 1;
            self.stage = Stage::Proposing;
            proof {
                assert(self.wf());
            }
            TimeoutOutcome::NewAttempt
        }
    }
}

/// The arithmetic a finalized round must fit into machine words.
pub open spec fn finalize_fits(
    m: Map<OutPointV, StoredVtxoV>,
    parts: Seq<ParticipantV>,
    feerate: u64,
    onchain_fee: u64,
) -> bool {
    &&& total_input_amount(m, parts) <= u64::MAX
    &&& total_leaf_amount(parts) >= 0
    &&& total_offboard_amount(parts, feerate) >= 0
    &&& all_input_ids(parts).len() * (P2TR_DUST as int)
        + total_input_amount(m, parts) + onchain_fee <= u64::MAX
    &&& all_input_ids(parts).len() <= usize::MAX
    &&& forall|p: int, i: int|
        0 <= p < parts.len() && 0 <= i < parts[p].offboards.len()
        ==> offboard_fee_fits(
            (#[trigger] parts[p].offboards[i]).script_pubkey.len() as int, feerate,
        )
}

impl RoundCoordinator {
    /// Finalize the round: mark every forfeited input spent in the
    /// table, release every reservation, and account for the round
    /// transaction. Forfeit commit and release happen in this one call.
    ///
    /// Round conservation: the sum of the leaf amounts of the signed
    /// tree plus the sum of the offboard amounts equals the value the
    /// round transaction's inputs carry, minus what the round spends
    /// beside them: its on-chain fee, the offboard fees, and the
    /// connector dust.
    pub fn finalize(&mut self) -> (r: FinishedRound)
        requires
            old(self).wf(),
            old(self).stage is Finalizable,
            finalize_fits(
                old(self).store@,
                old(self).parts(),
                old(self).params.offboard_feerate_sat_per_kvb,
                old(self).params.onchain_fee,
            ),
        ensures
            final(self).wf(),
            final(self).stage is Finished,
            final(self).store@ == spec_mark_spent(
                old(self).store@,
                all_input_ids(old(self).parts()),
            ),
            final(self).flux@ == old(self).flux@.difference(batch_set(
                all_input_ids(old(self).parts()),
            )),
            r.round_seq == old(self).params.round_seq,
            r.leaf_total == total_leaf_amount(old(self).parts()),
            r.offboard_amount_total + r.offboard_fee_total == total_offboard_amount(
                old(self).parts(),
                old(self).params.offboard_feerate_sat_per_kvb,
            ),
            r.nb_connectors == all_input_ids(old(self).parts()).len(),
            r.connector_total == r.nb_connectors * P2TR_DUST,
            r.onchain_fee == old(self).params.onchain_fee,
            r.funding_value == r.leaf_total + r.connector_total
                + r.offboard_amount_total + r.offboard_fee_total + r.onchain_fee,
            r.leaf_total + r.offboard_amount_total == r.funding_value
                - r.onchain_fee - r.offboard_fee_total - r.connector_total,
            r.forfeited@.map_values(|x: VtxoId| x@) == all_input_ids(old(self).parts()),
            r.leaf_total + r.offboard_amount_total + r.offboard_fee_total
                == total_input_amount(old(self).store@, old(self).parts()),
    {
        let ghost parts0 = self.parts();
        let ghost m0 = self.store@;
        let feerate = self.params.offboard_feerate_sat_per_kvb;
        // the balance sheet
        let mut leaf_total: u64 = 0;
        let mut offb_amount_total: u64 = 0;
        let mut offb_fee_total: u64 = 0;
        let mut in_total: u64 = 0;
        let mut p: usize = 0;
        while p < self.participants.len()
            invariant
                self.wf(),
                self.stage is Finalizable,
                parts0 == self.parts(),
                m0 == self.store@,
                feerate == self.params.offboard_feerate_sat_per_kvb,
                total_input_amount(m0, parts0) <= u64::MAX,
                forall|a: int, i: int|
                    0 <= a < parts0.len() && 0 <= i < parts0[a].offboards.len()
                    ==> offboard_fee_fits(
                        (#[trigger] parts0[a].offboards[i]).script_pubkey.len() as int,
                        feerate,
                    ),
                0 <= p <= parts0.len(),
                in_total == total_input_amount(m0, parts0.take(p as int)),
                leaf_total == total_leaf_amount(parts0.take(p as int)),
                offb_amount_total + offb_fee_total
                    == total_offboard_amount(parts0.take(p as int), feerate),
                leaf_total + offb_amount_total + offb_fee_total == in_total,
            decreases parts0.len() - p,
        {
            let ghost pv = parts0[p as int];
            proof {
                assert(parts0.take(p as int + 1).drop_last() =~= parts0.take(p as int));
                assert(parts0.take(p as int + 1).last() == parts0[p as int]);
                lemma_total_input_bound(m0, parts0, p as int);
                assert(sum_input_amounts(m0, pv.input_ids)
                    == sum_leaf_amounts(pv.vtxo_requests)
                        + sum_offboard_amounts(pv.offboards, feerate));
                lemma_part_sums_nonneg(m0, pv, feerate);
                assert(self.participants@[p as int]@ == pv);
            }
            let part_in = self.part_input_sum(p);
            let (part_leaf, part_amt, part_fee) = self.part_output_sums(p);
            in_total = in_total + part_in;
            leaf_total = leaf_total + part_leaf;
            offb_amount_total = offb_amount_total + part_amt;
            offb_fee_total = offb_fee_total + part_fee;
            p += 1;
        }
        proof {
            assert(parts0.take(parts0.len() as int) =~= parts0);
        }
        // the forfeited inputs: mark them spent and release them
        let forfeited = collect_all_ids(&self.participants);
        let nb_connectors = forfeited.len() as u64;
        proof {
            lemma_all_ids_known(m0, parts0);
            assert forall|i: int| 0 <= i < forfeited@.len()
                implies m0.contains_key((#[trigger] forfeited@[i])@)
                    && !m0[forfeited@[i]@].spent by {
                assert(forfeited@[i]@ == all_input_ids(parts0)[i]);
            }
        }
        match self.store.mark_spent_checked(&forfeited) {
            Ok(()) => {},
            Err(_) => {
                proof {
                    assert(false);
                }
            },
        }
        self.flux.release(&forfeited);
        self.participants = Vec::new();
        self.stage = Stage::Finished;
        let connector_total = nb_connectors * P2TR_DUST;
        let funding_value = leaf_total + connector_total + offb_amount_total
            + offb_fee_total + self.params.onchain_fee;
        proof {
            assert(self.parts() =~= Seq::<ParticipantV>::empty());
            assert(self.wf());
        }
        FinishedRound {
            round_seq: self.params.round_seq,
            leaf_total,
            offboard_amount_total: offb_amount_total,
            offboard_fee_total: offb_fee_total,
            nb_connectors,
            connector_total,
            onchain_fee: self.params.onchain_fee,
            funding_value,
            forfeited,
        }
    }

    /// The stored value of one party's inputs.
    fn part_input_sum(&self, p: usize) -> (r: u64)
        requires
            self.wf(),
            !(self.stage is Finished),
            !(self.stage is Abandoned),
            0 <= p < self.parts().len(),
            sum_input_amounts(self.store@, self.parts()[p as int].input_ids) <= u64::MAX,
        ensures
            r == sum_input_amounts(self.store@, self.parts()[p as int].input_ids),
    {
        proof {
            assert(self.participants@[p as int]@ == self.parts()[p as int]);
            assert forall|i: int|
                0 <= i < self.participants@[p as int].input_ids@.len()
                implies self.store@.contains_key(
                    (#[trigger] self.participants@[p as int].input_ids@[i])@,
                ) by {
                assert(self.parts()[p as int].input_ids[i]
                    == self.participants@[p as int].input_ids@[i]@);
            }
        }
        self.sum_inputs(&self.participants[p].input_ids)
    }

    /// One party's requested leaf value, offboard value, and offboard
    /// fees.
    fn part_output_sums(&self, p: usize) -> (r: (u64, u64, u64))
        requires
            self.wf(),
            0 <= p < self.parts().len(),
            sum_leaf_amounts(self.parts()[p as int].vtxo_requests) <= u64::MAX,
            sum_offboard_amounts(
                self.parts()[p as int].offboards,
                self.params.offboard_feerate_sat_per_kvb,
            ) <= u64::MAX,
            forall|i: int| 0 <= i < self.parts()[p as int].offboards.len()
                ==> offboard_fee_fits(
                    (#[trigger] self.parts()[p as int].offboards[i]).script_pubkey.len()
                        as int,
                    self.params.offboard_feerate_sat_per_kvb,
                ),
        ensures
            r.0 == sum_leaf_amounts(self.parts()[p as int].vtxo_requests),
            r.1 + r.2 == sum_offboard_amounts(
                self.parts()[p as int].offboards,
                self.params.offboard_feerate_sat_per_kvb,
            ),
            r.1 >= 0 && r.2 >= 0,
    {
        proof {
            assert(self.participants@[p as int]@ == self.parts()[p as int]);
            assert(self.participants@[p as int].vtxo_requests@
                .map_values(|x: VtxoRequest| x@)
                == self.parts()[p as int].vtxo_requests);
            assert(self.participants@[p as int].offboards@
                .map_values(|x: OffboardRequest| x@)
                == self.parts()[p as int].offboards);
        }
        let leaf = sum_requests(&self.participants[p].vtxo_requests);
        let feerate = self.params.offboard_feerate_sat_per_kvb;
        let ghost views = self.parts()[p as int].offboards;
        let offbs = &self.participants[p].offboards;
        let mut amt: u64 = 0;
        let mut fee: u64 = 0;
        let mut i: usize = 0;
        while i < offbs.len()
            invariant
                feerate == self.params.offboard_feerate_sat_per_kvb,
                views == offbs@.map_values(|x: OffboardRequest| x@),
                0 <= i <= offbs@.len(),
                sum_offboard_amounts(views, feerate) <= u64::MAX,
                forall|k: int| 0 <= k < views.len()
                    ==> offboard_fee_fits(
                        (#[trigger] views[k]).script_pubkey.len() as int, feerate,
                    ),
                amt + fee == sum_offboard_amounts(views.take(i as int), feerate),
                amt >= 0 && fee >= 0,
            decreases offbs@.len() - i,
        {
            let o = &offbs[i];
            proof {
                assert(views[i as int] == offbs@[i as int]@);
                assert(views.take(i as int + 1).drop_last() =~= views.take(i as int));
                assert(views.take(i as int + 1).last() == views[i as int]);
                lemma_sum_offboards_bound(views, feerate, i as int);
            }
            let f = offboard_fee(o.script_pubkey.len(), feerate);
            amt = amt + o.amount;
            fee = fee + f;
            i += 1;
        }
        proof {
            assert(views.take(views.len() as int) =~= views);
        }
        (leaf, amt, fee)
    }
}

/// A prefix of the parties' input totals plus the next party's total
/// never exceeds the whole, and each part is nonnegative.
proof fn lemma_total_input_bound(
    m: Map<OutPointV, StoredVtxoV>,
    parts: Seq<ParticipantV>,
    k: int,
)
    requires
        0 <= k < parts.len(),
    ensures
        total_input_amount(m, parts) >= total_input_amount(m, parts.take(k))
            + sum_input_amounts(m, parts[k].input_ids),
    decreases parts.len(),
{
    if k == parts.len() - 1 {
        assert(parts.take(k) =~= parts.drop_last());
    } else {
        lemma_total_input_bound(m, parts.drop_last(), k);
        assert(parts.drop_last().take(k) =~= parts.take(k));
        assert(parts.drop_last()[k] == parts[k]);
        lemma_sum_inputs_nonneg(m, parts.last().input_ids);
    }
}

/// Input sums read from the table are nonnegative... provided every
/// amount is, which holds since amounts are machine words.
proof fn lemma_sum_inputs_nonneg(m: Map<OutPointV, StoredVtxoV>, ids: Seq<OutPointV>)
    ensures
        sum_input_amounts(m, ids) >= 0,
    decreases ids.len(),
{
    if ids.len() > 0 {
        lemma_sum_inputs_nonneg(m, ids.drop_last());
    }
}

/// Every sum of one party is nonnegative.
proof fn lemma_part_sums_nonneg(
    m: Map<OutPointV, StoredVtxoV>,
    p: ParticipantV,
    feerate: u64,
)
    ensures
        sum_input_amounts(m, p.input_ids) >= 0,
        sum_leaf_amounts(p.vtxo_requests) >= 0,
        sum_offboard_amounts(p.offboards, feerate) >= 0,
{
    lemma_sum_inputs_nonneg(m, p.input_ids);
    lemma_sum_leaves_nonneg(p.vtxo_requests);
    lemma_sum_offboards_nonneg(p.offboards, feerate);
}

/// Leaf sums are nonnegative.
proof fn lemma_sum_leaves_nonneg(s: Seq<VtxoRequestV>)
    ensures
        sum_leaf_amounts(s) >= 0,
    decreases s.len(),
{
    if s.len() > 0 {
        lemma_sum_leaves_nonneg(s.drop_last());
    }
}

/// Offboard sums are nonnegative.
proof fn lemma_sum_offboards_nonneg(s: Seq<OffboardRequestV>, feerate: u64)
    ensures
        sum_offboard_amounts(s, feerate) >= 0,
    decreases s.len(),
{
    if s.len() > 0 {
        lemma_sum_offboards_nonneg(s.drop_last(), feerate);
    }
}

/// Every input id of admitted parties is a known, unspent table entry.
proof fn lemma_all_ids_known(m: Map<OutPointV, StoredVtxoV>, parts: Seq<ParticipantV>)
    requires
        forall|p: int, i: int|
            0 <= p < parts.len() && 0 <= i < parts[p].input_ids.len()
            ==> m.contains_key(#[trigger] parts[p].input_ids[i])
                && !m[parts[p].input_ids[i]].spent,
    ensures
        forall|i: int| 0 <= i < all_input_ids(parts).len()
            ==> m.contains_key(#[trigger] all_input_ids(parts)[i])
                && !m[all_input_ids(parts)[i]].spent,
    decreases parts.len(),
{
    if parts.len() > 0 {
        assert(forall|p: int| 0 <= p < parts.len() - 1
            ==> #[trigger] parts.drop_last()[p] == parts[p]);
        lemma_all_ids_known(m, parts.drop_last());
        let whole = all_input_ids(parts);
        let front = all_input_ids(parts.drop_last());
        assert forall|i: int| 0 <= i < whole.len()
            implies m.contains_key(#[trigger] whole[i]) && !m[whole[i]].spent by {
            if i < front.len() {
                assert(whole[i] == front[i]);
            } else {
                assert(whole[i] == parts.last().input_ids[i - front.len()]);
                assert(parts[parts.len() - 1].input_ids[i - front.len()] == whole[i]);
            }
        }
    }
}

/// Round conservation: for a finished round, the root of the signed
/// VTXO tree carries exactly the leaf total, and the leaf total plus
/// the offboard amounts equals the round transaction's input value
/// minus its on-chain fee, the offboard fees, and the connector dust.
pub proof fn lemma_round_conservation(
    leaves: Seq<int>,
    leaf_total: int,
    offboard_amount_total: int,
    offboard_fee_total: int,
    connector_total: int,
    onchain_fee: int,
    funding_value: int,
)
    requires
        leaves.len() >= 1,
        crate::tree::sum_ints(leaves) == leaf_total,
        funding_value == leaf_total + connector_total + offboard_amount_total
            + offboard_fee_total + onchain_fee,
    ensures
        crate::tree::root_amount(leaves) == leaf_total,
        crate::tree::root_amount(leaves) + offboard_amount_total
            == funding_value - onchain_fee - offboard_fee_total - connector_total,
{
    crate::tree::lemma_tree_conservation(leaves);
}

/// When every party responded, all of them are kept.
proof fn lemma_kept_all(parts: Seq<ParticipantV>, stage: Stage)
    requires
        forall|p: int| 0 <= p < parts.len()
            ==> responded(#[trigger] parts[p], stage),
    ensures
        kept_parts(parts, stage) == parts,
    decreases parts.len(),
{
    if parts.len() > 0 {
        assert(forall|p: int| 0 <= p < parts.len() - 1
            ==> #[trigger] parts.drop_last()[p] == parts[p]);
        lemma_kept_all(parts.drop_last(), stage);
        assert(responded(parts[parts.len() - 1], stage));
        assert(kept_parts(parts, stage)
            =~= parts.drop_last().push(parts.last()));
        assert(parts.drop_last().push(parts.last()) =~= parts);
    }
}

/// The kept parties inherit every well-formedness fact from the whole
/// list.
proof fn lemma_kept_parts_wf(
    parts: Seq<ParticipantV>,
    stage: Stage,
    m: Map<OutPointV, StoredVtxoV>,
    feerate: u64,
)
    requires
        forall|p: int| 0 <= p < parts.len() ==> {
            &&& (#[trigger] parts[p]).forfeit_done.len() == parts[p].input_ids.len()
            &&& parts[p].input_ids.len() <= usize::MAX
        },
        forall|p: int, i: int|
            0 <= p < parts.len() && 0 <= i < parts[p].input_ids.len()
            ==> m.contains_key(#[trigger] parts[p].input_ids[i])
                && !m[parts[p].input_ids[i]].spent,
        forall|p: int| 0 <= p < parts.len()
            ==> sum_input_amounts(m, (#[trigger] parts[p]).input_ids)
                == sum_leaf_amounts(parts[p].vtxo_requests)
                    + sum_offboard_amounts(parts[p].offboards, feerate),
    ensures
        forall|p: int| 0 <= p < kept_parts(parts, stage).len() ==> {
            &&& (#[trigger] kept_parts(parts, stage)[p]).forfeit_done.len()
                == kept_parts(parts, stage)[p].input_ids.len()
            &&& kept_parts(parts, stage)[p].input_ids.len() <= usize::MAX
        },
        forall|p: int, i: int|
            0 <= p < kept_parts(parts, stage).len()
                && 0 <= i < kept_parts(parts, stage)[p].input_ids.len()
            ==> m.contains_key(#[trigger] kept_parts(parts, stage)[p].input_ids[i])
                && !m[kept_parts(parts, stage)[p].input_ids[i]].spent,
        forall|p: int| 0 <= p < kept_parts(parts, stage).len()
            ==> sum_input_amounts(m, (#[trigger] kept_parts(parts, stage)[p]).input_ids)
                == sum_leaf_amounts(kept_parts(parts, stage)[p].vtxo_requests)
                    + sum_offboard_amounts(kept_parts(parts, stage)[p].offboards, feerate),
    decreases parts.len(),
{
    if parts.len() > 0 {
        assert(forall|p: int| 0 <= p < parts.len() - 1
            ==> #[trigger] parts.drop_last()[p] == parts[p]);
        lemma_kept_parts_wf(parts.drop_last(), stage, m, feerate);
        let kd = kept_parts(parts.drop_last(), stage);
        if responded(parts.last(), stage) {
            let kp = kept_parts(parts, stage);
            assert(kp == kd.push(parts.last()));
            assert forall|p: int| 0 <= p < kp.len()
                implies ((#[trigger] kp[p]).forfeit_done.len()
                    == kp[p].input_ids.len()
                    && kp[p].input_ids.len() <= usize::MAX
                    && sum_input_amounts(m, kp[p].input_ids)
                        == sum_leaf_amounts(kp[p].vtxo_requests)
                            + sum_offboard_amounts(kp[p].offboards, feerate)) by {
                if p < kd.len() {
                    assert(kp[p] == kd[p]);
                } else {
                    assert(kp[p] == parts[parts.len() - 1]);
                }
            }
            assert forall|p: int, i: int|
                0 <= p < kp.len() && 0 <= i < kp[p].input_ids.len()
                implies m.contains_key(#[trigger] kp[p].input_ids[i])
                    && !m[kp[p].input_ids[i]].spent by {
                if p < kd.len() {
                    assert(kp[p] == kd[p]);
                } else {
                    assert(kp[p] == parts[parts.len() - 1]);
                    assert(parts[parts.len() - 1].input_ids[i] == kp[p].input_ids[i]);
                }
            }
        }
    }
}

/// A party with its tree cosign delivery marked.
pub open spec fn mark_vtxo_sigs(p: ParticipantV) -> ParticipantV {
    ParticipantV {
        input_ids: p.input_ids,
        vtxo_requests: p.vtxo_requests,
        offboards: p.offboards,
        vtxo_sigs_received: true,
        forfeit_done: p.forfeit_done,
    }
}

/// A party with the forfeit delivery of one input marked.
pub open spec fn mark_forfeit(p: ParticipantV, q: int) -> ParticipantV {
    ParticipantV {
        input_ids: p.input_ids,
        vtxo_requests: p.vtxo_requests,
        offboards: p.offboards,
        vtxo_sigs_received: p.vtxo_sigs_received,
        forfeit_done: p.forfeit_done.update(q, true),
    }
}

/// Every prefix of parties lists no more input ids than the whole.
proof fn lemma_all_input_ids_prefix(parts: Seq<ParticipantV>, k: int)
    requires
        0 <= k <= parts.len(),
    ensures
        all_input_ids(parts.take(k)).len() <= all_input_ids(parts).len(),
    decreases parts.len(),
{
    if k == parts.len() {
        assert(parts.take(k) =~= parts);
    } else if parts.len() > 0 {
        lemma_all_input_ids_prefix(parts.drop_last(), k);
        assert(parts.drop_last().take(k) =~= parts.take(k));
    }
}

/// Clearing delivery marks keeps every well-formedness fact of the
/// parties: list alignment, bounded lengths, and the known-unspent
/// state of their inputs.
proof fn lemma_reset_parts_wf(
    parts: Seq<ParticipantV>,
    m: Map<OutPointV, StoredVtxoV>,
)
    requires
        forall|p: int| 0 <= p < parts.len() ==> {
            &&& (#[trigger] parts[p]).forfeit_done.len() == parts[p].input_ids.len()
            &&& parts[p].input_ids.len() <= usize::MAX
        },
        forall|p: int, i: int|
            0 <= p < parts.len() && 0 <= i < parts[p].input_ids.len()
            ==> m.contains_key(#[trigger] parts[p].input_ids[i])
                && !m[parts[p].input_ids[i]].spent,
    ensures
        reset_parts(parts).len() == parts.len(),
        forall|p: int| 0 <= p < parts.len()
            ==> #[trigger] reset_parts(parts)[p] == reset_part(parts[p]),
        forall|p: int| 0 <= p < reset_parts(parts).len() ==> {
            &&& (#[trigger] reset_parts(parts)[p]).forfeit_done.len()
                == reset_parts(parts)[p].input_ids.len()
            &&& reset_parts(parts)[p].input_ids.len() <= usize::MAX
        },
        forall|p: int, i: int|
            0 <= p < reset_parts(parts).len()
                && 0 <= i < reset_parts(parts)[p].input_ids.len()
            ==> m.contains_key(#[trigger] reset_parts(parts)[p].input_ids[i])
                && !m[reset_parts(parts)[p].input_ids[i]].spent,
    decreases parts.len(),
{
    if parts.len() > 0 {
        lemma_reset_parts_wf(parts.drop_last(), m);
        assert forall|p: int| 0 <= p < parts.len()
            implies #[trigger] reset_parts(parts)[p] == reset_part(parts[p]) by {
            if p < parts.len() - 1 {
                assert(parts.drop_last()[p] == parts[p]);
            }
        }
    }
}

/// A prefix of input amounts plus the next amount never exceeds the
/// whole sum.
proof fn lemma_sum_inputs_bound(
    m: Map<OutPointV, StoredVtxoV>,
    ids: Seq<OutPointV>,
    k: int,
)
    requires
        0 <= k < ids.len(),
    ensures
        sum_input_amounts(m, ids) >= sum_input_amounts(m, ids.take(k)) + m[ids[k]].amount,
    decreases ids.len(),
{
    if k == ids.len() - 1 {
        assert(ids.take(k) =~= ids.drop_last());
    } else {
        lemma_sum_inputs_bound(m, ids.drop_last(), k);
        assert(ids.drop_last().take(k) =~= ids.take(k));
        assert(ids.drop_last()[k] == ids[k]);
    }
}

/// A prefix of leaf amounts plus the next amount never exceeds the
/// whole sum.
proof fn lemma_sum_leaves_bound(s: Seq<VtxoRequestV>, k: int)
    requires
        0 <= k < s.len(),
    ensures
        sum_leaf_amounts(s) >= sum_leaf_amounts(s.take(k)) + s[k].amount,
    decreases s.len(),
{
    if k == s.len() - 1 {
        assert(s.take(k) =~= s.drop_last());
    } else {
        lemma_sum_leaves_bound(s.drop_last(), k);
        assert(s.drop_last().take(k) =~= s.take(k));
        assert(s.drop_last()[k] == s[k]);
    }
}

/// A prefix of offboard amounts plus the next amount and fee never
/// exceeds the whole sum.
proof fn lemma_sum_offboards_bound(s: Seq<OffboardRequestV>, feerate: u64, k: int)
    requires
        0 <= k < s.len(),
    ensures
        sum_offboard_amounts(s, feerate) >= sum_offboard_amounts(s.take(k), feerate)
            + s[k].amount + spec_offboard_fee(s[k].script_pubkey.len() as int, feerate),
        spec_offboard_fee(s[k].script_pubkey.len() as int, feerate) >= 0,
    decreases s.len(),
{
    if k == s.len() - 1 {
        assert(s.take(k) =~= s.drop_last());
    } else {
        lemma_sum_offboards_bound(s.drop_last(), feerate, k);
        assert(s.drop_last().take(k) =~= s.take(k));
        assert(s.drop_last()[k] == s[k]);
    }
}

} // verus!
