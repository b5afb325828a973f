//! The client side of a round: the state a participant tracks across
//! round events, the ownership proof it signs for each input, and the
//! checks it runs against the provider's proposals before signing.

use vstd::prelude::*;
use crate::tree::{VtxoRequest, VtxoRequestV, VtxoTreeSpec};
use crate::vtxo::VtxoId;
use crate::round::ownership_sighash;
use crate::crypto::{schnorr_sig_of, seckey_valid, schnorr_sign};
use crate::bytes::{push_u64, u64_le};

verus! {

broadcast use crate::bytes::lemma_u64_le_len;

/// What a round start announces.
#[derive(Clone, Copy)]
pub struct RoundInfo {
    pub round_seq: u64,
    pub offboard_feerate_sat_per_kvb: u64,
}

/// What a round attempt announces.
#[derive(Clone, Copy)]
pub struct RoundAttempt {
    pub round_seq: u64,
    pub attempt: u64,
}

/// The participant's view of the round in progress.
pub struct RoundState {
    pub info: RoundInfo,
    pub attempt: Option<RoundAttempt>,
}

impl RoundState {
    /// Track a freshly started round.
    pub fn new(info: RoundInfo) -> (r: RoundState)
        ensures
            r.info == info,
            r.attempt is None,
    {
        RoundState { info, attempt: None }
    }

    /// Process an attempt announcement: an attempt of the tracked round
    /// is adopted; one of another round means the participant must
    /// restart on that round.
    pub fn process_attempt(&mut self, attempt: RoundAttempt) -> (r: bool)
        ensures
            r == (attempt.round_seq == old(self).info.round_seq),
            r ==> *final(self) == (RoundState {
                attempt: Some(attempt),
                ..*old(self)
            }),
            !r ==> *final(self) == *old(self),
    {
        if attempt.round_seq == self.info.round_seq {
            self.attempt = Some(attempt);
            true
        } else {
            false
        }
    }
}

/// Sign the ownership proof for one input: a signature over the digest
/// of the input id, the round sequence and the attempt, exactly what
/// the coordinator verifies at admission. Fails only on an invalid
/// secret key.
pub fn sign_ownership_proof(
    id: &VtxoId,
    round_seq: u64,
    attempt: u64,
    seckey: &[u8; 32],
) -> (r: Option<[u8; 64]>)
    ensures
        r is Some <==> seckey_valid(seckey@),
        r is Some ==> r.unwrap()@ == schnorr_sig_of(
            ownership_sighash(id@, round_seq, attempt), seckey@,
        ),
        r is Some ==> crate::crypto::schnorr_valid(
            r.unwrap()@,
            ownership_sighash(id@, round_seq, attempt),
            crate::crypto::xonly_pub_of(seckey@),
        ),
{
    let mut buf: Vec<u8> = Vec::new();
    crate::wire::encode_outpoint(&mut buf, &id.point);
    push_u64(&mut buf, round_seq);
    push_u64(&mut buf, attempt);
    let h = crate::crypto::sha256d(buf.as_slice());
    proof {
        assert(buf@ =~= crate::codec::enc_outpoint(id@) + u64_le(round_seq)
            + u64_le(attempt));
    }
    schnorr_sign(&h, seckey)
}

/// Check that the provider did not swap the round transaction: the
/// signed round transaction must keep the id of the proposed unsigned
/// one (the id never covers witness data, so signing alone cannot
/// change it). Accepted exactly when both byte strings parse as
/// transactions and their ids agree.
pub fn round_txids_match(unsigned_tx: &Vec<u8>, signed_tx: &Vec<u8>) -> (r: bool)
    ensures
        r <==> (crate::crypto::consensus_txid_of(unsigned_tx@) matches Some(a)
            && crate::crypto::consensus_txid_of(signed_tx@) matches Some(b)
            && a == b),
{
    let a = match crate::crypto::consensus_txid(unsigned_tx) {
        Some(a) => a,
        None => {
            return false;
        },
    };
    let b = match crate::crypto::consensus_txid(signed_tx) {
        Some(b) => b,
        None => {
            return false;
        },
    };
    let r = crate::bytes::bytes_eq(&a, &b);
    proof {
        if r {
            assert(a@ =~= b@);
        }
    }
    r
}

/// Check the round transaction's connector output against the round
/// proposal: it must carry one dust unit per forfeited input, under the
/// script derived from the announced connector key. The script bytes
/// come from the caller's key machinery as plain bytes; this check pins
/// value and script exactly.
pub fn connector_output_matches(
    actual: &crate::vtxo::TxOut,
    nb_connectors: u64,
    connector_spk: &Vec<u8>,
) -> (r: bool)
    requires
        nb_connectors * crate::vtxo::P2TR_DUST <= u64::MAX,
    ensures
        r <==> (actual@.value == nb_connectors * crate::vtxo::P2TR_DUST
            && actual@.spk == (crate::vtxo::SpkV::Raw { program: connector_spk@ })),
{
    if actual.value != nb_connectors * crate::vtxo::P2TR_DUST {
        return false;
    }
    match &actual.spk {
        crate::vtxo::Spk::Raw { program } => {
            let r = crate::bytes::vec_bytes_eq(program, connector_spk);
            proof {
                if r {
                    assert(actual@.spk =~= (crate::vtxo::SpkV::Raw {
                        program: connector_spk@,
                    }));
                }
            }
            r
        },
        _ => false,
    }
}

/// The step between the round proposal and the participant's forfeit
/// signatures: the signed tree is handed back — and forfeits may then
/// be signed — exactly when every node's cosign signature verifies and
/// the round transaction's connector output matches the announcement.
/// On any failure nothing is handed back and nothing may be signed.
pub fn accept_round_proposal(
    tree: crate::tree::SignedVtxoTree,
    connector_txout: &crate::vtxo::TxOut,
    nb_connectors: u64,
    connector_spk: &Vec<u8>,
) -> (r: Option<crate::tree::SignedVtxoTree>)
    requires
        crate::tree::sum_ints(crate::tree::leaf_amounts(tree.spec@)) <= u64::MAX,
        crate::tree::nb_tree_levels(crate::tree::leaf_amounts(tree.spec@)) <= u64::MAX,
        nb_connectors * crate::vtxo::P2TR_DUST <= u64::MAX,
    ensures
        r is Some <==> {
            &&& crate::tree::tree_sigs_valid(tree@)
            &&& connector_txout@.value == nb_connectors * crate::vtxo::P2TR_DUST
            &&& connector_txout@.spk == (crate::vtxo::SpkV::Raw {
                program: connector_spk@,
            })
        },
        r matches Some(t) ==> t@ == tree@,
{
    if !connector_output_matches(connector_txout, nb_connectors, connector_spk) {
        return None;
    }
    tree.into_accepted()
}

/// The position of the first request in a list equal to the given one.
pub open spec fn find_request(s: Seq<VtxoRequestV>, x: VtxoRequestV) -> Option<int>
    decreases s.len(),
{
    if s.len() == 0 {
        None
    } else if s[0] == x {
        Some(0)
    } else {
        match find_request(s.drop_first(), x) {
            Some(i) => Some(i + 1),
            None => None,
        }
    }
}

/// Whether a proposed leaf list covers a participant's requests: each
/// request in turn is found in the list and consumed, so that two equal
/// requests need two equal leaves.
pub open spec fn covers_requests(tree: Seq<VtxoRequestV>, ours: Seq<VtxoRequestV>) -> bool
    decreases ours.len(),
{
    if ours.len() == 0 {
        true
    } else {
        match find_request(tree, ours[0]) {
            Some(i) => covers_requests(tree.remove(i), ours.drop_first()),
            None => false,
        }
    }
}

/// Whether two requests are the same.
fn req_eq(a: &VtxoRequest, b: &VtxoRequest) -> (r: bool)
    ensures
        r == (a@ == b@),
{
    let r = crate::bytes::bytes_eq(&a.pubkey, &b.pubkey)
        && crate::bytes::bytes_eq(&a.cosign_pk, &b.cosign_pk)
        && a.amount == b.amount;
    proof {
        if r {
            assert(a@ =~= b@);
        }
    }
    r
}

/// Check that the proposed tree covers every one of the participant's
/// requests, equal requests counted separately. The participant signs
/// only when this holds.
pub fn tree_covers_requests(tree: &VtxoTreeSpec, ours: &Vec<VtxoRequest>) -> (r: bool)
    ensures
        r == covers_requests(
            tree@.vtxos,
            ours@.map_values(|x: VtxoRequest| x@),
        ),
{
    let ghost ourv = ours@.map_values(|x: VtxoRequest| x@);
    let mut remaining: Vec<VtxoRequest> = Vec::new();
    let mut t: usize = 0;
    while t < tree.vtxos.len()
        invariant
            0 <= t <= tree.vtxos@.len(),
            remaining@.map_values(|x: VtxoRequest| x@)
                == tree@.vtxos.take(t as int),
        decreases tree.vtxos@.len() - t,
    {
        let ghost pre = remaining@.map_values(|x: VtxoRequest| x@);
        remaining.push(tree.vtxos[t]);
        proof {
            assert(remaining@.map_values(|x: VtxoRequest| x@)
                =~= pre.push(tree@.vtxos[t as int]));
            assert(tree@.vtxos.take(t as int + 1)
                =~= tree@.vtxos.take(t as int).push(tree@.vtxos[t as int]));
        }
        t += 1;
    }
    proof {
        assert(tree@.vtxos.take(tree@.vtxos.len() as int) =~= tree@.vtxos);
        assert(ourv.skip(0) =~= ourv);
    }
    let mut k: usize = 0;
    while k < ours.len()
        invariant
            0 <= k <= ours@.len(),
            ourv == ours@.map_values(|x: VtxoRequest| x@),
            covers_requests(tree@.vtxos, ourv) == covers_requests(
                remaining@.map_values(|x: VtxoRequest| x@),
                ourv.skip(k as int),
            ),
        decreases ours@.len() - k,
    {
        let ghost rem = remaining@.map_values(|x: VtxoRequest| x@);
        let ghost want = ourv[k as int];
        proof {
            assert(ourv.skip(k as int)[0] == ourv[k as int]);
            assert(ourv.skip(k as int).drop_first() =~= ourv.skip(k as int + 1));
        }
        let x = ours[k];
        proof {
            assert(x@ == want);
        }
        let mut j: usize = 0;
        let mut found = false;
        let mut hit: usize = 0;
        proof {
            assert(rem.skip(0) =~= rem);
        }
        while j < remaining.len() && !found
            invariant
                rem == remaining@.map_values(|x2: VtxoRequest| x2@),
                x@ == want,
                0 <= j <= remaining@.len(),
                !found ==> find_request(rem.skip(j as int), want) == (
                    match find_request(rem, want) {
                        Some(i) => Some(i - j),
                        None => None::<int>,
                    }
                ),
                !found ==> forall|m: int| 0 <= m < j ==> #[trigger] rem[m] != want,
                found ==> 0 <= hit < rem.len() && find_request(rem, want)
                    == Some(hit as int),
            decreases remaining@.len() - j + (if found { 0int } else { 1int }),
        {
            proof {
                assert(rem.skip(j as int)[0] == rem[j as int]);
                assert(rem.skip(j as int).drop_first() =~= rem.skip(j as int + 1));
            }
            if req_eq(&remaining[j], &x) {
                found = true;
                hit = j;
                proof {
                    assert(find_request(rem.skip(j as int), want) == Some(0int));
                }
            } else {
                proof {
                    assert(rem[j as int] != want);
                }
                j += 1;
            }
        }
        if !found {
            proof {
                assert(rem.skip(j as int) =~= Seq::<VtxoRequestV>::empty());
                assert(find_request(rem, want) is None);
                assert(!covers_requests(rem, ourv.skip(k as int)));
            }
            return false;
        }
        proof {
            assert(covers_requests(rem, ourv.skip(k as int))
                == covers_requests(rem.remove(hit as int), ourv.skip(k as int + 1)));
        }
        let ghost pre = remaining@.map_values(|x2: VtxoRequest| x2@);
        remaining.remove(hit);
        proof {
            assert(remaining@.map_values(|x2: VtxoRequest| x2@)
                =~= pre.remove(hit as int));
        }
        k += 1;
    }
    proof {
        assert(ourv.skip(ourv.len() as int) =~= Seq::<VtxoRequestV>::empty());
    }
    true
}

} // verus!
