//! Out-of-round (arkoor) transfers: a peer-to-peer VTXO spend cosigned
//! by the service provider without a full round. The transfer spends
//! the input VTXOs' exit outputs into fresh exit outputs for the
//! recipient and the change, plus one fee anchor.

use vstd::prelude::*;
use crate::bytes::{u64_le, u64_of_le, push_u64, read_u64, push_bytes, read_bytes};
use crate::vtxo::{OutPoint, Spk, SpkV, TxOut, TxOutV, TxIn, Tx, Vtxo, VtxoV, VtxoSpec, VtxoId, vtxo_views, lemma_vtxo_views};
use crate::codec::{enc_vtxo_items, dec_vtxo_items, txid_of};

verus! {

broadcast use crate::bytes::lemma_u64_le_len;

/// The fee the service provider charges for an out-of-round transfer,
/// in satoshi.
pub const OOR_FEE: u64 = 0;

/// A requested output: the destination public key and the amount.
#[derive(Clone, Copy)]
pub struct PaymentRequest {
    pub pubkey: [u8; 32],
    pub amount: u64,
}

/// The view of a requested output.
#[verifier::ext_equal]
pub ghost struct PaymentRequestV {
    pub pubkey: Seq<u8>,
    pub amount: u64,
}

impl View for PaymentRequest {
    type V = PaymentRequestV;

    open spec fn view(&self) -> PaymentRequestV {
        PaymentRequestV { pubkey: self.pubkey@, amount: self.amount }
    }
}

/// The sum of the amounts of a list of VTXOs.
pub open spec fn sum_vtxo_amounts(s: Seq<VtxoV>) -> int
    decreases s.len(),
{
    if s.len() == 0 {
        0
    } else {
        sum_vtxo_amounts(s.drop_last()) + s.last().amount_of()
    }
}

/// The sum of the amounts of a list of requested outputs.
pub open spec fn sum_request_amounts(s: Seq<PaymentRequestV>) -> int
    decreases s.len(),
{
    if s.len() == 0 {
        0
    } else {
        sum_request_amounts(s.drop_last()) + s.last().amount
    }
}

/// The least expiry height among a list of VTXOs, or the given bound
/// for an empty list.
pub open spec fn min_expiry(s: Seq<VtxoV>, bound: u32) -> u32
    decreases s.len(),
{
    if s.len() == 0 {
        bound
    } else {
        let rest = min_expiry(s.drop_last(), bound);
        if s.last().spec_of().expiry_height < rest {
            s.last().spec_of().expiry_height
        } else {
            rest
        }
    }
}

/// An out-of-round payment: the input VTXOs and the requested outputs.
pub struct OorPayment {
    pub asp_pubkey: [u8; 32],
    pub exit_delta: u16,
    pub inputs: Vec<Vtxo>,
    pub outputs: Vec<PaymentRequest>,
}

/// The view of an out-of-round payment.
#[verifier::ext_equal]
pub ghost struct OorPaymentV {
    pub asp_pubkey: Seq<u8>,
    pub exit_delta: u16,
    pub inputs: Seq<VtxoV>,
    pub outputs: Seq<PaymentRequestV>,
}

impl View for OorPayment {
    type V = OorPaymentV;

    open spec fn view(&self) -> OorPaymentV {
        OorPaymentV {
            asp_pubkey: self.asp_pubkey@,
            exit_delta: self.exit_delta,
            inputs: vtxo_views(self.inputs@),
            outputs: self.outputs@.map_values(|o: PaymentRequest| o@),
        }
    }
}

/// Why an out-of-round payment is rejected.
#[derive(Debug)]
pub enum OorError {
    /// An output amount lies below the pay-to-taproot dust bound; the
    /// offending output index is carried.
    OutputBelowDust { index: usize },
    /// The input amounts do not cover the output amounts plus the fee
    /// exactly.
    UnbalancedAmounts,
    /// An input is currently reserved by another operation.
    VtxoInFlux { id: VtxoId },
    /// An input was already spent.
    AlreadySpent { id: VtxoId },
}

/// A payment with well-balanced books: every output at least dust, and
/// input amounts equal to output amounts plus the fee.
pub open spec fn oor_balanced(p: OorPaymentV) -> bool {
    &&& forall|i: int| 0 <= i < p.outputs.len()
        ==> (#[trigger] p.outputs[i]).amount >= crate::vtxo::P2TR_DUST
    &&& sum_vtxo_amounts(p.inputs) == sum_request_amounts(p.outputs) + OOR_FEE
}

impl OorPayment {
    /// The sum of the input amounts; `None` when it exceeds the
    /// largest representable amount.
    pub fn total_input_amount(&self) -> (r: Option<u64>)
        ensures
            match r {
                Some(n) => n == sum_vtxo_amounts(self@.inputs),
                None => sum_vtxo_amounts(self@.inputs) > u64::MAX,
            },
    {
        proof {
            lemma_vtxo_views(self.inputs@);
        }
        let ghost views = self@.inputs;
        let mut sum: u64 = 0;
        let mut i: usize = 0;
        while i < self.inputs.len()
            invariant
                0 <= i <= self.inputs@.len(),
                views == vtxo_views(self.inputs@),
                views.len() == self.inputs@.len(),
                forall|k: int| 0 <= k < self.inputs@.len()
                    ==> views[k] == crate::vtxo::vtxo_view(#[trigger] self.inputs@[k]),
                sum == sum_vtxo_amounts(views.take(i as int)),
            decreases self.inputs@.len() - i,
        {
            let a = self.inputs[i].amount();
            proof {
                assert(views.take(i as int + 1).drop_last() =~= views.take(i as int));
                assert(views.take(i as int + 1).last() == views[i as int]);
            }
            sum = match sum.checked_add(a) {
                Some(s) => s,
                None => {
                    proof {
                        lemma_sum_vtxo_amounts_bound(views, i as int);
                    }
                    return None;
                },
            };
            i += 1;
        }
        proof {
            assert(views.take(views.len() as int) =~= views);
        }
        Some(sum)
    }

    /// The sum of the output amounts; `None` when it exceeds the
    /// largest representable amount.
    pub fn total_output_amount(&self) -> (r: Option<u64>)
        ensures
            match r {
                Some(n) => n == sum_request_amounts(self@.outputs),
                None => sum_request_amounts(self@.outputs) > u64::MAX,
            },
    {
        let ghost views = self@.outputs;
        let mut sum: u64 = 0;
        let mut i: usize = 0;
        while i < self.outputs.len()
            invariant
                0 <= i <= self.outputs@.len(),
                views == self.outputs@.map_values(|o: PaymentRequest| o@),
                sum == sum_request_amounts(views.take(i as int)),
            decreases self.outputs@.len() - i,
        {
            let a = self.outputs[i].amount;
            proof {
                assert(views.take(i as int + 1).drop_last() =~= views.take(i as int));
                assert(views.take(i as int + 1).last() == views[i as int]);
            }
            sum = match sum.checked_add(a) {
                Some(s) => s,
                None => {
                    proof {
                        lemma_sum_request_amounts_bound(views, i as int);
                    }
                    return None;
                },
            };
            i += 1;
        }
        proof {
            assert(views.take(views.len() as int) =~= views);
        }
        Some(sum)
    }

    /// Check the books of this payment: every output must reach the
    /// dust bound, and the input amounts must equal the output amounts
    /// plus the fee. Returns the first offence, in output order.
    pub fn check_amounts(&self) -> (r: Result<(), OorError>)
        requires
            sum_vtxo_amounts(self@.inputs) <= u64::MAX,
            sum_request_amounts(self@.outputs) <= u64::MAX,
        ensures
            r is Ok <==> oor_balanced(self@),
            match r {
                Ok(()) => true,
                Err(e) => match e {
                    OorError::OutputBelowDust { index } => {
                        &&& 0 <= index < self@.outputs.len()
                        &&& self@.outputs[index as int].amount < crate::vtxo::P2TR_DUST
                        &&& forall|i: int| 0 <= i < index
                            ==> (#[trigger] self@.outputs[i]).amount
                                >= crate::vtxo::P2TR_DUST
                    },
                    OorError::UnbalancedAmounts => {
                        &&& forall|i: int| 0 <= i < self@.outputs.len()
                            ==> (#[trigger] self@.outputs[i]).amount
                                >= crate::vtxo::P2TR_DUST
                        &&& sum_vtxo_amounts(self@.inputs)
                            != sum_request_amounts(self@.outputs) + OOR_FEE
                    },
                    _ => false,
                },
            },
    {
        let ghost outs = self@.outputs;
        let mut i: usize = 0;
        while i < self.outputs.len()
            invariant
                0 <= i <= self.outputs@.len(),
                outs == self.outputs@.map_values(|o: PaymentRequest| o@),
                forall|k: int| 0 <= k < i
                    ==> (#[trigger] outs[k]).amount >= crate::vtxo::P2TR_DUST,
            decreases self.outputs@.len() - i,
        {
            if self.outputs[i].amount < crate::vtxo::P2TR_DUST {
                assert(outs[i as int].amount < crate::vtxo::P2TR_DUST);
                return Err(OorError::OutputBelowDust { index: i });
            }
            i += 1;
        }
        let in_sum = match self.total_input_amount() {
            Some(s) => s,
            None => {
                proof {
                    assert(false);
                }
                unreached()
            },
        };
        let out_sum = match self.total_output_amount() {
            Some(s) => s,
            None => {
                proof {
                    assert(false);
                }
                unreached()
            },
        };
        if out_sum > u64::MAX - OOR_FEE || in_sum != out_sum + OOR_FEE {
            return Err(OorError::UnbalancedAmounts);
        }
        Ok(())
    }
}

/// Sums of amounts never fall below any of their prefixes.
proof fn lemma_sum_vtxo_amounts_bound(s: Seq<VtxoV>, k: int)
    requires
        0 <= k < s.len(),
    ensures
        sum_vtxo_amounts(s) >= sum_vtxo_amounts(s.take(k)) + s[k].amount_of(),
    decreases s.len(),
{
    if s.len() > 0 {
        if k == s.len() - 1 {
            assert(s.take(k) =~= s.drop_last());
        } else {
            lemma_sum_vtxo_amounts_bound(s.drop_last(), k);
            assert(s.drop_last().take(k) =~= s.take(k));
            assert(s.drop_last()[k] == s[k]);
        }
    }
}

/// Sums of requested amounts never fall below any of their prefixes.
proof fn lemma_sum_request_amounts_bound(s: Seq<PaymentRequestV>, k: int)
    requires
        0 <= k < s.len(),
    ensures
        sum_request_amounts(s) >= sum_request_amounts(s.take(k)) + s[k].amount,
    decreases s.len(),
{
    if s.len() > 0 {
        if k == s.len() - 1 {
            assert(s.take(k) =~= s.drop_last());
        } else {
            lemma_sum_request_amounts_bound(s.drop_last(), k);
            assert(s.drop_last().take(k) =~= s.take(k));
            assert(s.drop_last()[k] == s[k]);
        }
    }
}

/// A sum of requested amounts is never negative.
pub proof fn lemma_sum_request_amounts_nonneg(s: Seq<PaymentRequestV>)
    ensures
        sum_request_amounts(s) >= 0,
    decreases s.len(),
{
    if s.len() > 0 {
        lemma_sum_request_amounts_nonneg(s.drop_last());
    }
}

/// A sum of VTXO amounts is never negative.
pub proof fn lemma_sum_vtxo_amounts_nonneg(s: Seq<VtxoV>)
    ensures
        sum_vtxo_amounts(s) >= 0,
    decreases s.len(),
{
    if s.len() > 0 {
        lemma_sum_vtxo_amounts_nonneg(s.drop_last());
    }
}

/// Out-of-round conservation: an accepted payment moves every satoshi
/// of its inputs into its outputs and the fee, and the outputs receive
/// no less than the inputs minus the fee.
pub proof fn lemma_oor_conservation(p: OorPaymentV)
    requires
        oor_balanced(p),
    ensures
        sum_vtxo_amounts(p.inputs) == sum_request_amounts(p.outputs) + OOR_FEE,
        sum_request_amounts(p.outputs) >= sum_vtxo_amounts(p.inputs) - OOR_FEE,
{
}

// ---------------------------------------------------------------
// the unsigned transfer transaction and its output VTXOs
// ---------------------------------------------------------------

/// Every input of the payment has a leaf exit output to spend.
pub open spec fn oor_inputs_ok(p: OorPaymentV) -> bool {
    forall|i: int| 0 <= i < p.inputs.len()
        ==> crate::wire::has_point(#[trigger] p.inputs[i])
}

/// The inputs of the unsigned transfer transaction: one per input
/// VTXO, spending its exit output, unsigned.
pub open spec fn spec_oor_txins(p: OorPaymentV) -> Seq<crate::vtxo::TxInV> {
    Seq::new(
        p.inputs.len(),
        |i: int| crate::vtxo::TxInV {
            prevout: crate::wire::spec_vtxo_point(p.inputs[i]),
            sequence: 0xffff_ffffu32,
            signature: None,
        },
    )
}

/// The outputs of the unsigned transfer transaction: one exit output
/// per request, then one fee anchor.
pub open spec fn spec_oor_txouts(p: OorPaymentV) -> Seq<TxOutV> {
    Seq::new(
        p.outputs.len(),
        |i: int| TxOutV {
            value: p.outputs[i].amount,
            spk: SpkV::Exit {
                user_pubkey: p.outputs[i].pubkey,
                asp_pubkey: p.asp_pubkey,
                exit_delta: p.exit_delta,
            },
        },
    ).push(TxOutV { value: 0, spk: SpkV::Anchor })
}

/// The unsigned transfer transaction of a payment.
pub open spec fn spec_oor_tx(p: OorPaymentV) -> crate::vtxo::TxV {
    crate::vtxo::TxV { inputs: spec_oor_txins(p), outputs: spec_oor_txouts(p) }
}

/// The output VTXOs a payment creates: one arkoor VTXO per request,
/// carrying the payment's inputs as ancestors and inheriting the
/// tightest input expiry.
pub open spec fn spec_output_vtxos(p: OorPaymentV) -> Seq<VtxoV> {
    Seq::new(
        p.outputs.len(),
        |i: int| VtxoV::Arkoor {
            inputs: p.inputs,
            spec: crate::vtxo::VtxoSpecV {
                user_pubkey: p.outputs[i].pubkey,
                asp_pubkey: p.asp_pubkey,
                expiry_height: min_expiry(p.inputs, u32::MAX),
                exit_delta: p.exit_delta,
                amount: p.outputs[i].amount,
            },
            oor_tx: spec_oor_tx(p),
            final_point: crate::vtxo::OutPointV {
                txid: txid_of(spec_oor_tx(p)),
                vout: i as u32,
            },
        },
    )
}

/// The commitment digest an input of the modelled transfer transaction
/// carries: the digest of the witness-stripped canonical encoding and
/// the input's index. The BIP-341 sighash of the real, consensus-
/// serialized transfer goes through `crate::crypto::taproot_sighash`
/// and `crate::wire::verify_keyspend_signature`.
pub open spec fn oor_sighash(p: OorPaymentV, i: int) -> Seq<u8> {
    crate::crypto::sha256d_of(
        crate::codec::enc_txid_payload(spec_oor_tx(p)) + u64_le(i as u64),
    )
}

impl OorPayment {
    /// The least expiry height among the inputs.
    pub fn inputs_min_expiry(&self) -> (r: u32)
        ensures
            r == min_expiry(self@.inputs, u32::MAX),
    {
        proof {
            lemma_vtxo_views(self.inputs@);
        }
        let ghost views = self@.inputs;
        let mut m: u32 = u32::MAX;
        let mut i: usize = 0;
        while i < self.inputs.len()
            invariant
                0 <= i <= self.inputs@.len(),
                views == vtxo_views(self.inputs@),
                views.len() == self.inputs@.len(),
                forall|k: int| 0 <= k < self.inputs@.len()
                    ==> views[k] == crate::vtxo::vtxo_view(#[trigger] self.inputs@[k]),
                m == min_expiry(views.take(i as int), u32::MAX),
            decreases self.inputs@.len() - i,
        {
            let e = self.inputs[i].spec().expiry_height;
            proof {
                assert(views.take(i as int + 1).drop_last() =~= views.take(i as int));
                assert(views.take(i as int + 1).last() == views[i as int]);
            }
            if e < m {
                m = e;
            }
            i += 1;
        }
        proof {
            assert(views.take(views.len() as int) =~= views);
        }
        m
    }

    /// The unsigned transfer transaction.
    pub fn unsigned_tx(&self) -> (r: Tx)
        requires
            oor_inputs_ok(self@),
        ensures
            r@ == spec_oor_tx(self@),
    {
        proof {
            lemma_vtxo_views(self.inputs@);
        }
        let ghost views = self@.inputs;
        let mut inputs: Vec<TxIn> = Vec::new();
        let mut i: usize = 0;
        while i < self.inputs.len()
            invariant
                0 <= i <= self.inputs@.len(),
                views == vtxo_views(self.inputs@),
                views.len() == self.inputs@.len(),
                oor_inputs_ok(self@),
                forall|k: int| 0 <= k < self.inputs@.len()
                    ==> views[k] == crate::vtxo::vtxo_view(#[trigger] self.inputs@[k]),
                inputs@.len() == i,
                forall|k: int| 0 <= k < i ==> (#[trigger] inputs@[k])@
                    == spec_oor_txins(self@)[k],
            decreases self.inputs@.len() - i,
        {
            proof {
                assert(views[i as int]
                    == crate::vtxo::vtxo_view(self.inputs@[i as int]));
                assert(crate::wire::has_point(self@.inputs[i as int]));
            }
            let point = self.inputs[i].point();
            inputs.push(TxIn { prevout: point, sequence: 0xffff_ffff, signature: None });
            i += 1;
        }
        let mut outputs: Vec<TxOut> = Vec::new();
        let mut j: usize = 0;
        while j < self.outputs.len()
            invariant
                0 <= j <= self.outputs@.len(),
                self@.outputs == self.outputs@.map_values(|o: PaymentRequest| o@),
                outputs@.len() == j,
                forall|k: int| 0 <= k < j ==> (#[trigger] outputs@[k])@
                    == (TxOutV {
                        value: self@.outputs[k].amount,
                        spk: SpkV::Exit {
                            user_pubkey: self@.outputs[k].pubkey,
                            asp_pubkey: self@.asp_pubkey,
                            exit_delta: self@.exit_delta,
                        },
                    }),
            decreases self.outputs@.len() - j,
        {
            let o = self.outputs[j];
            outputs.push(TxOut {
                value: o.amount,
                spk: Spk::Exit {
                    user_pubkey: o.pubkey,
                    asp_pubkey: self.asp_pubkey,
                    exit_delta: self.exit_delta,
                },
            });
            j += 1;
        }
        outputs.push(TxOut { value: 0, spk: Spk::Anchor });
        let r = Tx { inputs, outputs };
        proof {
            assert(r@.inputs =~= spec_oor_txins(self@));
            assert(r@.outputs =~= spec_oor_txouts(self@));
            assert(r@ =~= spec_oor_tx(self@));
        }
        r
    }

    /// The output VTXOs this payment creates, still unsigned: one
    /// arkoor VTXO per requested output.
    pub fn unsigned_output_vtxos(&self) -> (r: Vec<Vtxo>)
        requires
            oor_inputs_ok(self@),
            self.outputs@.len() <= u32::MAX,
        ensures
            vtxo_views(r@) == spec_output_vtxos(self@),
    {
        let tx = self.unsigned_tx();
        let txid = tx.txid();
        let expiry = self.inputs_min_expiry();
        let mut out: Vec<Vtxo> = Vec::new();
        let mut i: usize = 0;
        while i < self.outputs.len()
            invariant
                0 <= i <= self.outputs@.len(),
                self.outputs@.len() <= u32::MAX,
                self@.outputs == self.outputs@.map_values(|o: PaymentRequest| o@),
                tx@ == spec_oor_tx(self@),
                txid@ == txid_of(spec_oor_tx(self@)),
                expiry == min_expiry(self@.inputs, u32::MAX),
                out@.len() == i,
                forall|k: int| 0 <= k < i ==> (#[trigger] out@[k])@
                    == spec_output_vtxos(self@)[k],
            decreases self.outputs@.len() - i,
        {
            let o = self.outputs[i];
            let v = Vtxo::Arkoor {
                inputs: crate::vtxo::duplicate_vtxos(&self.inputs),
                spec: VtxoSpec {
                    user_pubkey: o.pubkey,
                    asp_pubkey: self.asp_pubkey,
                    expiry_height: expiry,
                    exit_delta: self.exit_delta,
                    amount: o.amount,
                },
                oor_tx: tx.duplicate(),
                final_point: OutPoint { txid, vout: i as u32 },
            };
            proof {
                assert(v@ =~= spec_output_vtxos(self@)[i as int]);
            }
            out.push(v);
            i += 1;
        }
        proof {
            lemma_vtxo_views(out@);
            assert(vtxo_views(out@) =~= spec_output_vtxos(self@));
        }
        out
    }

    /// The commitment digests of the transfer transaction's inputs,
    /// one each (see `oor_sighash`).
    pub fn sighashes(&self) -> (r: Vec<[u8; 32]>)
        requires
            oor_inputs_ok(self@),
        ensures
            r@.len() == self@.inputs.len(),
            forall|i: int| 0 <= i < r@.len()
                ==> (#[trigger] r@[i])@ == oor_sighash(self@, i),
    {
        let tx = self.unsigned_tx();
        let mut payload: Vec<u8> = Vec::new();
        crate::wire::encode_txid_payload(&mut payload, &tx);
        let mut out: Vec<[u8; 32]> = Vec::new();
        let mut i: usize = 0;
        proof {
            lemma_vtxo_views(self.inputs@);
        }
        while i < self.inputs.len()
            invariant
                0 <= i <= self.inputs@.len(),
                self@.inputs.len() == self.inputs@.len(),
                payload@ == crate::codec::enc_txid_payload(spec_oor_tx(self@)),
                out@.len() == i,
                forall|k: int| 0 <= k < i
                    ==> (#[trigger] out@[k])@ == oor_sighash(self@, k),
            decreases self.inputs@.len() - i,
        {
            let mut buf: Vec<u8> = Vec::new();
            crate::bytes::push_vec(&mut buf, &payload);
            push_u64(&mut buf, i as u64);
            let h = crate::crypto::sha256d(buf.as_slice());
            proof {
                assert(buf@ =~= crate::codec::enc_txid_payload(spec_oor_tx(self@))
                    + u64_le(i as u64));
            }
            out.push(h);
            i += 1;
        }
        out
    }

    /// Check a full set of final input signatures against the given
    /// taproot output keys, one key per input. Accepts exactly when a
    /// signature is present for every input and each verifies for the
    /// input's commitment digest under the matching key. Signatures over
    /// the real, consensus-serialized transfer are checked with
    /// `crate::wire::validate_keyspend_signatures`.
    pub fn validate_signatures(
        &self,
        sigs: &Vec<[u8; 64]>,
        keys: &Vec<[u8; 32]>,
    ) -> (r: bool)
        requires
            oor_inputs_ok(self@),
            keys@.len() == self@.inputs.len(),
        ensures
            r <==> (sigs@.len() == self@.inputs.len()
                && forall|i: int| 0 <= i < self@.inputs.len()
                    ==> crate::crypto::schnorr_valid(
                        (#[trigger] sigs@[i])@, oor_sighash(self@, i), keys@[i]@,
                    )),
    {
        proof {
            lemma_vtxo_views(self.inputs@);
        }
        if sigs.len() != self.inputs.len() {
            return false;
        }
        let hashes = self.sighashes();
        let mut i: usize = 0;
        while i < self.inputs.len()
            invariant
                0 <= i <= self.inputs@.len(),
                self@.inputs.len() == self.inputs@.len(),
                sigs@.len() == self@.inputs.len(),
                keys@.len() == self@.inputs.len(),
                hashes@.len() == self@.inputs.len(),
                forall|k: int| 0 <= k < hashes@.len()
                    ==> (#[trigger] hashes@[k])@ == oor_sighash(self@, k),
                forall|k: int| 0 <= k < i
                    ==> crate::crypto::schnorr_valid(
                        (#[trigger] sigs@[k])@, oor_sighash(self@, k), keys@[k]@,
                    ),
            decreases self.inputs@.len() - i,
        {
            if !crate::crypto::schnorr_verify(&sigs[i], &hashes[i], &keys[i]) {
                return false;
            }
            i += 1;
        }
        true
    }
}

// ---------------------------------------------------------------
// canonical encoding of a payment
// ---------------------------------------------------------------

/// Encoding of a requested output: public key, then amount.
pub open spec fn enc_request(o: PaymentRequestV) -> Seq<u8> {
    o.pubkey + u64_le(o.amount)
}

/// Concatenated encodings of requested outputs.
pub open spec fn enc_request_items(s: Seq<PaymentRequestV>) -> Seq<u8>
    decreases s.len(),
{
    if s.len() == 0 {
        Seq::empty()
    } else {
        enc_request(s[0]) + enc_request_items(s.drop_first())
    }
}

/// Encoding of an out-of-round payment: service key, exit delta, the
/// input VTXOs, then the requested outputs.
pub open spec fn enc_oor(p: OorPaymentV) -> Seq<u8> {
    p.asp_pubkey + u64_le(p.exit_delta as u64)
        + u64_le(p.inputs.len() as u64) + enc_vtxo_items(p.inputs)
        + u64_le(p.outputs.len() as u64) + enc_request_items(p.outputs)
}

/// Decode a requested output from the front of a byte string.
pub open spec fn dec_request(s: Seq<u8>) -> Option<(PaymentRequestV, int)> {
    if s.len() >= 40 {
        Some((
            PaymentRequestV {
                pubkey: s.take(32),
                amount: u64_of_le(s.subrange(32, 40)) as u64,
            },
            40,
        ))
    } else {
        None
    }
}

/// Decode a given number of requested outputs.
pub open spec fn dec_request_items(s: Seq<u8>, n: nat) -> Option<(Seq<PaymentRequestV>, int)>
    decreases n,
{
    if n == 0 {
        Some((Seq::empty(), 0))
    } else {
        match dec_request(s) {
            Some((o, c)) => match dec_request_items(s.skip(c), (n - 1) as nat) {
                Some((items, c2)) => Some((seq![o] + items, c + c2)),
                None => None,
            },
            None => None,
        }
    }
}

/// Decode an out-of-round payment from the front of a byte string.
pub open spec fn dec_oor(s: Seq<u8>) -> Option<(OorPaymentV, int)> {
    if s.len() >= 48 {
        let delta = u64_of_le(s.subrange(32, 40));
        let n_in = u64_of_le(s.subrange(40, 48));
        if delta < 0x1_0000 {
            match dec_vtxo_items(s.skip(48), n_in as nat) {
                Some((inputs, c1)) => {
                    let s1 = s.skip(48 + c1);
                    if s1.len() >= 8 {
                        let n_out = u64_of_le(s1.take(8));
                        match dec_request_items(s1.skip(8), n_out as nat) {
                            Some((outputs, c2)) => Some((
                                OorPaymentV {
                                    asp_pubkey: s.take(32),
                                    exit_delta: delta as u16,
                                    inputs,
                                    outputs,
                                },
                                48 + c1 + 8 + c2,
                            )),
                            None => None,
                        }
                    } else {
                        None
                    }
                },
                None => None,
            }
        } else {
            None
        }
    } else {
        None
    }
}

/// Decoding the encoding of a requested output yields it back.
pub proof fn lemma_rt_request(o: PaymentRequestV, rest: Seq<u8>)
    requires
        o.pubkey.len() == 32,
    ensures
        dec_request(enc_request(o) + rest) == Some((o, enc_request(o).len() as int)),
{
    let s = enc_request(o) + rest;
    crate::bytes::lemma_u64_le_roundtrip(o.amount);
    assert(s.take(32) =~= o.pubkey);
    assert(s.subrange(32, 40) =~= u64_le(o.amount));
    let (q, c) = dec_request(s).unwrap();
    assert(q =~= o);
}

/// Decoding the concatenated encodings of requested outputs yields
/// them back.
pub proof fn lemma_rt_request_items(items: Seq<PaymentRequestV>, rest: Seq<u8>)
    requires
        forall|j: int| 0 <= j < items.len() ==> (#[trigger] items[j]).pubkey.len() == 32,
    ensures
        dec_request_items(enc_request_items(items) + rest, items.len())
            == Some((items, enc_request_items(items).len() as int)),
    decreases items.len(),
{
    let s = enc_request_items(items) + rest;
    if items.len() == 0 {
        assert(dec_request_items(s, 0) == Some((Seq::<PaymentRequestV>::empty(), 0int)));
        assert(items =~= Seq::<PaymentRequestV>::empty());
    } else {
        let tail = enc_request_items(items.drop_first()) + rest;
        assert(s =~= enc_request(items[0]) + tail);
        lemma_rt_request(items[0], tail);
        let c1 = enc_request(items[0]).len() as int;
        assert(s.skip(c1) =~= tail);
        lemma_rt_request_items(items.drop_first(), rest);
        let (got, c) = dec_request_items(s, items.len()).unwrap();
        assert(got =~= items);
    }
}

/// Decoding the encoding of an out-of-round payment yields it back.
#[verifier::rlimit(80)]
pub proof fn lemma_rt_oor(p: OorPaymentV, rest: Seq<u8>)
    requires
        p.asp_pubkey.len() == 32,
        crate::codec::fits_u64(p.inputs.len()),
        crate::codec::fits_u64(p.outputs.len()),
        forall|j: int| 0 <= j < p.inputs.len()
            ==> crate::codec::wf_vtxo(#[trigger] p.inputs[j]),
        forall|j: int| 0 <= j < p.outputs.len()
            ==> (#[trigger] p.outputs[j]).pubkey.len() == 32,
    ensures
        dec_oor(enc_oor(p) + rest) == Some((p, enc_oor(p).len() as int)),
{
    let s = enc_oor(p) + rest;
    let tail3 = u64_le(p.outputs.len() as u64) + (enc_request_items(p.outputs) + rest);
    let tail2 = enc_vtxo_items(p.inputs) + tail3;
    crate::bytes::lemma_u64_le_roundtrip(p.exit_delta as u64);
    crate::bytes::lemma_u64_le_roundtrip(p.inputs.len() as u64);
    assert(s.take(32) =~= p.asp_pubkey);
    assert(s.subrange(32, 40) =~= u64_le(p.exit_delta as u64));
    assert(s.subrange(40, 48) =~= u64_le(p.inputs.len() as u64));
    assert(s.skip(48) =~= tail2);
    crate::codec::lemma_rt_vtxo_items(p.inputs, tail3);
    let c1 = enc_vtxo_items(p.inputs).len() as int;
    let s1 = s.skip(48 + c1);
    assert(s1 =~= tail3);
    crate::codec::lemma_read_count(s1, p.outputs.len() as u64, enc_request_items(p.outputs) + rest);
    lemma_rt_request_items(p.outputs, rest);
    let c2 = enc_request_items(p.outputs).len() as int;
    assert(dec_request_items(s1.skip(8), p.outputs.len()) == Some((p.outputs, c2)));
    let (q, c) = dec_oor(s).unwrap();
    assert(q =~= p);
    assert(c == enc_oor(p).len());
}

impl OorPayment {
    /// The canonical encoding of this payment.
    pub fn encode(&self) -> (r: Vec<u8>)
        ensures
            r@ == enc_oor(self@),
    {
        let mut out: Vec<u8> = Vec::new();
        push_bytes(&mut out, &self.asp_pubkey);
        push_u64(&mut out, self.exit_delta as u64);
        push_u64(&mut out, self.inputs.len() as u64);
        proof {
            lemma_vtxo_views(self.inputs@);
        }
        let ghost views = self@.inputs;
        let mut i: usize = 0;
        let ghost mid = out@;
        while i < self.inputs.len()
            invariant
                0 <= i <= self.inputs@.len(),
                views == vtxo_views(self.inputs@),
                views.len() == self.inputs@.len(),
                forall|k: int| 0 <= k < self.inputs@.len()
                    ==> views[k] == crate::vtxo::vtxo_view(#[trigger] self.inputs@[k]),
                out@ == mid + enc_vtxo_items(views.take(i as int)),
            decreases self.inputs@.len() - i,
        {
            let ghost pre = views.take(i as int);
            crate::wire::encode_vtxo(&mut out, &self.inputs[i]);
            proof {
                assert(views.take(i as int + 1) =~= pre.push(views[i as int]));
                crate::wire::lemma_enc_vtxo_items_push(pre, views[i as int]);
            }
            i += 1;
        }
        proof {
            assert(views.take(views.len() as int) =~= views);
        }
        push_u64(&mut out, self.outputs.len() as u64);
        let ghost outs = self@.outputs;
        let mut j: usize = 0;
        let ghost mid2 = out@;
        while j < self.outputs.len()
            invariant
                0 <= j <= self.outputs@.len(),
                outs == self.outputs@.map_values(|o: PaymentRequest| o@),
                out@ == mid2 + enc_request_items(outs.take(j as int)),
            decreases self.outputs@.len() - j,
        {
            let ghost pre = outs.take(j as int);
            let o = self.outputs[j];
            push_bytes(&mut out, &o.pubkey);
            push_u64(&mut out, o.amount);
            proof {
                assert(outs.take(j as int + 1) =~= pre.push(outs[j as int]));
                lemma_enc_request_items_push(pre, outs[j as int]);
                assert(out@ =~= mid2 + enc_request_items(outs.take(j as int + 1)));
            }
            j += 1;
        }
        proof {
            assert(outs.take(outs.len() as int) =~= outs);
            assert(out@ =~= enc_oor(self@));
        }
        out
    }

    /// Decode a payment from a buffer holding exactly one encoded
    /// payment.
    pub fn decode(buf: &[u8]) -> (r: Option<OorPayment>)
        ensures
            match r {
                Some(p) => dec_oor(buf@) == Some((p@, buf@.len() as int)),
                None => dec_oor(buf@) is None
                    || dec_oor(buf@).unwrap().1 != buf@.len(),
            },
    {
        let ghost s = buf@;
        if buf.len() < 48 {
            return None;
        }
        let asp_pubkey: [u8; 32] = read_bytes(buf, 0);
        let delta = read_u64(buf, 32);
        let n_in = read_u64(buf, 40);
        proof {
            assert(s.take(32) =~= buf@.subrange(0, 32));
            assert(s.subrange(0, 32) =~= buf@.subrange(0, 32));
            assert(s.skip(48) =~= buf@.skip(48));
        }
        if delta >= 0x1_0000 {
            return None;
        }
        match crate::wire::decode_vtxo_items(buf, 48, n_in) {
            Some((inputs, p1)) => {
                let ghost s1 = s.skip(48 + (p1 - 48));
                proof {
                    assert(buf@.skip(p1 as int) =~= s.skip(48).skip(p1 - 48));
                    assert(s.skip(48).skip(p1 - 48) =~= s.skip(48 + (p1 - 48)));
                }
                if buf.len() - p1 < 8 {
                    return None;
                }
                let n_out = read_u64(buf, p1);
                proof {
                    assert(s1.take(8) =~= buf@.subrange(p1 as int, p1 + 8));
                    assert(s1.skip(8) =~= buf@.skip(p1 + 8));
                }
                let mut outputs: Vec<PaymentRequest> = Vec::new();
                let mut pos = p1 + 8;
                let mut k: u64 = 0;
                proof {
                    assert(outputs@.map_values(|o: PaymentRequest| o@)
                        =~= Seq::<PaymentRequestV>::empty());
                }
                while k < n_out
                    invariant
                        s == buf@,
                        s.len() >= 48,
                        delta == u64_of_le(s.subrange(32, 40)),
                        delta < 0x1_0000,
                        n_in == u64_of_le(s.subrange(40, 48)),
                        dec_vtxo_items(s.skip(48), n_in as nat)
                            == Some((vtxo_views(inputs@), p1 - 48 as int)),
                        48 <= p1,
                        p1 + 8 <= buf@.len(),
                        s1 == s.skip(48 + (p1 - 48)),
                        s1.skip(8) == buf@.skip(p1 + 8),
                        n_out == u64_of_le(s1.take(8)),
                        48 + 8 <= pos <= buf@.len(),
                        0 <= k <= n_out,
                        ({
                            let done = outputs@.map_values(|o: PaymentRequest| o@);
                            match dec_request_items(buf@.skip(pos as int), (n_out - k) as nat) {
                                Some((tail, c)) => dec_request_items(s1.skip(8), n_out as nat)
                                    == Some((done + tail, (pos - (p1 + 8)) + c)),
                                None => dec_request_items(s1.skip(8), n_out as nat) is None,
                            }
                        }),
                    decreases n_out - k,
                {
                    let ghost done = outputs@.map_values(|o: PaymentRequest| o@);
                    if buf.len() - pos < 40 {
                        proof {
                            assert(dec_request(buf@.skip(pos as int)) is None);
                            assert(dec_request_items(buf@.skip(pos as int),
                                (n_out - k) as nat) is None);
                            assert(dec_oor(s) is None);
                        }
                        return None;
                    }
                    let pubkey: [u8; 32] = read_bytes(buf, pos);
                    let amount = read_u64(buf, pos + 32);
                    proof {
                        let sp = buf@.skip(pos as int);
                        assert(sp.take(32) =~= buf@.subrange(pos as int, pos + 32));
                        assert(sp.subrange(32, 40) =~= buf@.subrange(pos + 32, pos + 40));
                        assert(sp.skip(40) =~= buf@.skip(pos + 40));
                    }
                    let o = PaymentRequest { pubkey, amount };
                    proof {
                        assert(o@ =~= dec_request(buf@.skip(pos as int)).unwrap().0);
                    }
                    outputs.push(o);
                    proof {
                        assert(outputs@.map_values(|x: PaymentRequest| x@)
                            =~= done.push(o@));
                        let tail2 = dec_request_items(buf@.skip(pos + 40), (n_out - k - 1) as nat);
                        if tail2 is Some {
                            assert(done.push(o@) + tail2.unwrap().0
                                =~= done + (seq![o@] + tail2.unwrap().0));
                        }
                    }
                    pos = pos + 40;
                    k = k + 1;
                }
                proof {
                    let done = outputs@.map_values(|o: PaymentRequest| o@);
                    assert(dec_request_items(buf@.skip(pos as int), 0)
                        == Some((Seq::<PaymentRequestV>::empty(), 0int)));
                    assert(done + Seq::<PaymentRequestV>::empty() =~= done);
                }
                let ghost done_views = outputs@.map_values(|o: PaymentRequest| o@);
                proof {
                    assert(dec_request_items(s1.skip(8), n_out as nat)
                        == Some((done_views, pos - (p1 + 8) as int)));
                    assert(dec_oor(s) matches Some(pair)
                        && pair.1 == 48 + (p1 - 48) + 8 + (pos - (p1 + 8))) by {
                        assert(dec_vtxo_items(s.skip(48), n_in as nat)
                            == Some((vtxo_views(inputs@), p1 - 48 as int)));
                    }
                }
                if pos != buf.len() {
                    return None;
                }
                let p = OorPayment {
                    asp_pubkey,
                    exit_delta: delta as u16,
                    inputs,
                    outputs,
                };
                proof {
                    assert(p@ =~= dec_oor(s).unwrap().0);
                }
                Some(p)
            },
            None => None,
        }
    }
}

/// Pick the fewest leading VTXOs of a list that cover an amount: the
/// list is expected soonest-expiring first, so the cover refreshes what
/// would expire next. Returns the copied prefix; fails exactly when the
/// whole list cannot cover the amount.
pub fn select_vtxos_to_cover(vtxos: &Vec<Vtxo>, amount: u64) -> (r: Result<Vec<Vtxo>, ()>)
    requires
        sum_vtxo_amounts(vtxo_views(vtxos@)) <= u64::MAX,
    ensures
        r is Ok <==> sum_vtxo_amounts(vtxo_views(vtxos@)) >= amount,
        r matches Ok(picked) ==> {
            let views = vtxo_views(vtxos@);
            &&& picked@.len() <= vtxos@.len()
            &&& vtxo_views(picked@) == views.take(picked@.len() as int)
            &&& sum_vtxo_amounts(views.take(picked@.len() as int)) >= amount
            &&& forall|j: int| 0 <= j < picked@.len()
                ==> sum_vtxo_amounts(views.take(j)) < amount
        },
{
    proof {
        lemma_vtxo_views(vtxos@);
    }
    let ghost views = vtxo_views(vtxos@);
    let mut picked: Vec<Vtxo> = Vec::new();
    proof {
        assert(views.take(0) =~= Seq::<VtxoV>::empty());
        assert(vtxo_views(picked@) =~= views.take(0));
        lemma_sum_vtxo_amounts_nonneg(views);
    }
    if amount == 0 {
        return Ok(picked);
    }
    let mut total: u64 = 0;
    let mut i: usize = 0;
    while i < vtxos.len()
        invariant
            0 <= i <= vtxos@.len(),
            views == vtxo_views(vtxos@),
            views.len() == vtxos@.len(),
            sum_vtxo_amounts(views) <= u64::MAX,
            forall|k: int| 0 <= k < vtxos@.len()
                ==> views[k] == crate::vtxo::vtxo_view(#[trigger] vtxos@[k]),
            picked@.len() == i,
            vtxo_views(picked@) == views.take(i as int),
            total == sum_vtxo_amounts(views.take(i as int)),
            total < amount,
            forall|j: int| 0 <= j <= i ==> sum_vtxo_amounts(views.take(j)) < amount,
        decreases vtxos@.len() - i,
    {
        proof {
            assert(views.take(i as int + 1).drop_last() =~= views.take(i as int));
            assert(views.take(i as int + 1).last() == views[i as int]);
            lemma_sum_vtxo_amounts_bound(views, i as int);
            lemma_vtxo_views(picked@);
        }
        let ghost pre = picked@;
        picked.push(vtxos[i].duplicate());
        proof {
            lemma_vtxo_views(picked@);
            assert(vtxo_views(picked@) =~= views.take(i as int + 1));
        }
        total = total + vtxos[i].amount();
        i += 1;
        if total >= amount {
            return Ok(picked);
        }
    }
    proof {
        assert(views.take(views.len() as int) =~= views);
    }
    Err(())
}

// ---------------------------------------------------------------
// the provider's side of a transfer
// ---------------------------------------------------------------

/// The table entry an accepted transfer creates for its output at the
/// given index.
pub open spec fn spec_output_entry(p: OorPaymentV, k: int) -> crate::store::StoredVtxoV {
    crate::store::StoredVtxoV {
        user_pubkey: p.outputs[k].pubkey,
        amount: p.outputs[k].amount,
        expiry_height: min_expiry(p.inputs, u32::MAX),
        spent: false,
    }
}

/// The id of an accepted transfer's output at the given index.
pub open spec fn spec_output_id(p: OorPaymentV, k: int) -> crate::vtxo::OutPointV {
    crate::vtxo::OutPointV { txid: txid_of(spec_oor_tx(p)), vout: k as u32 }
}

/// The provider's table after the first `k` outputs of an accepted
/// transfer were registered.
pub open spec fn spec_register_outputs(
    m: Map<crate::vtxo::OutPointV, crate::store::StoredVtxoV>,
    p: OorPaymentV,
    k: int,
) -> Map<crate::vtxo::OutPointV, crate::store::StoredVtxoV>
    decreases k,
{
    if k <= 0 {
        m
    } else {
        crate::store::spec_register(
            spec_register_outputs(m, p, k - 1),
            spec_output_id(p, k - 1),
            spec_output_entry(p, k - 1),
        )
    }
}

/// The provider's side of a transfer: check the books, reserve the
/// inputs atomically, mark them spent if they are known and unspent,
/// register the outputs, and release the reservation on every path.
/// Exactly one of two transfers over a shared input can come through:
/// the loser is turned away with the offending id, reserved or spent.
pub fn approve_oor(
    flux: &mut crate::flux::VtxosInFlux,
    store: &mut crate::store::VtxoStore,
    payment: &OorPayment,
) -> (r: Result<(), OorError>)
    requires
        old(flux).wf(),
        old(store).wf(),
        sum_vtxo_amounts(payment@.inputs) <= u64::MAX,
        sum_request_amounts(payment@.outputs) <= u64::MAX,
        oor_inputs_ok(payment@),
        payment@.outputs.len() <= u32::MAX,
    ensures
        final(flux).wf(),
        final(store).wf(),
        final(flux)@ == old(flux)@,
        r is Ok <==> {
            &&& oor_balanced(payment@)
            &&& crate::flux::find_conflict(
                old(flux)@,
                payment@.inputs.map_values(|v: VtxoV| crate::wire::spec_vtxo_point(v)),
                0,
            ) is None
            &&& forall|i: int| 0 <= i < payment@.inputs.len() ==> {
                &&& old(store)@.contains_key(
                    crate::wire::spec_vtxo_point(#[trigger] payment@.inputs[i]),
                )
                &&& !old(store)@[crate::wire::spec_vtxo_point(payment@.inputs[i])].spent
            }
        },
        r is Ok ==> final(store)@ == spec_register_outputs(
            crate::store::spec_mark_spent(
                old(store)@,
                payment@.inputs.map_values(|v: VtxoV| crate::wire::spec_vtxo_point(v)),
            ),
            payment@,
            payment@.outputs.len() as int,
        ),
        r is Err ==> final(store)@ == old(store)@,
        r matches Err(OorError::OutputBelowDust { index }) ==> {
            &&& 0 <= index < payment@.outputs.len()
            &&& payment@.outputs[index as int].amount < crate::vtxo::P2TR_DUST
        },
        r matches Err(OorError::UnbalancedAmounts) ==> !oor_balanced(payment@),
        r matches Err(OorError::VtxoInFlux { id }) ==> {
            &&& oor_balanced(payment@)
            &&& ({
                let views = payment@.inputs.map_values(
                    |v: VtxoV| crate::wire::spec_vtxo_point(v),
                );
                crate::flux::find_conflict(old(flux)@, views, 0) matches Some(c)
                    && id@ == views[c]
            })
        },
        r matches Err(OorError::AlreadySpent { id }) ==> {
            &&& oor_balanced(payment@)
            &&& crate::flux::find_conflict(
                old(flux)@,
                payment@.inputs.map_values(|v: VtxoV| crate::wire::spec_vtxo_point(v)),
                0,
            ) is None
            &&& (!old(store)@.contains_key(id@) || old(store)@[id@].spent)
            &&& exists|i: int| 0 <= i < payment@.inputs.len()
                && crate::wire::spec_vtxo_point(#[trigger] payment@.inputs[i]) == id@
        },
{
    match payment.check_amounts() {
        Ok(()) => {},
        Err(e) => {
            return Err(e);
        },
    }
    // collect the input ids
    let ghost idviews = payment@.inputs.map_values(
        |v: VtxoV| crate::wire::spec_vtxo_point(v),
    );
    proof {
        lemma_vtxo_views(payment.inputs@);
    }
    let mut ids: Vec<crate::vtxo::VtxoId> = Vec::new();
    let mut i: usize = 0;
    while i < payment.inputs.len()
        invariant
            0 <= i <= payment.inputs@.len(),
            oor_inputs_ok(payment@),
            idviews == payment@.inputs.map_values(
                |v: VtxoV| crate::wire::spec_vtxo_point(v),
            ),
            payment@.inputs.len() == payment.inputs@.len(),
            forall|k: int| 0 <= k < payment.inputs@.len()
                ==> payment@.inputs[k]
                    == crate::vtxo::vtxo_view(#[trigger] payment.inputs@[k]),
            ids@.len() == i,
            forall|k: int| 0 <= k < i ==> (#[trigger] ids@[k])@ == idviews[k],
        decreases payment.inputs@.len() - i,
    {
        proof {
            assert(crate::wire::has_point(payment@.inputs[i as int]));
        }
        ids.push(payment.inputs[i].id());
        i += 1;
    }
    proof {
        assert(ids@.map_values(|x: crate::vtxo::VtxoId| x@) =~= idviews);
    }
    // reserve the whole batch, or turn the caller away
    match flux.atomic_check_put(&ids) {
        Ok(()) => {},
        Err(id) => {
            return Err(OorError::VtxoInFlux { id });
        },
    }
    // mark the inputs spent, or roll the reservation back
    match store.mark_spent_checked(&ids) {
        Ok(()) => {},
        Err(id) => {
            flux.release(&ids);
            proof {
                lemma_release_restores(old(flux)@, idviews);
                let w = choose|i: int| 0 <= i < ids@.len()
                    && (#[trigger] ids@[i])@ == id@;
                assert(idviews[w] == id@);
                assert(crate::wire::spec_vtxo_point(payment@.inputs[w]) == id@);
            }
            return Err(OorError::AlreadySpent { id });
        },
    }
    // register the outputs
    let outputs = payment.unsigned_output_vtxos();
    let expiry = payment.inputs_min_expiry();
    proof {
        lemma_vtxo_views(outputs@);
        assert(spec_output_vtxos(payment@).len() == payment@.outputs.len());
    }
    let ghost m1 = store@;
    let mut k: usize = 0;
    while k < outputs.len()
        invariant
            store.wf(),
            outputs@.len() == payment.outputs@.len(),
            payment@.outputs.len() == payment.outputs@.len(),
            payment@.outputs.len() <= u32::MAX,
            vtxo_views(outputs@) == spec_output_vtxos(payment@),
            expiry == min_expiry(payment@.inputs, u32::MAX),
            0 <= k <= outputs@.len(),
            store@ == spec_register_outputs(m1, payment@, k as int),
        decreases outputs@.len() - k,
    {
        proof {
            lemma_vtxo_views(outputs@);
            assert(vtxo_views(outputs@)[k as int] == outputs@[k as int]@);
            assert(outputs@[k as int]@ == spec_output_vtxos(payment@)[k as int]);
            assert(crate::wire::has_point(outputs@[k as int]@));
        }
        let v = &outputs[k];
        let id = v.id();
        let amount = v.amount();
        let user_pubkey = v.spec().user_pubkey;
        let entry = crate::store::StoredVtxo {
            id,
            user_pubkey,
            amount,
            expiry_height: expiry,
            spent: false,
        };
        proof {
            assert(id@ == spec_output_id(payment@, k as int));
            assert(entry@ =~= spec_output_entry(payment@, k as int));
        }
        store.register(entry);
        k += 1;
    }
    // release the reservation: the inputs are spent now
    flux.release(&ids);
    proof {
        lemma_release_restores(old(flux)@, idviews);
        assert forall|n: int| 0 <= n < payment@.inputs.len()
            implies (old(store)@.contains_key(
                crate::wire::spec_vtxo_point(#[trigger] payment@.inputs[n]),
            ) && !old(store)@[crate::wire::spec_vtxo_point(payment@.inputs[n])].spent) by {
            assert(ids@[n]@ == idviews[n]);
        }
    }
    Ok(())
}

/// Registering a transfer's outputs never touches a key that is
/// already in the table: registration is a no-op on present keys.
proof fn lemma_register_outputs_preserves(
    m: Map<crate::vtxo::OutPointV, crate::store::StoredVtxoV>,
    p: OorPaymentV,
    k: int,
    x: crate::vtxo::OutPointV,
)
    requires
        m.contains_key(x),
    ensures
        spec_register_outputs(m, p, k).contains_key(x),
        spec_register_outputs(m, p, k)[x] == m[x],
    decreases k,
{
    if k > 0 {
        lemma_register_outputs_preserves(m, p, k - 1, x);
    }
}

/// Out-of-round exclusivity at the provider, in general: once one
/// transfer over some input was accepted, the provider's table shows
/// that input spent — marking it spent and registering the transfer's
/// outputs cannot unspend it — so a later transfer over the same input
/// fails the acceptance condition of `approve_oor`, whose contract then
/// turns it away with the table unchanged.
pub proof fn lemma_approve_oor_exclusive(
    m0: Map<crate::vtxo::OutPointV, crate::store::StoredVtxoV>,
    first: OorPaymentV,
    second: OorPaymentV,
    i: int,
    j: int,
)
    requires
        0 <= i < first.inputs.len(),
        0 <= j < second.inputs.len(),
        crate::wire::spec_vtxo_point(first.inputs[i])
            == crate::wire::spec_vtxo_point(second.inputs[j]),
        m0.contains_key(crate::wire::spec_vtxo_point(first.inputs[i])),
    ensures
        ({
            let after_first = spec_register_outputs(
                crate::store::spec_mark_spent(
                    m0,
                    first.inputs.map_values(|v: VtxoV| crate::wire::spec_vtxo_point(v)),
                ),
                first,
                first.outputs.len() as int,
            );
            let shared = crate::wire::spec_vtxo_point(second.inputs[j]);
            after_first.contains_key(shared) && after_first[shared].spent
        }),
{
    let shared = crate::wire::spec_vtxo_point(first.inputs[i]);
    let ids1 = first.inputs.map_values(|v: VtxoV| crate::wire::spec_vtxo_point(v));
    assert(ids1[i] == shared);
    assert(ids1.contains(shared));
    crate::store::lemma_oor_double_spend(m0, ids1, shared);
    lemma_register_outputs_preserves(
        crate::store::spec_mark_spent(m0, ids1),
        first,
        first.outputs.len() as int,
        shared,
    );
}

/// Reserving a conflict-free batch and then releasing it leaves the
/// guard exactly as it was.
proof fn lemma_release_restores(s0: Set<crate::vtxo::OutPointV>, views: Seq<crate::vtxo::OutPointV>)
    requires
        crate::flux::find_conflict(s0, views, 0) is None,
    ensures
        s0.union(crate::flux::batch_set(views))
            .difference(crate::flux::batch_set(views)) == s0,
{
    if crate::flux::find_conflict(s0, views, 0) is None {
        crate::flux::lemma_no_conflict(s0, views, 0);
        assert forall|x: crate::vtxo::OutPointV|
            s0.union(crate::flux::batch_set(views))
                .difference(crate::flux::batch_set(views)).contains(x)
            implies s0.contains(x) by {}
        assert forall|x: crate::vtxo::OutPointV| s0.contains(x)
            implies s0.union(crate::flux::batch_set(views))
                .difference(crate::flux::batch_set(views)).contains(x) by {
            if crate::flux::batch_set(views).contains(x) {
                let i = choose|i: int| 0 <= i < views.len() && views[i] == x;
                assert(crate::flux::conflict_at(s0, views, i));
            }
        }
        assert(s0.union(crate::flux::batch_set(views))
            .difference(crate::flux::batch_set(views)) =~= s0);
    }
}

/// Appending one requested output to a list appends its encoding.
pub proof fn lemma_enc_request_items_push(s: Seq<PaymentRequestV>, x: PaymentRequestV)
    ensures
        enc_request_items(s.push(x)) == enc_request_items(s) + enc_request(x),
    decreases s.len(),
{
    if s.len() == 0 {
        assert(s.push(x)[0] == x);
        assert(s.push(x).drop_first() =~= s);
        assert(enc_request_items(s.push(x)) =~= enc_request_items(s) + enc_request(x));
    } else {
        assert(s.push(x).drop_first() =~= s.drop_first().push(x));
        lemma_enc_request_items_push(s.drop_first(), x);
        assert(enc_request_items(s.push(x)) =~= enc_request_items(s) + enc_request(x));
    }
}

/// The encoding round trip for payments: decoding the canonical
/// encoding of any payment yields that payment back.
pub proof fn lemma_oor_roundtrip(p: OorPayment)
    ensures
        dec_oor(enc_oor(p@)) == Some((p@, enc_oor(p@).len() as int)),
{
    lemma_vtxo_views(p.inputs@);
    assert(p.inputs.len() == p.inputs@.len());
    assert(p.outputs.len() == p.outputs@.len());
    assert forall|j: int| 0 <= j < p@.inputs.len()
        implies crate::codec::wf_vtxo(#[trigger] p@.inputs[j]) by {
        crate::wire::lemma_vtxo_wf(p.inputs@[j]);
    }
    assert forall|j: int| 0 <= j < p@.outputs.len()
        implies (#[trigger] p@.outputs[j]).pubkey.len() == 32 by {
        assert(p@.outputs[j] == p.outputs@[j]@);
    }
    lemma_rt_oor(p@, Seq::empty());
    assert(enc_oor(p@) + Seq::<u8>::empty() =~= enc_oor(p@));
}

} // verus!
