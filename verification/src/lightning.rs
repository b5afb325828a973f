//! Lightning bridging: a payment over an HTLC transaction that spends
//! input VTXOs into an HTLC output (claimable by the service provider
//! with the payment preimage, reclaimable by the user after expiry), a
//! change output, and a fee anchor. On a failed payment a revocation
//! spends the HTLC output back into a fresh exit VTXO for the user; the
//! provider keeps its forwarding fee.

use vstd::prelude::*;
use crate::bytes::{u64_le, u64_of_le, push_u64, read_u64, push_bytes, read_bytes};
use crate::vtxo::{OutPoint, OutPointV, Spk, SpkV, TxOut, TxOutV, TxIn, TxInV, Tx, TxV, Vtxo, VtxoV, VtxoSpec, VtxoSpecV, vtxo_views, lemma_vtxo_views};
use crate::oor::{sum_vtxo_amounts, min_expiry};
use crate::codec::{enc_vtxo_items, dec_vtxo_items, txid_of};

verus! {

broadcast use crate::bytes::lemma_u64_le_len;

/// The outcome the provider reports for a payment in flight.
#[derive(Clone, Copy, PartialEq, Eq, Structural, Debug)]
pub enum PaymentStatus {
    Pending,
    Complete,
    Failed,
}

/// A Lightning payment over an HTLC transaction.
pub struct Bolt11Payment {
    /// The invoice's payment hash.
    pub payment_hash: [u8; 32],
    /// The input VTXOs the payment spends.
    pub inputs: Vec<Vtxo>,
    pub asp_pubkey: [u8; 32],
    pub user_pubkey: [u8; 32],
    /// The invoice amount, in satoshi.
    pub payment_amount: u64,
    /// The fee the provider keeps for forwarding.
    pub forwarding_fee: u64,
    /// The relative timelock on the HTLC transaction's inputs.
    pub htlc_delta: u16,
    /// The relative timelock on the user's reclaim path.
    pub htlc_expiry_delta: u16,
    /// The absolute height after which the user reclaims.
    pub htlc_expiry: u32,
    pub exit_delta: u16,
}

/// The view of a Lightning payment.
#[verifier::ext_equal]
pub ghost struct Bolt11PaymentV {
    pub payment_hash: Seq<u8>,
    pub inputs: Seq<VtxoV>,
    pub asp_pubkey: Seq<u8>,
    pub user_pubkey: Seq<u8>,
    pub payment_amount: u64,
    pub forwarding_fee: u64,
    pub htlc_delta: u16,
    pub htlc_expiry_delta: u16,
    pub htlc_expiry: u32,
    pub exit_delta: u16,
}

impl View for Bolt11Payment {
    type V = Bolt11PaymentV;

    open spec fn view(&self) -> Bolt11PaymentV {
        Bolt11PaymentV {
            payment_hash: self.payment_hash@,
            inputs: vtxo_views(self.inputs@),
            asp_pubkey: self.asp_pubkey@,
            user_pubkey: self.user_pubkey@,
            payment_amount: self.payment_amount,
            forwarding_fee: self.forwarding_fee,
            htlc_delta: self.htlc_delta,
            htlc_expiry_delta: self.htlc_expiry_delta,
            htlc_expiry: self.htlc_expiry,
            exit_delta: self.exit_delta,
        }
    }
}

/// The value locked in the HTLC output: the invoice amount plus the
/// forwarding fee.
pub open spec fn spec_htlc_amount(p: Bolt11PaymentV) -> int {
    p.payment_amount + p.forwarding_fee
}

/// The change the user keeps: the input value minus the HTLC value.
pub open spec fn spec_change_amount(p: Bolt11PaymentV) -> int {
    sum_vtxo_amounts(p.inputs) - spec_htlc_amount(p)
}

/// A payment whose books are in order: the inputs cover the HTLC value,
/// and any change reaches the dust bound.
pub open spec fn bolt11_amounts_ok(p: Bolt11PaymentV) -> bool {
    &&& spec_change_amount(p) >= crate::vtxo::P2TR_DUST
    &&& p.payment_amount >= crate::vtxo::P2TR_DUST
}

/// The HTLC script of a payment.
pub open spec fn spec_htlc_spk(p: Bolt11PaymentV) -> SpkV {
    SpkV::Htlc {
        payment_hash: p.payment_hash,
        user_pubkey: p.user_pubkey,
        asp_pubkey: p.asp_pubkey,
        htlc_expiry: p.htlc_expiry,
        exit_delta: p.htlc_expiry_delta,
    }
}

/// The unsigned HTLC transaction: one input per VTXO under the HTLC
/// relative timelock; the HTLC output, the change output, one anchor.
pub open spec fn spec_htlc_tx(p: Bolt11PaymentV) -> TxV {
    TxV {
        inputs: Seq::new(
            p.inputs.len(),
            |i: int| TxInV {
                prevout: crate::wire::spec_vtxo_point(p.inputs[i]),
                sequence: p.htlc_delta as u32,
                signature: None,
            },
        ),
        outputs: seq![
            TxOutV {
                value: spec_htlc_amount(p) as u64,
                spk: spec_htlc_spk(p),
            },
            TxOutV {
                value: spec_change_amount(p) as u64,
                spk: SpkV::Exit {
                    user_pubkey: p.user_pubkey,
                    asp_pubkey: p.asp_pubkey,
                    exit_delta: p.exit_delta,
                },
            },
            TxOutV { value: 0, spk: SpkV::Anchor },
        ],
    }
}

impl Bolt11Payment {
    /// The sum of the input amounts; `None` when it exceeds the
    /// largest representable amount.
    pub fn total_input_amount(&self) -> (r: Option<u64>)
        ensures
            match r {
                Some(n) => n == sum_vtxo_amounts(self@.inputs),
                None => sum_vtxo_amounts(self@.inputs) > u64::MAX,
            },
    {
        let p = crate::oor::OorPayment {
            asp_pubkey: self.asp_pubkey,
            exit_delta: self.exit_delta,
            inputs: crate::vtxo::duplicate_vtxos(&self.inputs),
            outputs: Vec::new(),
        };
        proof {
            assert(p@.inputs == self@.inputs);
        }
        p.total_input_amount()
    }

    /// Whether the books are in order: the inputs cover the invoice
    /// amount, the forwarding fee and a change output of at least dust,
    /// and the invoice amount itself reaches dust.
    pub fn check_amounts(&self) -> (r: bool)
        requires
            sum_vtxo_amounts(self@.inputs) <= u64::MAX,
        ensures
            r == bolt11_amounts_ok(self@),
    {
        let in_sum = match self.total_input_amount() {
            Some(s) => s,
            None => {
                proof {
                    assert(false);
                }
                unreached()
            },
        };
        if self.payment_amount < crate::vtxo::P2TR_DUST {
            return false;
        }
        if self.payment_amount > u64::MAX - self.forwarding_fee {
            return false;
        }
        let htlc = self.payment_amount + self.forwarding_fee;
        in_sum >= htlc && in_sum - htlc >= crate::vtxo::P2TR_DUST
    }

    /// The value locked in the HTLC output.
    pub fn htlc_amount(&self) -> (r: u64)
        requires
            spec_htlc_amount(self@) <= u64::MAX,
        ensures
            r == spec_htlc_amount(self@),
    {
        self.payment_amount + self.forwarding_fee
    }

    /// The change the user keeps.
    pub fn change_amount(&self) -> (r: u64)
        requires
            sum_vtxo_amounts(self@.inputs) <= u64::MAX,
            bolt11_amounts_ok(self@),
        ensures
            r == spec_change_amount(self@),
    {
        let in_sum = match self.total_input_amount() {
            Some(s) => s,
            None => {
                proof {
                    assert(false);
                }
                unreached()
            },
        };
        proof {
            crate::oor::lemma_sum_vtxo_amounts_nonneg(self@.inputs);
        }
        in_sum - (self.payment_amount + self.forwarding_fee)
    }

    /// The unsigned HTLC transaction.
    pub fn unsigned_transaction(&self) -> (r: Tx)
        requires
            sum_vtxo_amounts(self@.inputs) <= u64::MAX,
            bolt11_amounts_ok(self@),
            forall|i: int| 0 <= i < self@.inputs.len()
                ==> crate::wire::has_point(#[trigger] self@.inputs[i]),
        ensures
            r@ == spec_htlc_tx(self@),
    {
        proof {
            lemma_vtxo_views(self.inputs@);
        }
        let ghost views = self@.inputs;
        let mut inputs: Vec<TxIn> = Vec::new();
        let mut i: usize = 0;
        while i < self.inputs.len()
            invariant
                0 <= i <= self.inputs@.len(),
                views == vtxo_views(self.inputs@),
                views.len() == self.inputs@.len(),
                self.htlc_delta == self@.htlc_delta,
                forall|k: int| 0 <= k < self@.inputs.len()
                    ==> crate::wire::has_point(#[trigger] self@.inputs[k]),
                forall|k: int| 0 <= k < self.inputs@.len()
                    ==> views[k] == crate::vtxo::vtxo_view(#[trigger] self.inputs@[k]),
                inputs@.len() == i,
                forall|k: int| 0 <= k < i ==> (#[trigger] inputs@[k])@
                    == spec_htlc_tx(self@).inputs[k],
            decreases self.inputs@.len() - i,
        {
            proof {
                assert(views[i as int]
                    == crate::vtxo::vtxo_view(self.inputs@[i as int]));
                assert(crate::wire::has_point(self@.inputs[i as int]));
            }
            let point = self.inputs[i].point();
            inputs.push(TxIn {
                prevout: point,
                sequence: self.htlc_delta as u32,
                signature: None,
            });
            i += 1;
        }
        let htlc_out = TxOut {
            value: self.htlc_amount(),
            spk: Spk::Htlc {
                payment_hash: self.payment_hash,
                user_pubkey: self.user_pubkey,
                asp_pubkey: self.asp_pubkey,
                htlc_expiry: self.htlc_expiry,
                exit_delta: self.htlc_expiry_delta,
            },
        };
        let change_out = TxOut {
            value: self.change_amount(),
            spk: Spk::Exit {
                user_pubkey: self.user_pubkey,
                asp_pubkey: self.asp_pubkey,
                exit_delta: self.exit_delta,
            },
        };
        let anchor = TxOut { value: 0, spk: Spk::Anchor };
        let mut outputs: Vec<TxOut> = Vec::new();
        outputs.push(htlc_out);
        outputs.push(change_out);
        outputs.push(anchor);
        let r = Tx { inputs, outputs };
        proof {
            assert(r@.inputs =~= spec_htlc_tx(self@).inputs);
            assert(r@.outputs =~= spec_htlc_tx(self@).outputs);
            assert(r@ =~= spec_htlc_tx(self@));
        }
        r
    }

    /// The change VTXO the user keeps: the HTLC transaction's second
    /// output, inheriting the tightest input expiry.
    pub fn change_vtxo(&self) -> (r: Vtxo)
        requires
            sum_vtxo_amounts(self@.inputs) <= u64::MAX,
            bolt11_amounts_ok(self@),
            forall|i: int| 0 <= i < self@.inputs.len()
                ==> crate::wire::has_point(#[trigger] self@.inputs[i]),
        ensures
            r@ == (VtxoV::Bolt11Change {
                inputs: self@.inputs,
                spec: VtxoSpecV {
                    user_pubkey: self@.user_pubkey,
                    asp_pubkey: self@.asp_pubkey,
                    expiry_height: min_expiry(self@.inputs, u32::MAX),
                    exit_delta: self@.exit_delta,
                    amount: spec_change_amount(self@) as u64,
                },
                htlc_tx: spec_htlc_tx(self@),
                final_point: OutPointV { txid: txid_of(spec_htlc_tx(self@)), vout: 1 },
            }),
    {
        let tx = self.unsigned_transaction();
        let txid = tx.txid();
        let oor_like = crate::oor::OorPayment {
            asp_pubkey: self.asp_pubkey,
            exit_delta: self.exit_delta,
            inputs: crate::vtxo::duplicate_vtxos(&self.inputs),
            outputs: Vec::new(),
        };
        proof {
            assert(oor_like@.inputs == self@.inputs);
        }
        let expiry = oor_like.inputs_min_expiry();
        let amount = self.change_amount();
        let v = Vtxo::Bolt11Change {
            inputs: crate::vtxo::duplicate_vtxos(&self.inputs),
            spec: VtxoSpec {
                user_pubkey: self.user_pubkey,
                asp_pubkey: self.asp_pubkey,
                expiry_height: expiry,
                exit_delta: self.exit_delta,
                amount,
            },
            htlc_tx: tx,
            final_point: OutPoint { txid, vout: 1 },
        };
        proof {
            assert(v@ =~= (VtxoV::Bolt11Change {
                inputs: self@.inputs,
                spec: VtxoSpecV {
                    user_pubkey: self@.user_pubkey,
                    asp_pubkey: self@.asp_pubkey,
                    expiry_height: min_expiry(self@.inputs, u32::MAX),
                    exit_delta: self@.exit_delta,
                    amount: spec_change_amount(self@) as u64,
                },
                htlc_tx: spec_htlc_tx(self@),
                final_point: OutPointV { txid: txid_of(spec_htlc_tx(self@)), vout: 1 },
            }));
        }
        v
    }

    /// The value of the fresh exit VTXO a revocation returns to the
    /// user after a failed payment: the HTLC value minus the forwarding
    /// fee the provider keeps — exactly the invoice amount.
    pub fn revocation_amount(&self) -> (r: u64)
        requires
            spec_htlc_amount(self@) <= u64::MAX,
        ensures
            r == spec_htlc_amount(self@) - self@.forwarding_fee,
            r == self@.payment_amount,
    {
        self.payment_amount
    }
}

/// The commitment digest an input of the modelled HTLC transaction
/// carries: the digest of the witness-stripped canonical encoding and
/// the input's index. The BIP-341 sighash of the real, consensus-
/// serialized transaction goes through `crate::crypto::taproot_sighash`.
pub open spec fn htlc_sighash(p: Bolt11PaymentV, i: int) -> Seq<u8> {
    crate::crypto::sha256d_of(
        crate::codec::enc_txid_payload(spec_htlc_tx(p)) + u64_le(i as u64),
    )
}

impl Bolt11Payment {
    /// The commitment digests of the HTLC transaction's inputs, one
    /// each (see `htlc_sighash`).
    pub fn htlc_sighashes(&self) -> (r: Vec<[u8; 32]>)
        requires
            sum_vtxo_amounts(self@.inputs) <= u64::MAX,
            bolt11_amounts_ok(self@),
            forall|i: int| 0 <= i < self@.inputs.len()
                ==> crate::wire::has_point(#[trigger] self@.inputs[i]),
        ensures
            r@.len() == self@.inputs.len(),
            forall|i: int| 0 <= i < r@.len()
                ==> (#[trigger] r@[i])@ == htlc_sighash(self@, i),
    {
        let tx = self.unsigned_transaction();
        let mut payload: Vec<u8> = Vec::new();
        crate::wire::encode_txid_payload(&mut payload, &tx);
        let mut out: Vec<[u8; 32]> = Vec::new();
        let mut i: usize = 0;
        proof {
            lemma_vtxo_views(self.inputs@);
        }
        while i < self.inputs.len()
            invariant
                0 <= i <= self.inputs@.len(),
                self@.inputs.len() == self.inputs@.len(),
                payload@ == crate::codec::enc_txid_payload(spec_htlc_tx(self@)),
                out@.len() == i,
                forall|k: int| 0 <= k < i
                    ==> (#[trigger] out@[k])@ == htlc_sighash(self@, k),
            decreases self.inputs@.len() - i,
        {
            let mut buf: Vec<u8> = Vec::new();
            crate::bytes::push_vec(&mut buf, &payload);
            push_u64(&mut buf, i as u64);
            let h = crate::crypto::sha256d(buf.as_slice());
            proof {
                assert(buf@ =~= crate::codec::enc_txid_payload(spec_htlc_tx(self@))
                    + u64_le(i as u64));
            }
            out.push(h);
            i += 1;
        }
        out
    }
}

/// What a payment misses when its inputs cannot carry it: what it
/// would need in all, the fee part of that, and the shortfall.
#[derive(Debug)]
pub struct InsufficientFunds {
    pub required: u64,
    pub missing: u64,
    pub fee: u64,
}

/// The on-chain fee a transaction of the given weight owes at the given
/// feerate, rounded up to a whole satoshi.
pub open spec fn spec_weight_fee(feerate_sat_per_kwu: u64, weight_wu: u64) -> int {
    (feerate_sat_per_kwu * weight_wu + 999) / 1000
}

impl Bolt11Payment {
    /// Check a full set of final input signatures against the given
    /// taproot output keys, one per input. Accepts exactly when a
    /// signature is present for every input and each verifies for the
    /// input's commitment digest under the matching key.
    pub fn validate_signatures(
        &self,
        sigs: &Vec<[u8; 64]>,
        keys: &Vec<[u8; 32]>,
    ) -> (r: bool)
        requires
            sum_vtxo_amounts(self@.inputs) <= u64::MAX,
            bolt11_amounts_ok(self@),
            forall|i: int| 0 <= i < self@.inputs.len()
                ==> crate::wire::has_point(#[trigger] self@.inputs[i]),
            keys@.len() == self@.inputs.len(),
        ensures
            r <==> (sigs@.len() == self@.inputs.len()
                && forall|i: int| 0 <= i < self@.inputs.len()
                    ==> crate::crypto::schnorr_valid(
                        (#[trigger] sigs@[i])@, htlc_sighash(self@, i), keys@[i]@,
                    )),
    {
        proof {
            lemma_vtxo_views(self.inputs@);
        }
        if sigs.len() != self.inputs.len() {
            return false;
        }
        let hashes = self.htlc_sighashes();
        let mut i: usize = 0;
        while i < self.inputs.len()
            invariant
                0 <= i <= self.inputs@.len(),
                self@.inputs.len() == self.inputs@.len(),
                sigs@.len() == self@.inputs.len(),
                keys@.len() == self@.inputs.len(),
                hashes@.len() == self@.inputs.len(),
                forall|k: int| 0 <= k < hashes@.len()
                    ==> (#[trigger] hashes@[k])@ == htlc_sighash(self@, k),
                forall|k: int| 0 <= k < i
                    ==> crate::crypto::schnorr_valid(
                        (#[trigger] sigs@[k])@, htlc_sighash(self@, k), keys@[k]@,
                    ),
            decreases self.inputs@.len() - i,
        {
            if !crate::crypto::schnorr_verify(&sigs[i], &hashes[i], &keys[i]) {
                return false;
            }
            i += 1;
        }
        true
    }

    /// Check that the inputs carry the outputs and the fees at the
    /// given feerate: the amount and change, plus the weight fee and
    /// the forwarding fee, must not exceed the input value. The
    /// transaction weight comes from the transaction assembler as a
    /// plain value. Fails exactly on a shortfall, reporting what would
    /// be required, its fee part, and the missing rest.
    pub fn check_fee(
        &self,
        amount: u64,
        change: u64,
        feerate_sat_per_kwu: u64,
        total_weight_wu: u64,
    ) -> (r: Result<(), InsufficientFunds>)
        requires
            sum_vtxo_amounts(self@.inputs) <= u64::MAX,
            feerate_sat_per_kwu * total_weight_wu + 999 <= u64::MAX,
            amount + change
                + spec_weight_fee(feerate_sat_per_kwu, total_weight_wu)
                + self.forwarding_fee <= u64::MAX,
        ensures
            ({
                let required = amount + change
                    + spec_weight_fee(feerate_sat_per_kwu, total_weight_wu)
                    + self@.forwarding_fee;
                match r {
                    Ok(()) => required <= sum_vtxo_amounts(self@.inputs),
                    Err(e) => {
                        &&& required > sum_vtxo_amounts(self@.inputs)
                        &&& e.required == required
                        &&& e.fee == spec_weight_fee(feerate_sat_per_kwu, total_weight_wu)
                            + self@.forwarding_fee
                        &&& e.missing == required - sum_vtxo_amounts(self@.inputs)
                    },
                }
            }),
    {
        let total_input = match self.total_input_amount() {
            Some(s) => s,
            None => {
                proof {
                    assert(false);
                }
                unreached()
            },
        };
        let fee = (feerate_sat_per_kwu * total_weight_wu + 999) / 1000
            + self.forwarding_fee;
        let required = amount + change + fee;
        if required > total_input {
            Err(InsufficientFunds { required, fee, missing: required - total_input })
        } else {
            Ok(())
        }
    }
}

/// Revocation conservation: after a failed payment is revoked, the
/// user's change plus the revoked output equal the inputs minus the
/// forwarding fee the provider keeps.
pub proof fn lemma_revocation_conservation(p: Bolt11PaymentV)
    requires
        bolt11_amounts_ok(p),
    ensures
        spec_change_amount(p) + (spec_htlc_amount(p) - p.forwarding_fee)
            == sum_vtxo_amounts(p.inputs) - p.forwarding_fee,
{
}

// ---------------------------------------------------------------
// canonical encoding of a payment
// ---------------------------------------------------------------

/// Encoding of a Lightning payment: the fixed header, then the input
/// VTXOs.
pub open spec fn enc_bolt11(p: Bolt11PaymentV) -> Seq<u8> {
    p.payment_hash + p.asp_pubkey + p.user_pubkey
        + u64_le(p.payment_amount) + u64_le(p.forwarding_fee)
        + u64_le(p.htlc_delta as u64) + u64_le(p.htlc_expiry_delta as u64)
        + u64_le(p.htlc_expiry as u64) + u64_le(p.exit_delta as u64)
        + u64_le(p.inputs.len() as u64) + enc_vtxo_items(p.inputs)
}

/// Decode a Lightning payment from the front of a byte string.
pub open spec fn dec_bolt11(s: Seq<u8>) -> Option<(Bolt11PaymentV, int)> {
    if s.len() >= 152 {
        let payment_amount = u64_of_le(s.subrange(96, 104));
        let forwarding_fee = u64_of_le(s.subrange(104, 112));
        let htlc_delta = u64_of_le(s.subrange(112, 120));
        let htlc_expiry_delta = u64_of_le(s.subrange(120, 128));
        let htlc_expiry = u64_of_le(s.subrange(128, 136));
        let exit_delta = u64_of_le(s.subrange(136, 144));
        let n_in = u64_of_le(s.subrange(144, 152));
        if htlc_delta < 0x1_0000 && htlc_expiry_delta < 0x1_0000
            && htlc_expiry < 0x1_0000_0000 && exit_delta < 0x1_0000 {
            match dec_vtxo_items(s.skip(152), n_in as nat) {
                Some((inputs, c)) => Some((
                    Bolt11PaymentV {
                        payment_hash: s.take(32),
                        inputs,
                        asp_pubkey: s.subrange(32, 64),
                        user_pubkey: s.subrange(64, 96),
                        payment_amount: payment_amount as u64,
                        forwarding_fee: forwarding_fee as u64,
                        htlc_delta: htlc_delta as u16,
                        htlc_expiry_delta: htlc_expiry_delta as u16,
                        htlc_expiry: htlc_expiry as u32,
                        exit_delta: exit_delta as u16,
                    },
                    152 + c,
                )),
                None => None,
            }
        } else {
            None
        }
    } else {
        None
    }
}

/// Decoding the encoding of a Lightning payment yields it back.
#[verifier::rlimit(100)]
pub proof fn lemma_rt_bolt11(p: Bolt11PaymentV, rest: Seq<u8>)
    requires
        p.payment_hash.len() == 32,
        p.asp_pubkey.len() == 32,
        p.user_pubkey.len() == 32,
        crate::codec::fits_u64(p.inputs.len()),
        forall|j: int| 0 <= j < p.inputs.len()
            ==> crate::codec::wf_vtxo(#[trigger] p.inputs[j]),
    ensures
        dec_bolt11(enc_bolt11(p) + rest) == Some((p, enc_bolt11(p).len() as int)),
{
    let s = enc_bolt11(p) + rest;
    crate::bytes::lemma_u64_le_roundtrip(p.payment_amount);
    crate::bytes::lemma_u64_le_roundtrip(p.forwarding_fee);
    crate::bytes::lemma_u64_le_roundtrip(p.htlc_delta as u64);
    crate::bytes::lemma_u64_le_roundtrip(p.htlc_expiry_delta as u64);
    crate::bytes::lemma_u64_le_roundtrip(p.htlc_expiry as u64);
    crate::bytes::lemma_u64_le_roundtrip(p.exit_delta as u64);
    crate::bytes::lemma_u64_le_roundtrip(p.inputs.len() as u64);
    assert(s.take(32) =~= p.payment_hash);
    assert(s.subrange(32, 64) =~= p.asp_pubkey);
    assert(s.subrange(64, 96) =~= p.user_pubkey);
    assert(s.subrange(96, 104) =~= u64_le(p.payment_amount));
    assert(s.subrange(104, 112) =~= u64_le(p.forwarding_fee));
    assert(s.subrange(112, 120) =~= u64_le(p.htlc_delta as u64));
    assert(s.subrange(120, 128) =~= u64_le(p.htlc_expiry_delta as u64));
    assert(s.subrange(128, 136) =~= u64_le(p.htlc_expiry as u64));
    assert(s.subrange(136, 144) =~= u64_le(p.exit_delta as u64));
    assert(s.subrange(144, 152) =~= u64_le(p.inputs.len() as u64));
    assert(s.skip(152) =~= enc_vtxo_items(p.inputs) + rest);
    crate::codec::lemma_rt_vtxo_items(p.inputs, rest);
    let (q, c) = dec_bolt11(s).unwrap();
    assert(q =~= p);
    assert(c == enc_bolt11(p).len());
}

impl Bolt11Payment {
    /// The canonical encoding of this payment.
    pub fn encode(&self) -> (r: Vec<u8>)
        ensures
            r@ == enc_bolt11(self@),
    {
        let mut out: Vec<u8> = Vec::new();
        push_bytes(&mut out, &self.payment_hash);
        push_bytes(&mut out, &self.asp_pubkey);
        push_bytes(&mut out, &self.user_pubkey);
        push_u64(&mut out, self.payment_amount);
        push_u64(&mut out, self.forwarding_fee);
        push_u64(&mut out, self.htlc_delta as u64);
        push_u64(&mut out, self.htlc_expiry_delta as u64);
        push_u64(&mut out, self.htlc_expiry as u64);
        push_u64(&mut out, self.exit_delta as u64);
        push_u64(&mut out, self.inputs.len() as u64);
        proof {
            lemma_vtxo_views(self.inputs@);
        }
        let ghost views = self@.inputs;
        let mut i: usize = 0;
        let ghost mid = out@;
        while i < self.inputs.len()
            invariant
                0 <= i <= self.inputs@.len(),
                views == vtxo_views(self.inputs@),
                views.len() == self.inputs@.len(),
                forall|k: int| 0 <= k < self.inputs@.len()
                    ==> views[k] == crate::vtxo::vtxo_view(#[trigger] self.inputs@[k]),
                out@ == mid + enc_vtxo_items(views.take(i as int)),
            decreases self.inputs@.len() - i,
        {
            let ghost pre = views.take(i as int);
            crate::wire::encode_vtxo(&mut out, &self.inputs[i]);
            proof {
                assert(views.take(i as int + 1) =~= pre.push(views[i as int]));
                crate::wire::lemma_enc_vtxo_items_push(pre, views[i as int]);
            }
            i += 1;
        }
        proof {
            assert(views.take(views.len() as int) =~= views);
            assert(out@ =~= enc_bolt11(self@));
        }
        out
    }

    /// Decode a payment from a buffer holding exactly one encoded
    /// payment.
    pub fn decode(buf: &[u8]) -> (r: Option<Bolt11Payment>)
        ensures
            match r {
                Some(p) => dec_bolt11(buf@) == Some((p@, buf@.len() as int)),
                None => dec_bolt11(buf@) is None
                    || dec_bolt11(buf@).unwrap().1 != buf@.len(),
            },
    {
        let ghost s = buf@;
        if buf.len() < 152 {
            return None;
        }
        let payment_hash: [u8; 32] = read_bytes(buf, 0);
        let asp_pubkey: [u8; 32] = read_bytes(buf, 32);
        let user_pubkey: [u8; 32] = read_bytes(buf, 64);
        let payment_amount = read_u64(buf, 96);
        let forwarding_fee = read_u64(buf, 104);
        let htlc_delta = read_u64(buf, 112);
        let htlc_expiry_delta = read_u64(buf, 120);
        let htlc_expiry = read_u64(buf, 128);
        let exit_delta = read_u64(buf, 136);
        let n_in = read_u64(buf, 144);
        proof {
            assert(s.take(32) =~= buf@.subrange(0, 32));
            assert(s.skip(152) =~= buf@.skip(152));
        }
        if !(htlc_delta < 0x1_0000 && htlc_expiry_delta < 0x1_0000
            && htlc_expiry < 0x1_0000_0000 && exit_delta < 0x1_0000) {
            return None;
        }
        match crate::wire::decode_vtxo_items(buf, 152, n_in) {
            Some((inputs, p1)) => {
                if p1 != buf.len() {
                    proof {
                        assert(dec_bolt11(s) matches Some(pair)
                            && pair.1 == 152 + (p1 - 152));
                    }
                    return None;
                }
                let p = Bolt11Payment {
                    payment_hash,
                    inputs,
                    asp_pubkey,
                    user_pubkey,
                    payment_amount,
                    forwarding_fee,
                    htlc_delta: htlc_delta as u16,
                    htlc_expiry_delta: htlc_expiry_delta as u16,
                    htlc_expiry: htlc_expiry as u32,
                    exit_delta: exit_delta as u16,
                };
                proof {
                    assert(p@ =~= dec_bolt11(s).unwrap().0);
                }
                Some(p)
            },
            None => None,
        }
    }
}

/// The encoding round trip for Lightning payments.
pub proof fn lemma_bolt11_roundtrip(p: Bolt11Payment)
    ensures
        dec_bolt11(enc_bolt11(p@)) == Some((p@, enc_bolt11(p@).len() as int)),
{
    lemma_vtxo_views(p.inputs@);
    assert(p.inputs.len() == p.inputs@.len());
    assert forall|j: int| 0 <= j < p@.inputs.len()
        implies crate::codec::wf_vtxo(#[trigger] p@.inputs[j]) by {
        crate::wire::lemma_vtxo_wf(p.inputs@[j]);
    }
    lemma_rt_bolt11(p@, Seq::empty());
    assert(enc_bolt11(p@) + Seq::<u8>::empty() =~= enc_bolt11(p@));
}

/// How the provider's Lightning daemon is set up: where it keeps its
/// data, where its chain backend keeps its data, the chain backend's
/// RPC port, and the network name.
pub struct LightningdConfig {
    pub lightning_dir: String,
    pub bitcoin_dir: String,
    pub bitcoin_rpcport: u16,
    pub network: String,
}

/// How to reach the Lightning daemon's RPC endpoint: its address and
/// the certificate material the connection presents.
pub struct GrpcDetails {
    pub uri: String,
    pub server_cert_path: String,
    pub client_cert_path: String,
    pub client_key_path: String,
}

} // verus!
