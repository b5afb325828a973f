//! The VTXO data model: outpoints, output scripts, the transaction
//! model, the common VTXO specification, and the four VTXO variants.
//!
//! A VTXO is an off-chain output whose security derives from a presigned
//! exit path. Transactions are modelled as plain data; a transaction id
//! is the double-SHA256 digest of the transaction's canonical encoding
//! without witness data (see the codec module).
//!
//! Each executable type has a ghost view in which byte arrays and
//! vectors become sequences; contracts are stated over those views.

use vstd::prelude::*;
use crate::bytes::bytes_eq;

verus! {

broadcast use vstd::array::axiom_array_ext_equal;

/// Minimum value of a pay-to-taproot output, in satoshi.
pub const P2TR_DUST: u64 = crate::P2TR_DUST_SAT;

/// A transaction output reference: transaction id and output index.
#[derive(Clone, Copy, Debug)]
pub struct OutPoint {
    pub txid: [u8; 32],
    pub vout: u32,
}

/// The view of an outpoint.
#[verifier::ext_equal]
pub ghost struct OutPointV {
    pub txid: Seq<u8>,
    pub vout: u32,
}

impl View for OutPoint {
    type V = OutPointV;

    open spec fn view(&self) -> OutPointV {
        OutPointV { txid: self.txid@, vout: self.vout }
    }
}

impl OutPoint {
    /// Whether two outpoints reference the same output.
    pub fn eq_point(&self, other: &OutPoint) -> (r: bool)
        ensures
            r == (self@ == other@),
    {
        let r = bytes_eq(&self.txid, &other.txid) && self.vout == other.vout;
        proof {
            if r {
                assert(self@ =~= other@);
            } else {
                assert(self@ != other@);
            }
        }
        r
    }
}

/// The identifier of a VTXO: the outpoint of its leaf exit output,
/// 36 bytes in canonical form (txid, then the little-endian output
/// index).
#[derive(Clone, Copy, Debug)]
pub struct VtxoId {
    pub point: OutPoint,
}

impl View for VtxoId {
    type V = OutPointV;

    open spec fn view(&self) -> OutPointV {
        self.point@
    }
}

impl VtxoId {
    /// Whether two identifiers name the same VTXO.
    pub fn eq_id(&self, other: &VtxoId) -> (r: bool)
        ensures
            r == (self@ == other@),
    {
        self.point.eq_point(&other.point)
    }
}

/// The output script of a modelled transaction output.
pub enum Spk {
    /// The exit script of a VTXO: key path is the cooperative key of
    /// user and service provider; the script path lets the user claim
    /// alone after `exit_delta` blocks.
    Exit { user_pubkey: [u8; 32], asp_pubkey: [u8; 32], exit_delta: u16 },
    /// The HTLC script bridging to Lightning: the service provider
    /// claims with the payment preimage; the user reclaims after the
    /// absolute height `htlc_expiry`, delayed `exit_delta` relative
    /// blocks.
    Htlc {
        payment_hash: [u8; 32],
        user_pubkey: [u8; 32],
        asp_pubkey: [u8; 32],
        htlc_expiry: u32,
        exit_delta: u16,
    },
    /// A zero-value pay-to-anchor output for CPFP fee bumping.
    Anchor,
    /// An arbitrary script, used for offboard outputs.
    Raw { program: Vec<u8> },
}

/// The view of an output script.
#[verifier::ext_equal]
pub ghost enum SpkV {
    Exit { user_pubkey: Seq<u8>, asp_pubkey: Seq<u8>, exit_delta: u16 },
    Htlc {
        payment_hash: Seq<u8>,
        user_pubkey: Seq<u8>,
        asp_pubkey: Seq<u8>,
        htlc_expiry: u32,
        exit_delta: u16,
    },
    Anchor,
    Raw { program: Seq<u8> },
}

impl View for Spk {
    type V = SpkV;

    open spec fn view(&self) -> SpkV {
        match *self {
            Spk::Exit { user_pubkey, asp_pubkey, exit_delta } =>
                SpkV::Exit { user_pubkey: user_pubkey@, asp_pubkey: asp_pubkey@, exit_delta },
            Spk::Htlc { payment_hash, user_pubkey, asp_pubkey, htlc_expiry, exit_delta } =>
                SpkV::Htlc {
                    payment_hash: payment_hash@,
                    user_pubkey: user_pubkey@,
                    asp_pubkey: asp_pubkey@,
                    htlc_expiry,
                    exit_delta,
                },
            Spk::Anchor => SpkV::Anchor,
            Spk::Raw { program } => SpkV::Raw { program: program@ },
        }
    }
}

impl Spk {
    /// Whether two output scripts are the same script.
    pub fn eq_spk(&self, other: &Spk) -> (r: bool)
        ensures
            r == (self@ == other@),
    {
        match (self, other) {
            (
                Spk::Exit { user_pubkey: u1, asp_pubkey: a1, exit_delta: d1 },
                Spk::Exit { user_pubkey: u2, asp_pubkey: a2, exit_delta: d2 },
            ) => {
                let r = bytes_eq(u1, u2) && bytes_eq(a1, a2) && d1 == d2;
                proof {
                    if r {
                        assert(self@ =~= other@);
                    }
                }
                r
            },
            (
                Spk::Htlc {
                    payment_hash: h1, user_pubkey: u1, asp_pubkey: a1,
                    htlc_expiry: e1, exit_delta: d1,
                },
                Spk::Htlc {
                    payment_hash: h2, user_pubkey: u2, asp_pubkey: a2,
                    htlc_expiry: e2, exit_delta: d2,
                },
            ) => {
                let r = bytes_eq(h1, h2) && bytes_eq(u1, u2) && bytes_eq(a1, a2)
                    && e1 == e2 && d1 == d2;
                proof {
                    if r {
                        assert(self@ =~= other@);
                    }
                }
                r
            },
            (Spk::Anchor, Spk::Anchor) => true,
            (Spk::Raw { program: p1 }, Spk::Raw { program: p2 }) => {
                let r = crate::bytes::vec_bytes_eq(p1, p2);
                proof {
                    if r {
                        assert(self@ =~= other@);
                    }
                }
                r
            },
            _ => false,
        }
    }
}

/// A modelled transaction output.
pub struct TxOut {
    pub value: u64,
    pub spk: Spk,
}

/// The view of a transaction output.
#[verifier::ext_equal]
pub ghost struct TxOutV {
    pub value: u64,
    pub spk: SpkV,
}

impl View for TxOut {
    type V = TxOutV;

    open spec fn view(&self) -> TxOutV {
        TxOutV { value: self.value, spk: self.spk@ }
    }
}

/// A modelled transaction input: the spent outpoint, its sequence
/// number, and the key-path signature once the input is signed.
#[derive(Clone, Copy)]
pub struct TxIn {
    pub prevout: OutPoint,
    pub sequence: u32,
    pub signature: Option<[u8; 64]>,
}

/// The view of a transaction input.
#[verifier::ext_equal]
pub ghost struct TxInV {
    pub prevout: OutPointV,
    pub sequence: u32,
    pub signature: Option<Seq<u8>>,
}

impl View for TxIn {
    type V = TxInV;

    open spec fn view(&self) -> TxInV {
        TxInV {
            prevout: self.prevout@,
            sequence: self.sequence,
            signature: match self.signature {
                Some(sig) => Some(sig@),
                None => None,
            },
        }
    }
}

/// A modelled transaction.
pub struct Tx {
    pub inputs: Vec<TxIn>,
    pub outputs: Vec<TxOut>,
}

/// The view of a transaction.
#[verifier::ext_equal]
pub ghost struct TxV {
    pub inputs: Seq<TxInV>,
    pub outputs: Seq<TxOutV>,
}

impl View for Tx {
    type V = TxV;

    open spec fn view(&self) -> TxV {
        TxV {
            inputs: self.inputs@.map_values(|i: TxIn| i@),
            outputs: self.outputs@.map_values(|o: TxOut| o@),
        }
    }
}

/// The common specification every VTXO variant carries: the two keys,
/// the absolute expiry height after which the service provider may
/// sweep, the relative exit timelock, and the amount in satoshi.
#[derive(Clone, Copy)]
pub struct VtxoSpec {
    pub user_pubkey: [u8; 32],
    pub asp_pubkey: [u8; 32],
    pub expiry_height: u32,
    pub exit_delta: u16,
    pub amount: u64,
}

/// The view of a VTXO specification.
#[verifier::ext_equal]
pub ghost struct VtxoSpecV {
    pub user_pubkey: Seq<u8>,
    pub asp_pubkey: Seq<u8>,
    pub expiry_height: u32,
    pub exit_delta: u16,
    pub amount: u64,
}

impl View for VtxoSpec {
    type V = VtxoSpecV;

    open spec fn view(&self) -> VtxoSpecV {
        VtxoSpecV {
            user_pubkey: self.user_pubkey@,
            asp_pubkey: self.asp_pubkey@,
            expiry_height: self.expiry_height,
            exit_delta: self.exit_delta,
            amount: self.amount,
        }
    }
}

/// The exit script of a VTXO specification.
pub open spec fn spec_exit_spk(s: VtxoSpecV) -> SpkV {
    SpkV::Exit {
        user_pubkey: s.user_pubkey,
        asp_pubkey: s.asp_pubkey,
        exit_delta: s.exit_delta,
    }
}

impl VtxoSpec {
    /// The exit script of this specification.
    pub fn exit_spk(&self) -> (r: Spk)
        ensures
            r@ == spec_exit_spk(self@),
    {
        Spk::Exit {
            user_pubkey: self.user_pubkey,
            asp_pubkey: self.asp_pubkey,
            exit_delta: self.exit_delta,
        }
    }

    /// The exit output of this specification: the full amount under the
    /// exit script.
    pub fn txout(&self) -> (r: TxOut)
        ensures
            r@ == (TxOutV { value: self.amount, spk: spec_exit_spk(self@) }),
    {
        TxOut { value: self.amount, spk: self.exit_spk() }
    }
}

/// A virtual UTXO, in one of its four variants.
pub enum Vtxo {
    /// Created by funding a single on-chain output and cosigning a
    /// presigned exit transaction with the service provider.
    Board { spec: VtxoSpec, onchain_output: OutPoint, exit_tx: Tx },
    /// A leaf of the VTXO tree of a round; carries the branch of node
    /// transactions from the round transaction down to the leaf.
    Round { spec: VtxoSpec, leaf_idx: u32, exit_branch: Vec<Tx> },
    /// An off-round transfer; carries the input VTXOs and the signed
    /// transfer transaction.
    Arkoor { inputs: Vec<Vtxo>, spec: VtxoSpec, oor_tx: Tx, final_point: OutPoint },
    /// The change output of a Lightning payment's HTLC transaction.
    Bolt11Change { inputs: Vec<Vtxo>, spec: VtxoSpec, htlc_tx: Tx, final_point: OutPoint },
}

/// The view of a VTXO.
#[verifier::ext_equal]
pub ghost enum VtxoV {
    Board { spec: VtxoSpecV, onchain_output: OutPointV, exit_tx: TxV },
    Round { spec: VtxoSpecV, leaf_idx: u32, exit_branch: Seq<TxV> },
    Arkoor { inputs: Seq<VtxoV>, spec: VtxoSpecV, oor_tx: TxV, final_point: OutPointV },
    Bolt11Change { inputs: Seq<VtxoV>, spec: VtxoSpecV, htlc_tx: TxV, final_point: OutPointV },
}

/// The view of a VTXO value.
pub open spec fn vtxo_view(v: Vtxo) -> VtxoV
    decreases v,
{
    match v {
        Vtxo::Board { spec, onchain_output, exit_tx } =>
            VtxoV::Board { spec: spec@, onchain_output: onchain_output@, exit_tx: exit_tx@ },
        Vtxo::Round { spec, leaf_idx, exit_branch } =>
            VtxoV::Round {
                spec: spec@,
                leaf_idx,
                exit_branch: exit_branch@.map_values(|t: Tx| t@),
            },
        Vtxo::Arkoor { inputs, spec, oor_tx, final_point } =>
            VtxoV::Arkoor {
                inputs: vtxo_views(inputs@),
                spec: spec@,
                oor_tx: oor_tx@,
                final_point: final_point@,
            },
        Vtxo::Bolt11Change { inputs, spec, htlc_tx, final_point } =>
            VtxoV::Bolt11Change {
                inputs: vtxo_views(inputs@),
                spec: spec@,
                htlc_tx: htlc_tx@,
                final_point: final_point@,
            },
    }
}

/// The views of a sequence of VTXOs.
pub open spec fn vtxo_views(vs: Seq<Vtxo>) -> Seq<VtxoV>
    decreases vs,
{
    if vs.len() == 0 {
        Seq::empty()
    } else {
        vtxo_views(vs.drop_last()).push(vtxo_view(vs.last()))
    }
}

/// The views of a sequence of VTXOs, element by element.
pub proof fn lemma_vtxo_views(vs: Seq<Vtxo>)
    ensures
        vtxo_views(vs).len() == vs.len(),
        forall|i: int| 0 <= i < vs.len() ==> vtxo_views(vs)[i] == vtxo_view(vs[i]),
    decreases vs,
{
    if vs.len() > 0 {
        lemma_vtxo_views(vs.drop_last());
    }
}

impl View for Vtxo {
    type V = VtxoV;

    open spec fn view(&self) -> VtxoV {
        vtxo_view(*self)
    }
}

impl VtxoV {
    /// The common specification of a VTXO view.
    pub open spec fn spec_of(self) -> VtxoSpecV {
        match self {
            VtxoV::Board { spec, .. } => spec,
            VtxoV::Round { spec, .. } => spec,
            VtxoV::Arkoor { spec, .. } => spec,
            VtxoV::Bolt11Change { spec, .. } => spec,
        }
    }

    /// The amount of a VTXO view, in satoshi.
    pub open spec fn amount_of(self) -> u64 {
        self.spec_of().amount
    }
}

impl Spk {
    /// A copy of this output script.
    pub fn duplicate(&self) -> (r: Spk)
        ensures
            r@ == self@,
    {
        match self {
            Spk::Exit { user_pubkey, asp_pubkey, exit_delta } => Spk::Exit {
                user_pubkey: *user_pubkey,
                asp_pubkey: *asp_pubkey,
                exit_delta: *exit_delta,
            },
            Spk::Htlc { payment_hash, user_pubkey, asp_pubkey, htlc_expiry, exit_delta } =>
                Spk::Htlc {
                    payment_hash: *payment_hash,
                    user_pubkey: *user_pubkey,
                    asp_pubkey: *asp_pubkey,
                    htlc_expiry: *htlc_expiry,
                    exit_delta: *exit_delta,
                },
            Spk::Anchor => Spk::Anchor,
            Spk::Raw { program } => {
                let mut out: Vec<u8> = Vec::new();
                let mut i: usize = 0;
                while i < program.len()
                    invariant
                        0 <= i <= program@.len(),
                        out@ == program@.take(i as int),
                    decreases program@.len() - i,
                {
                    out.push(program[i]);
                    assert(out@ =~= program@.take(i as int + 1));
                    i += 1;
                }
                assert(program@.take(program@.len() as int) =~= program@);
                Spk::Raw { program: out }
            },
        }
    }
}

impl TxOut {
    /// A copy of this output.
    pub fn duplicate(&self) -> (r: TxOut)
        ensures
            r@ == self@,
    {
        TxOut { value: self.value, spk: self.spk.duplicate() }
    }
}

impl Tx {
    /// A copy of this transaction.
    pub fn duplicate(&self) -> (r: Tx)
        ensures
            r@ == self@,
    {
        let mut inputs: Vec<TxIn> = Vec::new();
        let mut i: usize = 0;
        while i < self.inputs.len()
            invariant
                0 <= i <= self.inputs@.len(),
                inputs@ == self.inputs@.take(i as int),
            decreases self.inputs@.len() - i,
        {
            inputs.push(self.inputs[i]);
            assert(inputs@ =~= self.inputs@.take(i as int + 1));
            i += 1;
        }
        assert(self.inputs@.take(self.inputs@.len() as int) =~= self.inputs@);
        let mut outputs: Vec<TxOut> = Vec::new();
        let mut j: usize = 0;
        while j < self.outputs.len()
            invariant
                0 <= j <= self.outputs@.len(),
                outputs@.len() == j,
                forall|k: int| 0 <= k < j
                    ==> (#[trigger] outputs@[k])@ == self.outputs@[k]@,
            decreases self.outputs@.len() - j,
        {
            outputs.push(self.outputs[j].duplicate());
            j += 1;
        }
        let r = Tx { inputs, outputs };
        proof {
            assert(r@.outputs =~= self@.outputs);
            assert(r@ =~= self@);
        }
        r
    }
}

/// A copy of a list of VTXOs.
pub fn duplicate_vtxos(vs: &Vec<Vtxo>) -> (r: Vec<Vtxo>)
    ensures
        vtxo_views(r@) == vtxo_views(vs@),
    decreases vs@, 0int,
{
    proof {
        lemma_vtxo_views(vs@);
    }
    let mut out: Vec<Vtxo> = Vec::new();
    let mut i: usize = 0;
    while i < vs.len()
        invariant
            0 <= i <= vs@.len(),
            out@.len() == i,
            forall|k: int| 0 <= k < i
                ==> (#[trigger] out@[k])@ == vs@[k]@,
        decreases vs@.len() - i,
    {
        out.push(vs[i].duplicate());
        i += 1;
    }
    proof {
        lemma_vtxo_views(out@);
        assert(vtxo_views(out@) =~= vtxo_views(vs@));
    }
    out
}

impl Vtxo {
    /// A copy of this VTXO.
    pub fn duplicate(&self) -> (r: Vtxo)
        ensures
            r@ == self@,
        decreases *self, 1int,
    {
        match self {
            Vtxo::Board { spec, onchain_output, exit_tx } => Vtxo::Board {
                spec: *spec,
                onchain_output: *onchain_output,
                exit_tx: exit_tx.duplicate(),
            },
            Vtxo::Round { spec, leaf_idx, exit_branch } => {
                let mut branch: Vec<Tx> = Vec::new();
                let mut i: usize = 0;
                while i < exit_branch.len()
                    invariant
                        0 <= i <= exit_branch@.len(),
                        branch@.len() == i,
                        forall|k: int| 0 <= k < i
                            ==> (#[trigger] branch@[k])@ == exit_branch@[k]@,
                    decreases exit_branch@.len() - i,
                {
                    branch.push(exit_branch[i].duplicate());
                    i += 1;
                }
                let r = Vtxo::Round { spec: *spec, leaf_idx: *leaf_idx, exit_branch: branch };
                proof {
                    assert(branch@.map_values(|t: Tx| t@)
                        =~= exit_branch@.map_values(|t: Tx| t@));
                }
                r
            },
            Vtxo::Arkoor { inputs, spec, oor_tx, final_point } => Vtxo::Arkoor {
                inputs: duplicate_vtxos(inputs),
                spec: *spec,
                oor_tx: oor_tx.duplicate(),
                final_point: *final_point,
            },
            Vtxo::Bolt11Change { inputs, spec, htlc_tx, final_point } => Vtxo::Bolt11Change {
                inputs: duplicate_vtxos(inputs),
                spec: *spec,
                htlc_tx: htlc_tx.duplicate(),
                final_point: *final_point,
            },
        }
    }

    /// The common specification of this VTXO.
    pub fn spec(&self) -> (r: &VtxoSpec)
        ensures
            r@ == self@.spec_of(),
    {
        match self {
            Vtxo::Board { spec, .. } => spec,
            Vtxo::Round { spec, .. } => spec,
            Vtxo::Arkoor { spec, .. } => spec,
            Vtxo::Bolt11Change { spec, .. } => spec,
        }
    }

    /// The amount of this VTXO in satoshi.
    pub fn amount(&self) -> (r: u64)
        ensures
            r == self@.amount_of(),
    {
        self.spec().amount
    }
}

} // verus!
