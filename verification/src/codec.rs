//! Canonical binary encoding of the protocol's data: outpoints, output
//! scripts, transactions and VTXOs (and, in other modules, payments and
//! signed trees built from these).
//!
//! Every encoder has a matching decoder and a proved round-trip law:
//! decoding an encoding, followed by arbitrary trailing bytes, yields
//! the encoded value and consumes exactly its encoding. A VTXO encoding
//! starts with one tag byte per variant; tags are never reused.

use vstd::prelude::*;
use crate::bytes::{u64_le, u64_of_le, lemma_u64_le_roundtrip, push_u64, read_u64, push_bytes, read_bytes};
use crate::vtxo::{OutPointV, SpkV, TxOutV, TxInV, TxV, VtxoSpecV, VtxoV};

verus! {

broadcast use crate::bytes::lemma_u64_le_len;

/// Bound on list lengths and integer fields that are carried as 64-bit
/// counts: every encoded count must fit.
pub open spec fn fits_u64(n: nat) -> bool {
    n < 0x1_0000_0000_0000_0000
}

// ---------------------------------------------------------------
// well-formedness of views: the byte lengths a decoder reproduces
// ---------------------------------------------------------------

/// An outpoint view with a 32-byte transaction id.
pub open spec fn wf_outpoint(p: OutPointV) -> bool {
    p.txid.len() == 32
}

/// An output script view with well-formed key, hash and program sizes.
pub open spec fn wf_spk(k: SpkV) -> bool {
    match k {
        SpkV::Exit { user_pubkey, asp_pubkey, .. } =>
            user_pubkey.len() == 32 && asp_pubkey.len() == 32,
        SpkV::Htlc { payment_hash, user_pubkey, asp_pubkey, .. } =>
            payment_hash.len() == 32 && user_pubkey.len() == 32 && asp_pubkey.len() == 32,
        SpkV::Anchor => true,
        SpkV::Raw { program } => fits_u64(program.len()),
    }
}

/// A transaction output view with a well-formed script.
pub open spec fn wf_txout(o: TxOutV) -> bool {
    wf_spk(o.spk)
}

/// A transaction input view with well-formed outpoint and signature.
pub open spec fn wf_txin(i: TxInV) -> bool {
    wf_outpoint(i.prevout) && match i.signature {
        Some(sig) => sig.len() == 64,
        None => true,
    }
}

/// A transaction view whose inputs and outputs are well formed.
pub open spec fn wf_tx(t: TxV) -> bool {
    &&& fits_u64(t.inputs.len())
    &&& fits_u64(t.outputs.len())
    &&& forall|i: int| 0 <= i < t.inputs.len() ==> wf_txin(#[trigger] t.inputs[i])
    &&& forall|i: int| 0 <= i < t.outputs.len() ==> wf_txout(#[trigger] t.outputs[i])
}

/// A VTXO specification view with 32-byte keys.
pub open spec fn wf_vtxo_spec(s: VtxoSpecV) -> bool {
    s.user_pubkey.len() == 32 && s.asp_pubkey.len() == 32
}

/// A VTXO view whose parts are all well formed, ancestors included.
pub open spec fn wf_vtxo(v: VtxoV) -> bool
    decreases v,
{
    match v {
        VtxoV::Board { spec, onchain_output, exit_tx } =>
            wf_vtxo_spec(spec) && wf_outpoint(onchain_output) && wf_tx(exit_tx),
        VtxoV::Round { spec, leaf_idx, exit_branch } =>
            wf_vtxo_spec(spec) && fits_u64(exit_branch.len())
                && forall|i: int| 0 <= i < exit_branch.len() ==> wf_tx(#[trigger] exit_branch[i]),
        VtxoV::Arkoor { inputs, spec, oor_tx, final_point } =>
            wf_vtxo_spec(spec) && wf_tx(oor_tx) && wf_outpoint(final_point)
                && fits_u64(inputs.len())
                && forall|i: int| 0 <= i < inputs.len() ==> wf_vtxo(#[trigger] inputs[i]),
        VtxoV::Bolt11Change { inputs, spec, htlc_tx, final_point } =>
            wf_vtxo_spec(spec) && wf_tx(htlc_tx) && wf_outpoint(final_point)
                && fits_u64(inputs.len())
                && forall|i: int| 0 <= i < inputs.len() ==> wf_vtxo(#[trigger] inputs[i]),
    }
}

// ---------------------------------------------------------------
// encoders
// ---------------------------------------------------------------

/// Encoding of an outpoint: txid, then the output index.
pub open spec fn enc_outpoint(p: OutPointV) -> Seq<u8> {
    p.txid + u64_le(p.vout as u64)
}

/// Encoding of an output script, with one leading tag byte.
pub open spec fn enc_spk(k: SpkV) -> Seq<u8> {
    match k {
        SpkV::Exit { user_pubkey, asp_pubkey, exit_delta } =>
            seq![0u8] + user_pubkey + asp_pubkey + u64_le(exit_delta as u64),
        SpkV::Htlc { payment_hash, user_pubkey, asp_pubkey, htlc_expiry, exit_delta } =>
            seq![1u8] + payment_hash + user_pubkey + asp_pubkey
                + u64_le(htlc_expiry as u64) + u64_le(exit_delta as u64),
        SpkV::Anchor => seq![2u8],
        SpkV::Raw { program } => seq![3u8] + u64_le(program.len() as u64) + program,
    }
}

/// Encoding of a transaction output: value, then script.
pub open spec fn enc_txout(o: TxOutV) -> Seq<u8> {
    u64_le(o.value) + enc_spk(o.spk)
}

/// Encoding of an optional key-path signature.
pub open spec fn enc_sig(s: Option<Seq<u8>>) -> Seq<u8> {
    match s {
        None => seq![0u8],
        Some(sig) => seq![1u8] + sig,
    }
}

/// Encoding of a transaction input.
pub open spec fn enc_txin(i: TxInV) -> Seq<u8> {
    enc_outpoint(i.prevout) + u64_le(i.sequence as u64) + enc_sig(i.signature)
}

/// Encoding of a transaction input without its signature; this is what
/// the transaction id covers, so that signing does not change the id.
pub open spec fn enc_txin_nw(i: TxInV) -> Seq<u8> {
    enc_outpoint(i.prevout) + u64_le(i.sequence as u64)
}

/// Concatenated encodings of a list of transaction inputs.
pub open spec fn enc_txin_items(s: Seq<TxInV>) -> Seq<u8>
    decreases s.len(),
{
    if s.len() == 0 {
        Seq::empty()
    } else {
        enc_txin(s[0]) + enc_txin_items(s.drop_first())
    }
}

/// Concatenated witness-stripped encodings of transaction inputs.
pub open spec fn enc_txin_nw_items(s: Seq<TxInV>) -> Seq<u8>
    decreases s.len(),
{
    if s.len() == 0 {
        Seq::empty()
    } else {
        enc_txin_nw(s[0]) + enc_txin_nw_items(s.drop_first())
    }
}

/// Concatenated encodings of a list of transaction outputs.
pub open spec fn enc_txout_items(s: Seq<TxOutV>) -> Seq<u8>
    decreases s.len(),
{
    if s.len() == 0 {
        Seq::empty()
    } else {
        enc_txout(s[0]) + enc_txout_items(s.drop_first())
    }
}

/// Encoding of a transaction: input count, inputs, output count,
/// outputs.
pub open spec fn enc_tx(t: TxV) -> Seq<u8> {
    u64_le(t.inputs.len() as u64) + enc_txin_items(t.inputs)
        + u64_le(t.outputs.len() as u64) + enc_txout_items(t.outputs)
}

/// The bytes a modelled transaction's id covers: the transaction's
/// canonical encoding with every input signature stripped. This is the
/// library's own form for the data it models; the id of a real,
/// consensus-serialized transaction goes through
/// `crate::crypto::consensus_txid` instead.
pub open spec fn enc_txid_payload(t: TxV) -> Seq<u8> {
    u64_le(t.inputs.len() as u64) + enc_txin_nw_items(t.inputs)
        + u64_le(t.outputs.len() as u64) + enc_txout_items(t.outputs)
}

/// The id of a modelled transaction: the double-SHA256 digest of its
/// witness-stripped canonical encoding. Like a consensus transaction
/// id, it never covers signatures; unlike one, it is defined over the
/// library's canonical form, not consensus serialization.
pub open spec fn txid_of(t: TxV) -> Seq<u8> {
    crate::crypto::sha256d_of(enc_txid_payload(t))
}

// ---------------------------------------------------------------
// decoders
// ---------------------------------------------------------------

/// Decode an outpoint from the front of a byte string.
pub open spec fn dec_outpoint(s: Seq<u8>) -> Option<(OutPointV, int)> {
    if s.len() >= 40 {
        let vout = u64_of_le(s.subrange(32, 40));
        if vout < 0x1_0000_0000 {
            Some((OutPointV { txid: s.take(32), vout: vout as u32 }, 40))
        } else {
            None
        }
    } else {
        None
    }
}

/// Decode an output script from the front of a byte string.
pub open spec fn dec_spk(s: Seq<u8>) -> Option<(SpkV, int)> {
    if s.len() < 1 {
        None
    } else if s[0] == 0 {
        if s.len() >= 73 {
            let delta = u64_of_le(s.subrange(65, 73));
            if delta < 0x1_0000 {
                Some((
                    SpkV::Exit {
                        user_pubkey: s.subrange(1, 33),
                        asp_pubkey: s.subrange(33, 65),
                        exit_delta: delta as u16,
                    },
                    73,
                ))
            } else {
                None
            }
        } else {
            None
        }
    } else if s[0] == 1 {
        if s.len() >= 113 {
            let expiry = u64_of_le(s.subrange(97, 105));
            let delta = u64_of_le(s.subrange(105, 113));
            if expiry < 0x1_0000_0000 && delta < 0x1_0000 {
                Some((
                    SpkV::Htlc {
                        payment_hash: s.subrange(1, 33),
                        user_pubkey: s.subrange(33, 65),
                        asp_pubkey: s.subrange(65, 97),
                        htlc_expiry: expiry as u32,
                        exit_delta: delta as u16,
                    },
                    113,
                ))
            } else {
                None
            }
        } else {
            None
        }
    } else if s[0] == 2 {
        Some((SpkV::Anchor, 1))
    } else if s[0] == 3 {
        if s.len() >= 9 {
            let n = u64_of_le(s.subrange(1, 9));
            if s.len() >= 9 + n {
                Some((SpkV::Raw { program: s.subrange(9, 9 + n) }, 9 + n))
            } else {
                None
            }
        } else {
            None
        }
    } else {
        None
    }
}

/// Decode a transaction output from the front of a byte string.
pub open spec fn dec_txout(s: Seq<u8>) -> Option<(TxOutV, int)> {
    if s.len() >= 8 {
        let value = u64_of_le(s.take(8));
        match dec_spk(s.skip(8)) {
            Some((spk, c)) => Some((TxOutV { value: value as u64, spk }, 8 + c)),
            None => None,
        }
    } else {
        None
    }
}

/// Decode an optional signature from the front of a byte string.
pub open spec fn dec_sig(s: Seq<u8>) -> Option<(Option<Seq<u8>>, int)> {
    if s.len() < 1 {
        None
    } else if s[0] == 0 {
        Some((None, 1))
    } else if s[0] == 1 {
        if s.len() >= 65 {
            Some((Some(s.subrange(1, 65)), 65))
        } else {
            None
        }
    } else {
        None
    }
}

/// Decode a transaction input from the front of a byte string.
pub open spec fn dec_txin(s: Seq<u8>) -> Option<(TxInV, int)> {
    match dec_outpoint(s) {
        Some((prevout, c1)) => {
            let s1 = s.skip(c1);
            if s1.len() >= 8 {
                let sequence = u64_of_le(s1.take(8));
                if sequence < 0x1_0000_0000 {
                    match dec_sig(s1.skip(8)) {
                        Some((signature, c2)) => Some((
                            TxInV { prevout, sequence: sequence as u32, signature },
                            c1 + 8 + c2,
                        )),
                        None => None,
                    }
                } else {
                    None
                }
            } else {
                None
            }
        },
        None => None,
    }
}

/// Decode a given number of transaction inputs.
pub open spec fn dec_txin_items(s: Seq<u8>, n: nat) -> Option<(Seq<TxInV>, int)>
    decreases n,
{
    if n == 0 {
        Some((Seq::empty(), 0))
    } else {
        match dec_txin(s) {
            Some((i, c)) => match dec_txin_items(s.skip(c), (n - 1) as nat) {
                Some((items, c2)) => Some((seq![i] + items, c + c2)),
                None => None,
            },
            None => None,
        }
    }
}

/// Decode a given number of transaction outputs.
pub open spec fn dec_txout_items(s: Seq<u8>, n: nat) -> Option<(Seq<TxOutV>, int)>
    decreases n,
{
    if n == 0 {
        Some((Seq::empty(), 0))
    } else {
        match dec_txout(s) {
            Some((o, c)) => match dec_txout_items(s.skip(c), (n - 1) as nat) {
                Some((items, c2)) => Some((seq![o] + items, c + c2)),
                None => None,
            },
            None => None,
        }
    }
}

/// Decode a transaction from the front of a byte string.
pub open spec fn dec_tx(s: Seq<u8>) -> Option<(TxV, int)> {
    if s.len() >= 8 {
        let n_in = u64_of_le(s.take(8));
        match dec_txin_items(s.skip(8), n_in as nat) {
            Some((inputs, c1)) => {
                let s1 = s.skip(8 + c1);
                if s1.len() >= 8 {
                    let n_out = u64_of_le(s1.take(8));
                    match dec_txout_items(s1.skip(8), n_out as nat) {
                        Some((outputs, c2)) => Some((
                            TxV { inputs, outputs },
                            8 + c1 + 8 + c2,
                        )),
                        None => None,
                    }
                } else {
                    None
                }
            },
            None => None,
        }
    } else {
        None
    }
}

// ---------------------------------------------------------------
// round-trip lemmas
// ---------------------------------------------------------------

/// Decoding the encoding of an outpoint yields the outpoint back.
pub proof fn lemma_rt_outpoint(p: OutPointV, rest: Seq<u8>)
    requires
        wf_outpoint(p),
    ensures
        dec_outpoint(enc_outpoint(p) + rest) == Some((p, enc_outpoint(p).len() as int)),
{
    let s = enc_outpoint(p) + rest;
    lemma_u64_le_roundtrip(p.vout as u64);
    assert(s.subrange(32, 40) =~= u64_le(p.vout as u64));
    assert(s.take(32) =~= p.txid);
    let (q, c) = dec_outpoint(s).unwrap();
    assert(q =~= p);
}

/// Decoding the encoding of an output script yields the script back.
pub proof fn lemma_rt_spk(k: SpkV, rest: Seq<u8>)
    requires
        wf_spk(k),
    ensures
        dec_spk(enc_spk(k) + rest) == Some((k, enc_spk(k).len() as int)),
{
    let s = enc_spk(k) + rest;
    match k {
        SpkV::Exit { user_pubkey, asp_pubkey, exit_delta } => {
            lemma_u64_le_roundtrip(exit_delta as u64);
            assert(s[0] == 0);
            assert(s.subrange(1, 33) =~= user_pubkey);
            assert(s.subrange(33, 65) =~= asp_pubkey);
            assert(s.subrange(65, 73) =~= u64_le(exit_delta as u64));
            let (q, c) = dec_spk(s).unwrap();
            assert(q =~= k);
        },
        SpkV::Htlc { payment_hash, user_pubkey, asp_pubkey, htlc_expiry, exit_delta } => {
            lemma_u64_le_roundtrip(htlc_expiry as u64);
            lemma_u64_le_roundtrip(exit_delta as u64);
            assert(s[0] == 1);
            assert(s.subrange(1, 33) =~= payment_hash);
            assert(s.subrange(33, 65) =~= user_pubkey);
            assert(s.subrange(65, 97) =~= asp_pubkey);
            assert(s.subrange(97, 105) =~= u64_le(htlc_expiry as u64));
            assert(s.subrange(105, 113) =~= u64_le(exit_delta as u64));
            let (q, c) = dec_spk(s).unwrap();
            assert(q =~= k);
        },
        SpkV::Anchor => {
            assert(s[0] == 2);
        },
        SpkV::Raw { program } => {
            lemma_u64_le_roundtrip(program.len() as u64);
            assert(s[0] == 3);
            assert(s.subrange(1, 9) =~= u64_le(program.len() as u64));
            assert(s.len() >= 9 + program.len());
            assert(s.subrange(9, 9 + program.len() as int) =~= program);
            let (q, c) = dec_spk(s).unwrap();
            assert(q =~= k);
        },
    }
}

/// Decoding the encoding of a transaction output yields it back.
pub proof fn lemma_rt_txout(o: TxOutV, rest: Seq<u8>)
    requires
        wf_txout(o),
    ensures
        dec_txout(enc_txout(o) + rest) == Some((o, enc_txout(o).len() as int)),
{
    let s = enc_txout(o) + rest;
    lemma_u64_le_roundtrip(o.value);
    assert(s.take(8) =~= u64_le(o.value));
    assert(s.skip(8) =~= enc_spk(o.spk) + rest);
    lemma_rt_spk(o.spk, rest);
    let (q, c) = dec_txout(s).unwrap();
    assert(q =~= o);
}

/// Decoding the encoding of an optional signature yields it back.
pub proof fn lemma_rt_sig(sig: Option<Seq<u8>>, rest: Seq<u8>)
    requires
        sig is Some ==> sig.unwrap().len() == 64,
    ensures
        dec_sig(enc_sig(sig) + rest) == Some((sig, enc_sig(sig).len() as int)),
{
    let s = enc_sig(sig) + rest;
    match sig {
        None => {
            assert(s[0] == 0);
        },
        Some(bytes) => {
            assert(s[0] == 1);
            assert(s.subrange(1, 65) =~= bytes);
        },
    }
}

/// Decoding the encoding of a transaction input yields it back.
pub proof fn lemma_rt_txin(i: TxInV, rest: Seq<u8>)
    requires
        wf_txin(i),
    ensures
        dec_txin(enc_txin(i) + rest) == Some((i, enc_txin(i).len() as int)),
{
    let s = enc_txin(i) + rest;
    let tail1 = u64_le(i.sequence as u64) + enc_sig(i.signature) + rest;
    assert(s =~= enc_outpoint(i.prevout) + tail1);
    lemma_rt_outpoint(i.prevout, tail1);
    let c1 = enc_outpoint(i.prevout).len() as int;
    let s1 = s.skip(c1);
    assert(s1 =~= tail1);
    lemma_u64_le_roundtrip(i.sequence as u64);
    assert(s1.take(8) =~= u64_le(i.sequence as u64));
    assert(s1.skip(8) =~= enc_sig(i.signature) + rest);
    lemma_rt_sig(i.signature, rest);
    let (q, c) = dec_txin(s).unwrap();
    assert(q =~= i);
}

/// Decoding the concatenated encodings of transaction inputs yields
/// them back.
pub proof fn lemma_rt_txin_items(items: Seq<TxInV>, rest: Seq<u8>)
    requires
        forall|j: int| 0 <= j < items.len() ==> wf_txin(#[trigger] items[j]),
    ensures
        dec_txin_items(enc_txin_items(items) + rest, items.len())
            == Some((items, enc_txin_items(items).len() as int)),
    decreases items.len(),
{
    let s = enc_txin_items(items) + rest;
    if items.len() == 0 {
        assert(dec_txin_items(s, 0) == Some((Seq::<TxInV>::empty(), 0int)));
        assert(items =~= Seq::<TxInV>::empty());
    } else {
        let tail = enc_txin_items(items.drop_first()) + rest;
        assert(s =~= enc_txin(items[0]) + tail);
        lemma_rt_txin(items[0], tail);
        let c1 = enc_txin(items[0]).len() as int;
        assert(s.skip(c1) =~= tail);
        lemma_rt_txin_items(items.drop_first(), rest);
        let (got, c) = dec_txin_items(s, items.len()).unwrap();
        assert(got =~= items);
    }
}

/// Decoding the concatenated encodings of transaction outputs yields
/// them back.
pub proof fn lemma_rt_txout_items(items: Seq<TxOutV>, rest: Seq<u8>)
    requires
        forall|j: int| 0 <= j < items.len() ==> wf_txout(#[trigger] items[j]),
    ensures
        dec_txout_items(enc_txout_items(items) + rest, items.len())
            == Some((items, enc_txout_items(items).len() as int)),
    decreases items.len(),
{
    let s = enc_txout_items(items) + rest;
    if items.len() == 0 {
        assert(dec_txout_items(s, 0) == Some((Seq::<TxOutV>::empty(), 0int)));
        assert(items =~= Seq::<TxOutV>::empty());
    } else {
        let tail = enc_txout_items(items.drop_first()) + rest;
        assert(s =~= enc_txout(items[0]) + tail);
        lemma_rt_txout(items[0], tail);
        let c1 = enc_txout(items[0]).len() as int;
        assert(s.skip(c1) =~= tail);
        lemma_rt_txout_items(items.drop_first(), rest);
        let (got, c) = dec_txout_items(s, items.len()).unwrap();
        assert(got =~= items);
    }
}

/// A byte string that starts with the little-endian bytes of an
/// integer decodes that integer at its front.
pub proof fn lemma_read_count(s: Seq<u8>, n: u64, rest: Seq<u8>)
    requires
        s == u64_le(n) + rest,
    ensures
        s.len() == 8 + rest.len(),
        u64_of_le(s.take(8)) == n,
        s.skip(8) == rest,
{
    lemma_u64_le_roundtrip(n);
    assert(s.take(8) =~= u64_le(n));
    assert(s.skip(8) =~= rest);
}

/// Decoding the encoding of a transaction yields it back.
#[verifier::rlimit(50)]
pub proof fn lemma_rt_tx(t: TxV, rest: Seq<u8>)
    requires
        wf_tx(t),
    ensures
        dec_tx(enc_tx(t) + rest) == Some((t, enc_tx(t).len() as int)),
{
    let s = enc_tx(t) + rest;
    let tail2 = u64_le(t.outputs.len() as u64) + enc_txout_items(t.outputs) + rest;
    let tail1 = enc_txin_items(t.inputs) + tail2;
    assert(s =~= u64_le(t.inputs.len() as u64) + tail1);
    lemma_read_count(s, t.inputs.len() as u64, tail1);
    lemma_rt_txin_items(t.inputs, tail2);
    let c1 = enc_txin_items(t.inputs).len() as int;
    assert(dec_txin_items(s.skip(8), t.inputs.len()) == Some((t.inputs, c1)));
    let s1 = s.skip(8 + c1);
    assert(s1 =~= u64_le(t.outputs.len() as u64) + (enc_txout_items(t.outputs) + rest));
    lemma_read_count(s1, t.outputs.len() as u64, enc_txout_items(t.outputs) + rest);
    lemma_rt_txout_items(t.outputs, rest);
    let c2 = enc_txout_items(t.outputs).len() as int;
    assert(dec_txout_items(s1.skip(8), t.outputs.len()) == Some((t.outputs, c2)));
    let (q, c) = dec_tx(s).unwrap();
    assert(q =~= t);
    assert(c == enc_tx(t).len());
}

// ---------------------------------------------------------------
// VTXO encoding
// ---------------------------------------------------------------

/// Encoding of a VTXO specification: the two keys, expiry height, exit
/// delta and amount.
pub open spec fn enc_vtxo_spec(sp: VtxoSpecV) -> Seq<u8> {
    sp.user_pubkey + sp.asp_pubkey + u64_le(sp.expiry_height as u64)
        + u64_le(sp.exit_delta as u64) + u64_le(sp.amount)
}

/// Decode a VTXO specification from the front of a byte string.
pub open spec fn dec_vtxo_spec(s: Seq<u8>) -> Option<(VtxoSpecV, int)> {
    if s.len() >= 88 {
        let expiry = u64_of_le(s.subrange(64, 72));
        let delta = u64_of_le(s.subrange(72, 80));
        let amount = u64_of_le(s.subrange(80, 88));
        if expiry < 0x1_0000_0000 && delta < 0x1_0000 {
            Some((
                VtxoSpecV {
                    user_pubkey: s.subrange(0, 32),
                    asp_pubkey: s.subrange(32, 64),
                    expiry_height: expiry as u32,
                    exit_delta: delta as u16,
                    amount: amount as u64,
                },
                88,
            ))
        } else {
            None
        }
    } else {
        None
    }
}

/// Decoding the encoding of a VTXO specification yields it back.
pub proof fn lemma_rt_vtxo_spec(sp: VtxoSpecV, rest: Seq<u8>)
    requires
        wf_vtxo_spec(sp),
    ensures
        dec_vtxo_spec(enc_vtxo_spec(sp) + rest) == Some((sp, enc_vtxo_spec(sp).len() as int)),
        enc_vtxo_spec(sp).len() == 88,
{
    let s = enc_vtxo_spec(sp) + rest;
    lemma_u64_le_roundtrip(sp.expiry_height as u64);
    lemma_u64_le_roundtrip(sp.exit_delta as u64);
    lemma_u64_le_roundtrip(sp.amount);
    assert(s.subrange(0, 32) =~= sp.user_pubkey);
    assert(s.subrange(32, 64) =~= sp.asp_pubkey);
    assert(s.subrange(64, 72) =~= u64_le(sp.expiry_height as u64));
    assert(s.subrange(72, 80) =~= u64_le(sp.exit_delta as u64));
    assert(s.subrange(80, 88) =~= u64_le(sp.amount));
    let (q, c) = dec_vtxo_spec(s).unwrap();
    assert(q =~= sp);
}

/// Concatenated encodings of a list of transactions.
pub open spec fn enc_tx_items(s: Seq<TxV>) -> Seq<u8>
    decreases s.len(),
{
    if s.len() == 0 {
        Seq::empty()
    } else {
        enc_tx(s[0]) + enc_tx_items(s.drop_first())
    }
}

/// Decode a given number of transactions.
pub open spec fn dec_tx_items(s: Seq<u8>, n: nat) -> Option<(Seq<TxV>, int)>
    decreases n,
{
    if n == 0 {
        Some((Seq::empty(), 0))
    } else {
        match dec_tx(s) {
            Some((t, c)) => match dec_tx_items(s.skip(c), (n - 1) as nat) {
                Some((items, c2)) => Some((seq![t] + items, c + c2)),
                None => None,
            },
            None => None,
        }
    }
}

/// Decoding the concatenated encodings of transactions yields them
/// back.
pub proof fn lemma_rt_tx_items(items: Seq<TxV>, rest: Seq<u8>)
    requires
        forall|j: int| 0 <= j < items.len() ==> wf_tx(#[trigger] items[j]),
    ensures
        dec_tx_items(enc_tx_items(items) + rest, items.len())
            == Some((items, enc_tx_items(items).len() as int)),
    decreases items.len(),
{
    let s = enc_tx_items(items) + rest;
    if items.len() == 0 {
        assert(dec_tx_items(s, 0) == Some((Seq::<TxV>::empty(), 0int)));
        assert(items =~= Seq::<TxV>::empty());
    } else {
        let tail = enc_tx_items(items.drop_first()) + rest;
        assert(s =~= enc_tx(items[0]) + tail);
        lemma_rt_tx(items[0], tail);
        let c1 = enc_tx(items[0]).len() as int;
        assert(s.skip(c1) =~= tail);
        lemma_rt_tx_items(items.drop_first(), rest);
        let (got, c) = dec_tx_items(s, items.len()).unwrap();
        assert(got =~= items);
    }
}

/// Encoding of a VTXO, with one leading tag byte per variant.
pub open spec fn enc_vtxo(v: VtxoV) -> Seq<u8>
    decreases v,
{
    match v {
        VtxoV::Board { spec, onchain_output, exit_tx } =>
            seq![0u8] + enc_vtxo_spec(spec) + enc_outpoint(onchain_output) + enc_tx(exit_tx),
        VtxoV::Round { spec, leaf_idx, exit_branch } =>
            seq![1u8] + enc_vtxo_spec(spec) + u64_le(leaf_idx as u64)
                + u64_le(exit_branch.len() as u64) + enc_tx_items(exit_branch),
        VtxoV::Arkoor { inputs, spec, oor_tx, final_point } =>
            seq![2u8] + u64_le(inputs.len() as u64) + enc_vtxo_items(inputs)
                + enc_vtxo_spec(spec) + enc_tx(oor_tx) + enc_outpoint(final_point),
        VtxoV::Bolt11Change { inputs, spec, htlc_tx, final_point } =>
            seq![3u8] + u64_le(inputs.len() as u64) + enc_vtxo_items(inputs)
                + enc_vtxo_spec(spec) + enc_tx(htlc_tx) + enc_outpoint(final_point),
    }
}

/// Concatenated encodings of a list of VTXOs.
pub open spec fn enc_vtxo_items(s: Seq<VtxoV>) -> Seq<u8>
    decreases s,
{
    if s.len() == 0 {
        Seq::empty()
    } else {
        enc_vtxo(s[0]) + enc_vtxo_items(s.drop_first())
    }
}

/// Decode a VTXO from the front of a byte string.
pub open spec fn dec_vtxo(s: Seq<u8>) -> Option<(VtxoV, int)>
    decreases s.len(), 0int,
{
    if s.len() < 1 {
        None
    } else if s[0] == 0 {
        match dec_vtxo_spec(s.skip(1)) {
            Some((spec, c1)) => match dec_outpoint(s.skip(1 + c1)) {
                Some((onchain_output, c2)) => match dec_tx(s.skip(1 + c1 + c2)) {
                    Some((exit_tx, c3)) => Some((
                        VtxoV::Board { spec, onchain_output, exit_tx },
                        1 + c1 + c2 + c3,
                    )),
                    None => None,
                },
                None => None,
            },
            None => None,
        }
    } else if s[0] == 1 {
        match dec_vtxo_spec(s.skip(1)) {
            Some((spec, c1)) => {
                let s1 = s.skip(1 + c1);
                if s1.len() >= 16 {
                    let leaf_idx = u64_of_le(s1.take(8));
                    let n = u64_of_le(s1.subrange(8, 16));
                    if leaf_idx < 0x1_0000_0000 {
                        match dec_tx_items(s1.skip(16), n as nat) {
                            Some((exit_branch, c2)) => Some((
                                VtxoV::Round {
                                    spec,
                                    leaf_idx: leaf_idx as u32,
                                    exit_branch,
                                },
                                1 + c1 + 16 + c2,
                            )),
                            None => None,
                        }
                    } else {
                        None
                    }
                } else {
                    None
                }
            },
            None => None,
        }
    } else if s[0] == 2 || s[0] == 3 {
        if s.len() >= 9 {
            let n = u64_of_le(s.subrange(1, 9));
            match dec_vtxo_items(s.skip(9), n as nat) {
                Some((inputs, c1)) => match dec_vtxo_spec(s.skip(9 + c1)) {
                    Some((spec, c2)) => match dec_tx(s.skip(9 + c1 + c2)) {
                        Some((tx, c3)) => match dec_outpoint(s.skip(9 + c1 + c2 + c3)) {
                            Some((final_point, c4)) => Some((
                                if s[0] == 2 {
                                    VtxoV::Arkoor { inputs, spec, oor_tx: tx, final_point }
                                } else {
                                    VtxoV::Bolt11Change { inputs, spec, htlc_tx: tx, final_point }
                                },
                                9 + c1 + c2 + c3 + c4,
                            )),
                            None => None,
                        },
                        None => None,
                    },
                    None => None,
                },
                None => None,
            }
        } else {
            None
        }
    } else {
        None
    }
}

/// Decode a given number of VTXOs.
pub open spec fn dec_vtxo_items(s: Seq<u8>, n: nat) -> Option<(Seq<VtxoV>, int)>
    decreases s.len(), n,
{
    if n == 0 {
        Some((Seq::empty(), 0))
    } else {
        match dec_vtxo(s) {
            Some((v, c)) => {
                if 1 <= c <= s.len() {
                    match dec_vtxo_items(s.skip(c), (n - 1) as nat) {
                        Some((items, c2)) => Some((seq![v] + items, c + c2)),
                        None => None,
                    }
                } else {
                    None
                }
            },
            None => None,
        }
    }
}

/// Decoding the encoding of a VTXO yields it back.
#[verifier::rlimit(80)]
pub proof fn lemma_rt_vtxo(v: VtxoV, rest: Seq<u8>)
    requires
        wf_vtxo(v),
    ensures
        dec_vtxo(enc_vtxo(v) + rest) == Some((v, enc_vtxo(v).len() as int)),
        1 <= enc_vtxo(v).len(),
    decreases v, 2int,
{
    let s = enc_vtxo(v) + rest;
    match v {
        VtxoV::Board { spec, onchain_output, exit_tx } => {
            let tail3 = enc_tx(exit_tx) + rest;
            let tail2 = enc_outpoint(onchain_output) + tail3;
            let tail1 = enc_vtxo_spec(spec) + tail2;
            assert(s =~= seq![0u8] + tail1);
            assert(s[0] == 0);
            assert(s.skip(1) =~= tail1);
            lemma_rt_vtxo_spec(spec, tail2);
            let c1 = enc_vtxo_spec(spec).len() as int;
            assert(s.skip(1 + c1) =~= tail2);
            lemma_rt_outpoint(onchain_output, tail3);
            let c2 = enc_outpoint(onchain_output).len() as int;
            assert(s.skip(1 + c1 + c2) =~= tail3);
            lemma_rt_tx(exit_tx, rest);
            let (q, c) = dec_vtxo(s).unwrap();
            assert(q =~= v);
            assert(c == enc_vtxo(v).len());
        },
        VtxoV::Round { spec, leaf_idx, exit_branch } => {
            let tail3 = enc_tx_items(exit_branch) + rest;
            let tail2 = u64_le(leaf_idx as u64) + (u64_le(exit_branch.len() as u64) + tail3);
            let tail1 = enc_vtxo_spec(spec) + tail2;
            assert(s =~= seq![1u8] + tail1);
            assert(s[0] == 1);
            assert(s.skip(1) =~= tail1);
            lemma_rt_vtxo_spec(spec, tail2);
            let c1 = enc_vtxo_spec(spec).len() as int;
            let s1 = s.skip(1 + c1);
            assert(s1 =~= tail2);
            lemma_u64_le_roundtrip(leaf_idx as u64);
            lemma_u64_le_roundtrip(exit_branch.len() as u64);
            assert(s1.take(8) =~= u64_le(leaf_idx as u64));
            assert(s1.subrange(8, 16) =~= u64_le(exit_branch.len() as u64));
            assert(s1.skip(16) =~= tail3);
            lemma_rt_tx_items(exit_branch, rest);
            let (q, c) = dec_vtxo(s).unwrap();
            assert(q =~= v);
            assert(c == enc_vtxo(v).len());
        },
        VtxoV::Arkoor { inputs, spec, oor_tx, final_point } => {
            lemma_rt_vtxo_like(2u8, inputs, spec, oor_tx, final_point, rest);
            let tail4 = enc_outpoint(final_point) + rest;
            let tail3 = enc_tx(oor_tx) + tail4;
            let tail2 = enc_vtxo_spec(spec) + tail3;
            let tail1 = enc_vtxo_items(inputs) + tail2;
            assert(s =~= seq![2u8] + (u64_le(inputs.len() as u64) + tail1));
        },
        VtxoV::Bolt11Change { inputs, spec, htlc_tx, final_point } => {
            lemma_rt_vtxo_like(3u8, inputs, spec, htlc_tx, final_point, rest);
            let tail4 = enc_outpoint(final_point) + rest;
            let tail3 = enc_tx(htlc_tx) + tail4;
            let tail2 = enc_vtxo_spec(spec) + tail3;
            let tail1 = enc_vtxo_items(inputs) + tail2;
            assert(s =~= seq![3u8] + (u64_le(inputs.len() as u64) + tail1));
        },
    }
}

/// Decoding the shared layout of the two ancestor-carrying variants
/// yields the variant back.
#[verifier::rlimit(80)]
proof fn lemma_rt_vtxo_like(
    tag: u8,
    inputs: Seq<VtxoV>,
    spec: VtxoSpecV,
    tx: TxV,
    final_point: OutPointV,
    rest: Seq<u8>,
)
    requires
        tag == 2 || tag == 3,
        wf_vtxo_spec(spec),
        wf_tx(tx),
        wf_outpoint(final_point),
        fits_u64(inputs.len()),
        forall|i: int| 0 <= i < inputs.len() ==> wf_vtxo(#[trigger] inputs[i]),
    ensures
        ({
            let v = if tag == 2 {
                VtxoV::Arkoor { inputs, spec, oor_tx: tx, final_point }
            } else {
                VtxoV::Bolt11Change { inputs, spec, htlc_tx: tx, final_point }
            };
            dec_vtxo(enc_vtxo(v) + rest) == Some((v, enc_vtxo(v).len() as int))
        }),
    decreases inputs, 1int,
{
    let v = if tag == 2 {
        VtxoV::Arkoor { inputs, spec, oor_tx: tx, final_point }
    } else {
        VtxoV::Bolt11Change { inputs, spec, htlc_tx: tx, final_point }
    };
    let s = enc_vtxo(v) + rest;
    let tail4 = enc_outpoint(final_point) + rest;
    let tail3 = enc_tx(tx) + tail4;
    let tail2 = enc_vtxo_spec(spec) + tail3;
    let tail1 = enc_vtxo_items(inputs) + tail2;
    assert(s =~= seq![tag] + (u64_le(inputs.len() as u64) + tail1));
    assert(s[0] == tag);
    assert(s.skip(1) =~= u64_le(inputs.len() as u64) + tail1);
    lemma_read_count(s.skip(1), inputs.len() as u64, tail1);
    assert(s.subrange(1, 9) =~= s.skip(1).take(8));
    assert(s.skip(9) =~= tail1);
    lemma_rt_vtxo_items(inputs, tail2);
    let c1 = enc_vtxo_items(inputs).len() as int;
    assert(s.skip(9 + c1) =~= tail2);
    lemma_rt_vtxo_spec(spec, tail3);
    let c2 = enc_vtxo_spec(spec).len() as int;
    assert(s.skip(9 + c1 + c2) =~= tail3);
    lemma_rt_tx(tx, tail4);
    let c3 = enc_tx(tx).len() as int;
    assert(s.skip(9 + c1 + c2 + c3) =~= tail4);
    lemma_rt_outpoint(final_point, rest);
    let (q, c) = dec_vtxo(s).unwrap();
    assert(q =~= v);
    assert(c == enc_vtxo(v).len());
}

/// Decoding the concatenated encodings of VTXOs yields them back.
#[verifier::rlimit(80)]
pub proof fn lemma_rt_vtxo_items(items: Seq<VtxoV>, rest: Seq<u8>)
    requires
        forall|j: int| 0 <= j < items.len() ==> wf_vtxo(#[trigger] items[j]),
    ensures
        dec_vtxo_items(enc_vtxo_items(items) + rest, items.len())
            == Some((items, enc_vtxo_items(items).len() as int)),
    decreases items, 0int,
{
    let s = enc_vtxo_items(items) + rest;
    if items.len() == 0 {
        assert(dec_vtxo_items(s, 0) == Some((Seq::<VtxoV>::empty(), 0int)));
        assert(items =~= Seq::<VtxoV>::empty());
    } else {
        let tail = enc_vtxo_items(items.drop_first()) + rest;
        assert(s =~= enc_vtxo(items[0]) + tail);
        lemma_rt_vtxo(items[0], tail);
        let c1 = enc_vtxo(items[0]).len() as int;
        assert(s.skip(c1) =~= tail);
        lemma_rt_vtxo_items(items.drop_first(), rest);
        let (got, c) = dec_vtxo_items(s, items.len()).unwrap();
        assert(got =~= items);
    }
}

} // verus!
