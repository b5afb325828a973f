//! Executable encoding and decoding of the protocol's data, against the
//! canonical byte format of the codec module, and the derived notions of
//! transaction id and VTXO id.

use vstd::prelude::*;
use crate::bytes::{push_u64, push_bytes, read_u64, read_bytes};
use crate::bytes::read_vec;
use crate::codec::{
    enc_outpoint, enc_spk, enc_txout, enc_sig, enc_txin, enc_txin_nw, enc_txin_items,
    enc_txin_nw_items, enc_txout_items, enc_tx, enc_txid_payload, enc_tx_items,
    enc_vtxo_spec, enc_vtxo, enc_vtxo_items, txid_of,
    dec_outpoint, dec_spk, dec_txout, dec_sig, dec_txin, dec_txin_items, dec_txout_items,
    dec_tx, dec_tx_items, dec_vtxo_spec, dec_vtxo, dec_vtxo_items,
};
use crate::vtxo::{OutPoint, Spk, TxOut, TxIn, Tx, VtxoSpec, Vtxo, VtxoId, TxInV, TxOutV, TxV, VtxoV, vtxo_views, lemma_vtxo_views};

verus! {

broadcast use crate::bytes::lemma_u64_le_len;

// ---------------------------------------------------------------
// concatenation laws of the list encoders
// ---------------------------------------------------------------

/// Appending one input to a list appends its encoding.
pub proof fn lemma_enc_txin_items_push(s: Seq<TxInV>, x: TxInV)
    ensures
        enc_txin_items(s.push(x)) == enc_txin_items(s) + enc_txin(x),
    decreases s.len(),
{
    if s.len() == 0 {
        assert(s.push(x)[0] == x);
        assert(s.push(x).drop_first() =~= s);
        assert(enc_txin_items(s.push(x)) =~= enc_txin_items(s) + enc_txin(x));
    } else {
        assert(s.push(x).drop_first() =~= s.drop_first().push(x));
        lemma_enc_txin_items_push(s.drop_first(), x);
        assert(enc_txin_items(s.push(x)) =~= enc_txin_items(s) + enc_txin(x));
    }
}

/// Appending one input to a list appends its witness-stripped encoding.
pub proof fn lemma_enc_txin_nw_items_push(s: Seq<TxInV>, x: TxInV)
    ensures
        enc_txin_nw_items(s.push(x)) == enc_txin_nw_items(s) + enc_txin_nw(x),
    decreases s.len(),
{
    if s.len() == 0 {
        assert(s.push(x)[0] == x);
        assert(s.push(x).drop_first() =~= s);
        assert(enc_txin_nw_items(s.push(x)) =~= enc_txin_nw_items(s) + enc_txin_nw(x));
    } else {
        assert(s.push(x).drop_first() =~= s.drop_first().push(x));
        lemma_enc_txin_nw_items_push(s.drop_first(), x);
        assert(enc_txin_nw_items(s.push(x)) =~= enc_txin_nw_items(s) + enc_txin_nw(x));
    }
}

/// Appending one output to a list appends its encoding.
pub proof fn lemma_enc_txout_items_push(s: Seq<TxOutV>, x: TxOutV)
    ensures
        enc_txout_items(s.push(x)) == enc_txout_items(s) + enc_txout(x),
    decreases s.len(),
{
    if s.len() == 0 {
        assert(s.push(x)[0] == x);
        assert(s.push(x).drop_first() =~= s);
        assert(enc_txout_items(s.push(x)) =~= enc_txout_items(s) + enc_txout(x));
    } else {
        assert(s.push(x).drop_first() =~= s.drop_first().push(x));
        lemma_enc_txout_items_push(s.drop_first(), x);
        assert(enc_txout_items(s.push(x)) =~= enc_txout_items(s) + enc_txout(x));
    }
}

/// Appending one transaction to a list appends its encoding.
pub proof fn lemma_enc_tx_items_push(s: Seq<TxV>, x: TxV)
    ensures
        enc_tx_items(s.push(x)) == enc_tx_items(s) + enc_tx(x),
    decreases s.len(),
{
    if s.len() == 0 {
        assert(s.push(x)[0] == x);
        assert(s.push(x).drop_first() =~= s);
        assert(enc_tx_items(s.push(x)) =~= enc_tx_items(s) + enc_tx(x));
    } else {
        assert(s.push(x).drop_first() =~= s.drop_first().push(x));
        lemma_enc_tx_items_push(s.drop_first(), x);
        assert(enc_tx_items(s.push(x)) =~= enc_tx_items(s) + enc_tx(x));
    }
}

/// Appending one VTXO to a list appends its encoding.
pub proof fn lemma_enc_vtxo_items_push(s: Seq<VtxoV>, x: VtxoV)
    ensures
        enc_vtxo_items(s.push(x)) == enc_vtxo_items(s) + enc_vtxo(x),
    decreases s.len(),
{
    if s.len() == 0 {
        assert(s.push(x)[0] == x);
        assert(s.push(x).drop_first() =~= s);
        assert(enc_vtxo_items(s.push(x)) =~= enc_vtxo_items(s) + enc_vtxo(x));
    } else {
        assert(s.push(x).drop_first() =~= s.drop_first().push(x));
        lemma_enc_vtxo_items_push(s.drop_first(), x);
        assert(enc_vtxo_items(s.push(x)) =~= enc_vtxo_items(s) + enc_vtxo(x));
    }
}

// ---------------------------------------------------------------
// encoders
// ---------------------------------------------------------------

/// Append the encoding of an outpoint.
pub fn encode_outpoint(out: &mut Vec<u8>, p: &OutPoint)
    ensures
        final(out)@ == old(out)@ + enc_outpoint(p@),
{
    push_bytes(out, &p.txid);
    push_u64(out, p.vout as u64);
    assert(out@ =~= old(out)@ + enc_outpoint(p@));
}

/// Append the encoding of an output script.
pub fn encode_spk(out: &mut Vec<u8>, k: &Spk)
    ensures
        final(out)@ == old(out)@ + enc_spk(k@),
{
    match k {
        Spk::Exit { user_pubkey, asp_pubkey, exit_delta } => {
            out.push(0u8);
            push_bytes(out, user_pubkey);
            push_bytes(out, asp_pubkey);
            push_u64(out, *exit_delta as u64);
            assert(out@ =~= old(out)@ + enc_spk(k@));
        },
        Spk::Htlc { payment_hash, user_pubkey, asp_pubkey, htlc_expiry, exit_delta } => {
            out.push(1u8);
            push_bytes(out, payment_hash);
            push_bytes(out, user_pubkey);
            push_bytes(out, asp_pubkey);
            push_u64(out, *htlc_expiry as u64);
            push_u64(out, *exit_delta as u64);
            assert(out@ =~= old(out)@ + enc_spk(k@));
        },
        Spk::Anchor => {
            out.push(2u8);
            assert(out@ =~= old(out)@ + enc_spk(k@));
        },
        Spk::Raw { program } => {
            out.push(3u8);
            push_u64(out, program.len() as u64);
            let mut i: usize = 0;
            let ghost mid = out@;
            while i < program.len()
                invariant
                    0 <= i <= program@.len(),
                    out@ == mid + program@.take(i as int),
                decreases program@.len() - i,
            {
                out.push(program[i]);
                assert(out@ =~= mid + program@.take(i as int + 1));
                i += 1;
            }
            assert(program@.take(program@.len() as int) =~= program@);
            assert(out@ =~= old(out)@ + enc_spk(k@));
        },
    }
}

/// Append the encoding of a transaction output.
pub fn encode_txout(out: &mut Vec<u8>, o: &TxOut)
    ensures
        final(out)@ == old(out)@ + enc_txout(o@),
{
    push_u64(out, o.value);
    encode_spk(out, &o.spk);
    assert(out@ =~= old(out)@ + enc_txout(o@));
}

/// Append the encoding of a transaction input, with its signature.
pub fn encode_txin(out: &mut Vec<u8>, i: &TxIn)
    ensures
        final(out)@ == old(out)@ + enc_txin(i@),
{
    encode_outpoint(out, &i.prevout);
    push_u64(out, i.sequence as u64);
    match &i.signature {
        None => {
            out.push(0u8);
        },
        Some(sig) => {
            out.push(1u8);
            push_bytes(out, sig);
        },
    }
    assert(out@ =~= old(out)@ + enc_txin(i@));
}

/// Append the witness-stripped encoding of a transaction input.
pub fn encode_txin_nw(out: &mut Vec<u8>, i: &TxIn)
    ensures
        final(out)@ == old(out)@ + enc_txin_nw(i@),
{
    encode_outpoint(out, &i.prevout);
    push_u64(out, i.sequence as u64);
    assert(out@ =~= old(out)@ + enc_txin_nw(i@));
}

/// Append the encoding of a transaction.
pub fn encode_tx(out: &mut Vec<u8>, t: &Tx)
    ensures
        final(out)@ == old(out)@ + enc_tx(t@),
{
    let ghost tv = t@;
    push_u64(out, t.inputs.len() as u64);
    let mut i: usize = 0;
    let ghost mid1 = out@;
    while i < t.inputs.len()
        invariant
            0 <= i <= t.inputs@.len(),
            tv == t@,
            tv.inputs == t.inputs@.map_values(|x: TxIn| x@),
            out@ == mid1 + enc_txin_items(tv.inputs.take(i as int)),
        decreases t.inputs@.len() - i,
    {
        let ghost pre = tv.inputs.take(i as int);
        encode_txin(out, &t.inputs[i]);
        proof {
            assert(tv.inputs[i as int] == t.inputs@[i as int]@);
            assert(tv.inputs.take(i as int + 1) =~= pre.push(tv.inputs[i as int]));
            lemma_enc_txin_items_push(pre, tv.inputs[i as int]);
        }
        i += 1;
    }
    proof {
        assert(tv.inputs.take(tv.inputs.len() as int) =~= tv.inputs);
    }
    push_u64(out, t.outputs.len() as u64);
    let mut j: usize = 0;
    let ghost mid2 = out@;
    while j < t.outputs.len()
        invariant
            0 <= j <= t.outputs@.len(),
            tv == t@,
            tv.outputs == t.outputs@.map_values(|x: TxOut| x@),
            out@ == mid2 + enc_txout_items(tv.outputs.take(j as int)),
        decreases t.outputs@.len() - j,
    {
        let ghost pre = tv.outputs.take(j as int);
        encode_txout(out, &t.outputs[j]);
        proof {
            assert(tv.outputs[j as int] == t.outputs@[j as int]@);
            assert(tv.outputs.take(j as int + 1) =~= pre.push(tv.outputs[j as int]));
            lemma_enc_txout_items_push(pre, tv.outputs[j as int]);
        }
        j += 1;
    }
    proof {
        assert(tv.outputs.take(tv.outputs.len() as int) =~= tv.outputs);
        assert(tv.inputs.len() == t.inputs@.len());
        assert(tv.outputs.len() == t.outputs@.len());
        assert(out@ =~= old(out)@ + enc_tx(tv));
    }
}

/// Append the witness-stripped encoding of a transaction: the bytes its
/// id covers.
pub fn encode_txid_payload(out: &mut Vec<u8>, t: &Tx)
    ensures
        final(out)@ == old(out)@ + enc_txid_payload(t@),
{
    let ghost tv = t@;
    push_u64(out, t.inputs.len() as u64);
    let mut i: usize = 0;
    let ghost mid1 = out@;
    while i < t.inputs.len()
        invariant
            0 <= i <= t.inputs@.len(),
            tv == t@,
            tv.inputs == t.inputs@.map_values(|x: TxIn| x@),
            out@ == mid1 + enc_txin_nw_items(tv.inputs.take(i as int)),
        decreases t.inputs@.len() - i,
    {
        let ghost pre = tv.inputs.take(i as int);
        encode_txin_nw(out, &t.inputs[i]);
        proof {
            assert(tv.inputs[i as int] == t.inputs@[i as int]@);
            assert(tv.inputs.take(i as int + 1) =~= pre.push(tv.inputs[i as int]));
            lemma_enc_txin_nw_items_push(pre, tv.inputs[i as int]);
        }
        i += 1;
    }
    proof {
        assert(tv.inputs.take(tv.inputs.len() as int) =~= tv.inputs);
    }
    push_u64(out, t.outputs.len() as u64);
    let mut j: usize = 0;
    let ghost mid2 = out@;
    while j < t.outputs.len()
        invariant
            0 <= j <= t.outputs@.len(),
            tv == t@,
            tv.outputs == t.outputs@.map_values(|x: TxOut| x@),
            out@ == mid2 + enc_txout_items(tv.outputs.take(j as int)),
        decreases t.outputs@.len() - j,
    {
        let ghost pre = tv.outputs.take(j as int);
        encode_txout(out, &t.outputs[j]);
        proof {
            assert(tv.outputs[j as int] == t.outputs@[j as int]@);
            assert(tv.outputs.take(j as int + 1) =~= pre.push(tv.outputs[j as int]));
            lemma_enc_txout_items_push(pre, tv.outputs[j as int]);
        }
        j += 1;
    }
    proof {
        assert(tv.outputs.take(tv.outputs.len() as int) =~= tv.outputs);
        assert(tv.inputs.len() == t.inputs@.len());
        assert(tv.outputs.len() == t.outputs@.len());
        assert(out@ =~= old(out)@ + enc_txid_payload(tv));
    }
}

/// Append the encoding of a VTXO specification.
pub fn encode_vtxo_spec(out: &mut Vec<u8>, sp: &VtxoSpec)
    ensures
        final(out)@ == old(out)@ + enc_vtxo_spec(sp@),
{
    push_bytes(out, &sp.user_pubkey);
    push_bytes(out, &sp.asp_pubkey);
    push_u64(out, sp.expiry_height as u64);
    push_u64(out, sp.exit_delta as u64);
    push_u64(out, sp.amount);
    assert(out@ =~= old(out)@ + enc_vtxo_spec(sp@));
}

/// Append the encoding of a VTXO.
pub fn encode_vtxo(out: &mut Vec<u8>, v: &Vtxo)
    ensures
        final(out)@ == old(out)@ + enc_vtxo(v@),
    decreases *v, 1int,
{
    match v {
        Vtxo::Board { spec, onchain_output, exit_tx } => {
            out.push(0u8);
            encode_vtxo_spec(out, spec);
            encode_outpoint(out, onchain_output);
            encode_tx(out, exit_tx);
            assert(out@ =~= old(out)@ + enc_vtxo(v@));
        },
        Vtxo::Round { spec, leaf_idx, exit_branch } => {
            out.push(1u8);
            encode_vtxo_spec(out, spec);
            push_u64(out, *leaf_idx as u64);
            push_u64(out, exit_branch.len() as u64);
            let ghost branch = exit_branch@.map_values(|t: Tx| t@);
            let mut i: usize = 0;
            let ghost mid = out@;
            while i < exit_branch.len()
                invariant
                    0 <= i <= exit_branch@.len(),
                    branch == exit_branch@.map_values(|t: Tx| t@),
                    out@ == mid + enc_tx_items(branch.take(i as int)),
                decreases exit_branch@.len() - i,
            {
                let ghost pre = branch.take(i as int);
                encode_tx(out, &exit_branch[i]);
                proof {
                    assert(branch[i as int] == exit_branch@[i as int]@);
                    assert(branch.take(i as int + 1) =~= pre.push(branch[i as int]));
                    lemma_enc_tx_items_push(pre, branch[i as int]);
                }
                i += 1;
            }
            proof {
                assert(branch.take(branch.len() as int) =~= branch);
                assert(branch.len() == exit_branch@.len());
                assert(out@ =~= old(out)@ + enc_vtxo(v@));
            }
        },
        Vtxo::Arkoor { inputs, spec, oor_tx, final_point } => {
            out.push(2u8);
            encode_vtxo_inner(out, inputs, spec, oor_tx, final_point);
            proof { lemma_vtxo_views(inputs@); }
            assert(out@ =~= old(out)@ + enc_vtxo(v@));
        },
        Vtxo::Bolt11Change { inputs, spec, htlc_tx, final_point } => {
            out.push(3u8);
            encode_vtxo_inner(out, inputs, spec, htlc_tx, final_point);
            proof { lemma_vtxo_views(inputs@); }
            assert(out@ =~= old(out)@ + enc_vtxo(v@));
        },
    }
}

/// Append the shared layout of the two ancestor-carrying variants:
/// input count, inputs, specification, transaction, final outpoint.
fn encode_vtxo_inner(
    out: &mut Vec<u8>,
    inputs: &Vec<Vtxo>,
    spec: &VtxoSpec,
    tx: &Tx,
    final_point: &OutPoint,
)
    ensures
        final(out)@ == old(out)@ + crate::bytes::u64_le(inputs@.len() as u64)
            + enc_vtxo_items(vtxo_views(inputs@)) + enc_vtxo_spec(spec@) + enc_tx(tx@)
            + enc_outpoint(final_point@),
    decreases inputs@, 0int,
{
    push_u64(out, inputs.len() as u64);
    let ghost views = vtxo_views(inputs@);
    proof {
        lemma_vtxo_views(inputs@);
    }
    let mut i: usize = 0;
    let ghost mid = out@;
    while i < inputs.len()
        invariant
            0 <= i <= inputs@.len(),
            views == vtxo_views(inputs@),
            views.len() == inputs@.len(),
            forall|k: int| 0 <= k < inputs@.len()
                ==> views[k] == crate::vtxo::vtxo_view(#[trigger] inputs@[k]),
            out@ == mid + enc_vtxo_items(views.take(i as int)),
        decreases inputs@.len() - i,
    {
        let ghost pre = views.take(i as int);
        encode_vtxo(out, &inputs[i]);
        proof {
            assert(views.take(i as int + 1) =~= pre.push(views[i as int]));
            lemma_enc_vtxo_items_push(pre, views[i as int]);
        }
        i += 1;
    }
    proof {
        assert(views.take(views.len() as int) =~= views);
    }
    encode_vtxo_spec(out, spec);
    encode_tx(out, tx);
    encode_outpoint(out, final_point);
    assert(out@ =~= old(out)@ + crate::bytes::u64_le(inputs@.len() as u64)
        + enc_vtxo_items(views) + enc_vtxo_spec(spec@) + enc_tx(tx@)
        + enc_outpoint(final_point@));
}

// ---------------------------------------------------------------
// decoders
// ---------------------------------------------------------------

/// Decode an outpoint at the given position.
pub fn decode_outpoint(buf: &[u8], pos: usize) -> (r: Option<(OutPoint, usize)>)
    requires
        pos <= buf@.len(),
    ensures
        match r {
            Some(pair) => {
                &&& dec_outpoint(buf@.skip(pos as int)) == Some((pair.0@, pair.1 - pos as int))
                &&& pos < pair.1 <= buf@.len()
            },
            None => dec_outpoint(buf@.skip(pos as int)) is None,
        },
{
    let ghost s = buf@.skip(pos as int);
    if buf.len() - pos >= 40 {
        let txid: [u8; 32] = read_bytes(buf, pos);
        let vout64 = read_u64(buf, pos + 32);
        proof {
            assert(s.take(32) =~= buf@.subrange(pos as int, pos as int + 32));
            assert(s.subrange(32, 40) =~= buf@.subrange(pos as int + 32, pos as int + 40));
        }
        if vout64 < 0x1_0000_0000 {
            let p = OutPoint { txid, vout: vout64 as u32 };
            proof {
                assert(p@ =~= dec_outpoint(s).unwrap().0);
            }
            Some((p, pos + 40))
        } else {
            None
        }
    } else {
        None
    }
}

/// Decode an output script at the given position.
pub fn decode_spk(buf: &[u8], pos: usize) -> (r: Option<(Spk, usize)>)
    requires
        pos <= buf@.len(),
    ensures
        match r {
            Some(pair) => {
                &&& dec_spk(buf@.skip(pos as int)) == Some((pair.0@, pair.1 - pos as int))
                &&& pos < pair.1 <= buf@.len()
            },
            None => dec_spk(buf@.skip(pos as int)) is None,
        },
{
    let ghost s = buf@.skip(pos as int);
    if buf.len() - pos < 1 {
        return None;
    }
    let tag = buf[pos];
    assert(s[0] == tag);
    if tag == 0 {
        if buf.len() - pos >= 73 {
            let user_pubkey: [u8; 32] = read_bytes(buf, pos + 1);
            let asp_pubkey: [u8; 32] = read_bytes(buf, pos + 33);
            let delta = read_u64(buf, pos + 65);
            proof {
                assert(s.subrange(1, 33) =~= buf@.subrange(pos + 1, pos + 33));
                assert(s.subrange(33, 65) =~= buf@.subrange(pos + 33, pos + 65));
                assert(s.subrange(65, 73) =~= buf@.subrange(pos + 65, pos + 73));
            }
            if delta < 0x1_0000 {
                let k = Spk::Exit { user_pubkey, asp_pubkey, exit_delta: delta as u16 };
                proof {
                    assert(k@ =~= dec_spk(s).unwrap().0);
                }
                Some((k, pos + 73))
            } else {
                None
            }
        } else {
            None
        }
    } else if tag == 1 {
        if buf.len() - pos >= 113 {
            let payment_hash: [u8; 32] = read_bytes(buf, pos + 1);
            let user_pubkey: [u8; 32] = read_bytes(buf, pos + 33);
            let asp_pubkey: [u8; 32] = read_bytes(buf, pos + 65);
            let expiry = read_u64(buf, pos + 97);
            let delta = read_u64(buf, pos + 105);
            proof {
                assert(s.subrange(1, 33) =~= buf@.subrange(pos + 1, pos + 33));
                assert(s.subrange(33, 65) =~= buf@.subrange(pos + 33, pos + 65));
                assert(s.subrange(65, 97) =~= buf@.subrange(pos + 65, pos + 97));
                assert(s.subrange(97, 105) =~= buf@.subrange(pos + 97, pos + 105));
                assert(s.subrange(105, 113) =~= buf@.subrange(pos + 105, pos + 113));
            }
            if expiry < 0x1_0000_0000 && delta < 0x1_0000 {
                let k = Spk::Htlc {
                    payment_hash,
                    user_pubkey,
                    asp_pubkey,
                    htlc_expiry: expiry as u32,
                    exit_delta: delta as u16,
                };
                proof {
                    assert(k@ =~= dec_spk(s).unwrap().0);
                }
                Some((k, pos + 113))
            } else {
                None
            }
        } else {
            None
        }
    } else if tag == 2 {
        Some((Spk::Anchor, pos + 1))
    } else if tag == 3 {
        if buf.len() - pos >= 9 {
            let n = read_u64(buf, pos + 1);
            proof {
                assert(s.subrange(1, 9) =~= buf@.subrange(pos + 1, pos + 9));
            }
            if n <= (buf.len() - pos - 9) as u64 {
                let program = read_vec(buf, pos + 9, n as usize);
                proof {
                    assert(s.len() >= 9 + n);
                    assert(s.subrange(9, 9 + n as int)
                        =~= buf@.subrange(pos + 9, pos + 9 + n as int));
                }
                let k = Spk::Raw { program };
                proof {
                    assert(k@ =~= dec_spk(s).unwrap().0);
                }
                Some((k, pos + 9 + n as usize))
            } else {
                proof {
                    assert(s.len() < 9 + n);
                }
                None
            }
        } else {
            None
        }
    } else {
        None
    }
}

/// Decode a transaction output at the given position.
pub fn decode_txout(buf: &[u8], pos: usize) -> (r: Option<(TxOut, usize)>)
    requires
        pos <= buf@.len(),
    ensures
        match r {
            Some(pair) => {
                &&& dec_txout(buf@.skip(pos as int)) == Some((pair.0@, pair.1 - pos as int))
                &&& pos < pair.1 <= buf@.len()
            },
            None => dec_txout(buf@.skip(pos as int)) is None,
        },
{
    let ghost s = buf@.skip(pos as int);
    if buf.len() - pos < 8 {
        return None;
    }
    let value = read_u64(buf, pos);
    proof {
        assert(s.take(8) =~= buf@.subrange(pos as int, pos + 8));
        assert(s.skip(8) =~= buf@.skip(pos + 8));
    }
    match decode_spk(buf, pos + 8) {
        Some((spk, p1)) => Some((TxOut { value, spk }, p1)),
        None => None,
    }
}

/// Decode an optional signature at the given position.
pub fn decode_sig(buf: &[u8], pos: usize) -> (r: Option<(Option<[u8; 64]>, usize)>)
    requires
        pos <= buf@.len(),
    ensures
        match r {
            Some(pair) => {
                &&& dec_sig(buf@.skip(pos as int)) == Some((
                    match pair.0 {
                        Some(sig) => Some(sig@),
                        None => None,
                    },
                    pair.1 - pos as int,
                ))
                &&& pos < pair.1 <= buf@.len()
            },
            None => dec_sig(buf@.skip(pos as int)) is None,
        },
{
    let ghost s = buf@.skip(pos as int);
    if buf.len() - pos < 1 {
        return None;
    }
    let tag = buf[pos];
    assert(s[0] == tag);
    if tag == 0 {
        Some((None, pos + 1))
    } else if tag == 1 {
        if buf.len() - pos >= 65 {
            let sig: [u8; 64] = read_bytes(buf, pos + 1);
            proof {
                assert(s.subrange(1, 65) =~= buf@.subrange(pos + 1, pos + 65));
            }
            Some((Some(sig), pos + 65))
        } else {
            None
        }
    } else {
        None
    }
}

/// Decode a transaction input at the given position.
pub fn decode_txin(buf: &[u8], pos: usize) -> (r: Option<(TxIn, usize)>)
    requires
        pos <= buf@.len(),
    ensures
        match r {
            Some(pair) => {
                &&& dec_txin(buf@.skip(pos as int)) == Some((pair.0@, pair.1 - pos as int))
                &&& pos < pair.1 <= buf@.len()
            },
            None => dec_txin(buf@.skip(pos as int)) is None,
        },
{
    let ghost s = buf@.skip(pos as int);
    match decode_outpoint(buf, pos) {
        Some((prevout, p1)) => {
            let ghost c1 = p1 - pos as int;
            let ghost s1 = s.skip(c1);
            proof {
                assert(s1 =~= buf@.skip(p1 as int));
            }
            if buf.len() - p1 < 8 {
                return None;
            }
            let sequence = read_u64(buf, p1);
            proof {
                assert(s1.take(8) =~= buf@.subrange(p1 as int, p1 + 8));
                assert(s1.skip(8) =~= buf@.skip(p1 + 8));
            }
            if sequence < 0x1_0000_0000 {
                match decode_sig(buf, p1 + 8) {
                    Some((signature, p2)) => {
                        let i = TxIn { prevout, sequence: sequence as u32, signature };
                        proof {
                            assert(i@ =~= dec_txin(s).unwrap().0);
                        }
                        Some((i, p2))
                    },
                    None => None,
                }
            } else {
                None
            }
        },
        None => None,
    }
}

/// Decode a given number of transaction inputs at the given position.
pub fn decode_txin_items(buf: &[u8], pos: usize, n: u64) -> (r: Option<(Vec<TxIn>, usize)>)
    requires
        pos <= buf@.len(),
    ensures
        match r {
            Some(pair) => {
                &&& dec_txin_items(buf@.skip(pos as int), n as nat)
                    == Some((pair.0@.map_values(|x: TxIn| x@), pair.1 - pos as int))
                &&& pos <= pair.1 <= buf@.len()
            },
            None => dec_txin_items(buf@.skip(pos as int), n as nat) is None,
        },
    decreases n,
{
    let ghost s = buf@.skip(pos as int);
    if n == 0 {
        let items: Vec<TxIn> = Vec::new();
        proof {
            assert(items@.map_values(|x: TxIn| x@) =~= Seq::<TxInV>::empty());
        }
        Some((items, pos))
    } else {
        match decode_txin(buf, pos) {
            Some((item, p1)) => {
                proof {
                    assert(buf@.skip(p1 as int) =~= s.skip(p1 - pos as int));
                }
                match decode_txin_items(buf, p1, n - 1) {
                    Some((mut items, p2)) => {
                        let ghost tail_views = items@.map_values(|x: TxIn| x@);
                        items.insert(0, item);
                        proof {
                            assert(items@.map_values(|x: TxIn| x@)
                                =~= seq![item@] + tail_views);
                        }
                        Some((items, p2))
                    },
                    None => None,
                }
            },
            None => None,
        }
    }
}

/// Decode a given number of transaction outputs at the given position.
pub fn decode_txout_items(buf: &[u8], pos: usize, n: u64) -> (r: Option<(Vec<TxOut>, usize)>)
    requires
        pos <= buf@.len(),
    ensures
        match r {
            Some(pair) => {
                &&& dec_txout_items(buf@.skip(pos as int), n as nat)
                    == Some((pair.0@.map_values(|x: TxOut| x@), pair.1 - pos as int))
                &&& pos <= pair.1 <= buf@.len()
            },
            None => dec_txout_items(buf@.skip(pos as int), n as nat) is None,
        },
    decreases n,
{
    let ghost s = buf@.skip(pos as int);
    if n == 0 {
        let items: Vec<TxOut> = Vec::new();
        proof {
            assert(items@.map_values(|x: TxOut| x@) =~= Seq::<TxOutV>::empty());
        }
        Some((items, pos))
    } else {
        match decode_txout(buf, pos) {
            Some((item, p1)) => {
                proof {
                    assert(buf@.skip(p1 as int) =~= s.skip(p1 - pos as int));
                }
                match decode_txout_items(buf, p1, n - 1) {
                    Some((mut items, p2)) => {
                        let ghost tail_views = items@.map_values(|x: TxOut| x@);
                        items.insert(0, item);
                        proof {
                            assert(items@.map_values(|x: TxOut| x@)
                                =~= seq![item@] + tail_views);
                        }
                        Some((items, p2))
                    },
                    None => None,
                }
            },
            None => None,
        }
    }
}

/// Decode a transaction at the given position.
pub fn decode_tx(buf: &[u8], pos: usize) -> (r: Option<(Tx, usize)>)
    requires
        pos <= buf@.len(),
    ensures
        match r {
            Some(pair) => {
                &&& dec_tx(buf@.skip(pos as int)) == Some((pair.0@, pair.1 - pos as int))
                &&& pos <= pair.1 <= buf@.len()
            },
            None => dec_tx(buf@.skip(pos as int)) is None,
        },
{
    let ghost s = buf@.skip(pos as int);
    if buf.len() - pos < 8 {
        return None;
    }
    let n_in = read_u64(buf, pos);
    proof {
        assert(s.take(8) =~= buf@.subrange(pos as int, pos + 8));
        assert(s.skip(8) =~= buf@.skip(pos + 8));
    }
    match decode_txin_items(buf, pos + 8, n_in) {
        Some((inputs, p1)) => {
            let ghost c1 = p1 - (pos + 8) as int;
            let ghost s1 = s.skip(8 + c1);
            proof {
                assert(s1 =~= buf@.skip(p1 as int));
            }
            if buf.len() - p1 < 8 {
                return None;
            }
            let n_out = read_u64(buf, p1);
            proof {
                assert(s1.take(8) =~= buf@.subrange(p1 as int, p1 + 8));
                assert(s1.skip(8) =~= buf@.skip(p1 + 8));
            }
            match decode_txout_items(buf, p1 + 8, n_out) {
                Some((outputs, p2)) => {
                    let t = Tx { inputs, outputs };
                    proof {
                        assert(t@ =~= dec_tx(s).unwrap().0);
                    }
                    Some((t, p2))
                },
                None => None,
            }
        },
        None => None,
    }
}

/// Decode a given number of transactions at the given position.
pub fn decode_tx_items(buf: &[u8], pos: usize, n: u64) -> (r: Option<(Vec<Tx>, usize)>)
    requires
        pos <= buf@.len(),
    ensures
        match r {
            Some(pair) => {
                &&& dec_tx_items(buf@.skip(pos as int), n as nat)
                    == Some((pair.0@.map_values(|x: Tx| x@), pair.1 - pos as int))
                &&& pos <= pair.1 <= buf@.len()
            },
            None => dec_tx_items(buf@.skip(pos as int), n as nat) is None,
        },
    decreases n,
{
    let ghost s = buf@.skip(pos as int);
    if n == 0 {
        let items: Vec<Tx> = Vec::new();
        proof {
            assert(items@.map_values(|x: Tx| x@) =~= Seq::<TxV>::empty());
        }
        Some((items, pos))
    } else {
        match decode_tx(buf, pos) {
            Some((item, p1)) => {
                proof {
                    assert(buf@.skip(p1 as int) =~= s.skip(p1 - pos as int));
                }
                match decode_tx_items(buf, p1, n - 1) {
                    Some((mut items, p2)) => {
                        let ghost tail_views = items@.map_values(|x: Tx| x@);
                        let ghost item_view = item@;
                        items.insert(0, item);
                        proof {
                            assert(items@.map_values(|x: Tx| x@)
                                =~= seq![item_view] + tail_views);
                        }
                        Some((items, p2))
                    },
                    None => None,
                }
            },
            None => None,
        }
    }
}

/// Decode a VTXO specification at the given position.
pub fn decode_vtxo_spec(buf: &[u8], pos: usize) -> (r: Option<(VtxoSpec, usize)>)
    requires
        pos <= buf@.len(),
    ensures
        match r {
            Some(pair) => {
                &&& dec_vtxo_spec(buf@.skip(pos as int)) == Some((pair.0@, pair.1 - pos as int))
                &&& pos < pair.1 <= buf@.len()
            },
            None => dec_vtxo_spec(buf@.skip(pos as int)) is None,
        },
{
    let ghost s = buf@.skip(pos as int);
    if buf.len() - pos < 88 {
        return None;
    }
    let user_pubkey: [u8; 32] = read_bytes(buf, pos);
    let asp_pubkey: [u8; 32] = read_bytes(buf, pos + 32);
    let expiry = read_u64(buf, pos + 64);
    let delta = read_u64(buf, pos + 72);
    let amount = read_u64(buf, pos + 80);
    proof {
        assert(s.subrange(0, 32) =~= buf@.subrange(pos as int, pos + 32));
        assert(s.subrange(32, 64) =~= buf@.subrange(pos + 32, pos + 64));
        assert(s.subrange(64, 72) =~= buf@.subrange(pos + 64, pos + 72));
        assert(s.subrange(72, 80) =~= buf@.subrange(pos + 72, pos + 80));
        assert(s.subrange(80, 88) =~= buf@.subrange(pos + 80, pos + 88));
    }
    if expiry < 0x1_0000_0000 && delta < 0x1_0000 {
        let sp = VtxoSpec {
            user_pubkey,
            asp_pubkey,
            expiry_height: expiry as u32,
            exit_delta: delta as u16,
            amount,
        };
        proof {
            assert(sp@ =~= dec_vtxo_spec(s).unwrap().0);
        }
        Some((sp, pos + 88))
    } else {
        None
    }
}

/// Decode a VTXO at the given position.
pub fn decode_vtxo_at(buf: &[u8], pos: usize) -> (r: Option<(Vtxo, usize)>)
    requires
        pos <= buf@.len(),
    ensures
        match r {
            Some(pair) => {
                &&& dec_vtxo(buf@.skip(pos as int)) == Some((pair.0@, pair.1 - pos as int))
                &&& pos < pair.1 <= buf@.len()
            },
            None => dec_vtxo(buf@.skip(pos as int)) is None,
        },
    decreases buf@.len() - pos, 0int,
{
    let ghost s = buf@.skip(pos as int);
    if buf.len() - pos < 1 {
        return None;
    }
    let tag = buf[pos];
    assert(s[0] == tag);
    if tag == 0 {
        proof {
            assert(buf@.skip(pos + 1) =~= s.skip(1));
        }
        match decode_vtxo_spec(buf, pos + 1) {
            Some((spec, p1)) => {
                proof {
                    assert(buf@.skip(p1 as int) =~= s.skip(1 + (p1 - pos - 1)));
                }
                match decode_outpoint(buf, p1) {
                    Some((onchain_output, p2)) => {
                        proof {
                            assert(buf@.skip(p2 as int)
                                =~= s.skip(1 + (p1 - pos - 1) + (p2 - p1)));
                        }
                        match decode_tx(buf, p2) {
                            Some((exit_tx, p3)) => {
                                let v = Vtxo::Board { spec, onchain_output, exit_tx };
                                proof {
                                    assert(v@ =~= dec_vtxo(s).unwrap().0);
                                }
                                Some((v, p3))
                            },
                            None => None,
                        }
                    },
                    None => None,
                }
            },
            None => None,
        }
    } else if tag == 1 {
        proof {
            assert(buf@.skip(pos + 1) =~= s.skip(1));
        }
        match decode_vtxo_spec(buf, pos + 1) {
            Some((spec, p1)) => {
                let ghost s1 = s.skip(1 + (p1 - pos - 1));
                proof {
                    assert(buf@.skip(p1 as int) =~= s1);
                }
                if buf.len() - p1 < 16 {
                    return None;
                }
                let leaf_idx = read_u64(buf, p1);
                let n = read_u64(buf, p1 + 8);
                proof {
                    assert(s1.take(8) =~= buf@.subrange(p1 as int, p1 + 8));
                    assert(s1.subrange(8, 16) =~= buf@.subrange(p1 + 8, p1 + 16));
                    assert(s1.skip(16) =~= buf@.skip(p1 + 16));
                }
                if leaf_idx < 0x1_0000_0000 {
                    match decode_tx_items(buf, p1 + 16, n) {
                        Some((exit_branch, p2)) => {
                            let v = Vtxo::Round {
                                spec,
                                leaf_idx: leaf_idx as u32,
                                exit_branch,
                            };
                            proof {
                                assert(v@ =~= dec_vtxo(s).unwrap().0);
                            }
                            Some((v, p2))
                        },
                        None => None,
                    }
                } else {
                    None
                }
            },
            None => None,
        }
    } else if tag == 2 || tag == 3 {
        if buf.len() - pos < 9 {
            return None;
        }
        let n = read_u64(buf, pos + 1);
        proof {
            assert(s.subrange(1, 9) =~= buf@.subrange(pos + 1, pos + 9));
            assert(buf@.skip(pos + 9) =~= s.skip(9));
        }
        match decode_vtxo_items(buf, pos + 9, n) {
            Some((inputs, p1)) => {
                proof {
                    assert(buf@.skip(p1 as int) =~= s.skip(9 + (p1 - pos - 9)));
                }
                match decode_vtxo_spec(buf, p1) {
                    Some((spec, p2)) => {
                        proof {
                            assert(buf@.skip(p2 as int)
                                =~= s.skip(9 + (p1 - pos - 9) + (p2 - p1)));
                        }
                        match decode_tx(buf, p2) {
                            Some((tx, p3)) => {
                                proof {
                                    assert(buf@.skip(p3 as int)
                                        =~= s.skip(9 + (p1 - pos - 9) + (p2 - p1) + (p3 - p2)));
                                }
                                match decode_outpoint(buf, p3) {
                                    Some((final_point, p4)) => {
                                        let v = if tag == 2 {
                                            Vtxo::Arkoor {
                                                inputs, spec, oor_tx: tx, final_point,
                                            }
                                        } else {
                                            Vtxo::Bolt11Change {
                                                inputs, spec, htlc_tx: tx, final_point,
                                            }
                                        };
                                        proof {
                                            lemma_vtxo_views(inputs@);
                                            assert(v@ =~= dec_vtxo(s).unwrap().0);
                                        }
                                        Some((v, p4))
                                    },
                                    None => None,
                                }
                            },
                            None => None,
                        }
                    },
                    None => None,
                }
            },
            None => None,
        }
    } else {
        None
    }
}

/// Decode a given number of VTXOs at the given position.
pub fn decode_vtxo_items(buf: &[u8], pos: usize, n: u64) -> (r: Option<(Vec<Vtxo>, usize)>)
    requires
        pos <= buf@.len(),
    ensures
        match r {
            Some(pair) => {
                &&& dec_vtxo_items(buf@.skip(pos as int), n as nat)
                    == Some((vtxo_views(pair.0@), pair.1 - pos as int))
                &&& pos <= pair.1 <= buf@.len()
            },
            None => dec_vtxo_items(buf@.skip(pos as int), n as nat) is None,
        },
    decreases buf@.len() - pos, n,
{
    let ghost s = buf@.skip(pos as int);
    if n == 0 {
        let items: Vec<Vtxo> = Vec::new();
        proof {
            assert(vtxo_views(items@) =~= Seq::<VtxoV>::empty());
        }
        Some((items, pos))
    } else {
        match decode_vtxo_at(buf, pos) {
            Some((item, p1)) => {
                proof {
                    assert(buf@.skip(p1 as int) =~= s.skip(p1 - pos as int));
                    assert(1 <= p1 - pos as int <= s.len());
                }
                match decode_vtxo_items(buf, p1, n - 1) {
                    Some((mut items, p2)) => {
                        let ghost tail_views = vtxo_views(items@);
                        let ghost item_view = item@;
                        proof {
                            lemma_vtxo_views(items@);
                        }
                        items.insert(0, item);
                        proof {
                            lemma_vtxo_views(items@);
                            assert(vtxo_views(items@) =~= seq![item_view] + tail_views);
                        }
                        Some((items, p2))
                    },
                    None => None,
                }
            },
            None => None,
        }
    }
}

// ---------------------------------------------------------------
// transaction ids and VTXO ids
// ---------------------------------------------------------------

impl Tx {
    /// The id of this modelled transaction: the double-SHA256 digest
    /// of its witness-stripped canonical encoding. Signing inputs does
    /// not change the id. For the id of a real, consensus-serialized
    /// transaction, use `crate::crypto::consensus_txid`.
    pub fn txid(&self) -> (r: [u8; 32])
        ensures
            r@ == txid_of(self@),
    {
        let mut payload: Vec<u8> = Vec::new();
        encode_txid_payload(&mut payload, self);
        crate::crypto::sha256d(payload.as_slice())
    }
}

/// The outpoint of a VTXO view's leaf exit output: the first output of
/// the last transaction on its exit path.
pub open spec fn spec_vtxo_point(v: VtxoV) -> crate::vtxo::OutPointV {
    match v {
        VtxoV::Board { exit_tx, .. } =>
            crate::vtxo::OutPointV { txid: txid_of(exit_tx), vout: 0 },
        VtxoV::Round { exit_branch, .. } =>
            crate::vtxo::OutPointV { txid: txid_of(exit_branch.last()), vout: 0 },
        VtxoV::Arkoor { final_point, .. } => final_point,
        VtxoV::Bolt11Change { final_point, .. } => final_point,
    }
}

/// Whether a VTXO view has a leaf exit output at all: a round VTXO
/// must carry a non-empty exit branch.
pub open spec fn has_point(v: VtxoV) -> bool {
    match v {
        VtxoV::Round { exit_branch, .. } => exit_branch.len() > 0,
        _ => true,
    }
}

impl Vtxo {
    /// The outpoint of this VTXO's leaf exit output.
    pub fn point(&self) -> (r: OutPoint)
        requires
            has_point(self@),
        ensures
            r@ == spec_vtxo_point(self@),
    {
        match self {
            Vtxo::Board { exit_tx, .. } => OutPoint { txid: exit_tx.txid(), vout: 0 },
            Vtxo::Round { exit_branch, .. } => {
                let leaf = &exit_branch[exit_branch.len() - 1];
                proof {
                    assert(exit_branch@.map_values(|t: Tx| t@).last()
                        == exit_branch@[exit_branch@.len() - 1]@);
                }
                OutPoint { txid: leaf.txid(), vout: 0 }
            },
            Vtxo::Arkoor { final_point, .. } => *final_point,
            Vtxo::Bolt11Change { final_point, .. } => *final_point,
        }
    }

    /// The identifier of this VTXO.
    pub fn id(&self) -> (r: VtxoId)
        requires
            has_point(self@),
        ensures
            r@ == spec_vtxo_point(self@),
    {
        VtxoId { point: self.point() }
    }

    /// The canonical encoding of this VTXO.
    pub fn encode(&self) -> (r: Vec<u8>)
        ensures
            r@ == enc_vtxo(self@),
    {
        let mut out: Vec<u8> = Vec::new();
        encode_vtxo(&mut out, self);
        out
    }

    /// Decode a VTXO from a buffer; the buffer must hold exactly one
    /// encoded VTXO and nothing after it.
    pub fn decode(buf: &[u8]) -> (r: Option<Vtxo>)
        ensures
            match r {
                Some(v) => dec_vtxo(buf@) == Some((v@, buf@.len() as int)),
                None => dec_vtxo(buf@) is None
                    || dec_vtxo(buf@).unwrap().1 != buf@.len(),
            },
    {
        proof {
            assert(buf@.skip(0) =~= buf@);
        }
        match decode_vtxo_at(buf, 0) {
            Some((v, consumed)) => {
                if consumed == buf.len() {
                    Some(v)
                } else {
                    None
                }
            },
            None => None,
        }
    }
}

// ---------------------------------------------------------------
// the encoding round trip
// ---------------------------------------------------------------

/// The view of every executable transaction input is well formed.
pub proof fn lemma_txin_wf(i: TxIn)
    ensures
        crate::codec::wf_txin(i@),
{
}

/// The view of every executable transaction is well formed: arrays have
/// their fixed sizes and vector lengths fit the encoded counts.
pub proof fn lemma_tx_wf(t: Tx)
    ensures
        crate::codec::wf_tx(t@),
{
    assert(t.inputs.len() == t.inputs@.len());
    assert(t.outputs.len() == t.outputs@.len());
    assert forall|i: int| 0 <= i < t@.inputs.len()
        implies crate::codec::wf_txin(#[trigger] t@.inputs[i]) by {
        assert(t@.inputs[i] == t.inputs@[i]@);
    }
    assert forall|i: int| 0 <= i < t@.outputs.len()
        implies crate::codec::wf_txout(#[trigger] t@.outputs[i]) by {
        assert(t@.outputs[i] == t.outputs@[i]@);
        let o = t.outputs@[i];
        match o.spk {
            Spk::Raw { program } => {
                assert(program.len() == program@.len());
            },
            _ => {},
        }
    }
}

/// The view of every executable VTXO is well formed.
pub proof fn lemma_vtxo_wf(v: Vtxo)
    ensures
        crate::codec::wf_vtxo(v@),
    decreases v,
{
    match v {
        Vtxo::Board { spec, onchain_output, exit_tx } => {
            lemma_tx_wf(exit_tx);
        },
        Vtxo::Round { spec, leaf_idx, exit_branch } => {
            assert(exit_branch.len() == exit_branch@.len());
            let branch = exit_branch@.map_values(|t: Tx| t@);
            assert forall|i: int| 0 <= i < branch.len()
                implies crate::codec::wf_tx(#[trigger] branch[i]) by {
                assert(branch[i] == exit_branch@[i]@);
                lemma_tx_wf(exit_branch@[i]);
            }
        },
        Vtxo::Arkoor { inputs, spec, oor_tx, final_point } => {
            lemma_tx_wf(oor_tx);
            assert(inputs.len() == inputs@.len());
            lemma_vtxo_views(inputs@);
            let views = vtxo_views(inputs@);
            assert forall|i: int| 0 <= i < views.len()
                implies crate::codec::wf_vtxo(#[trigger] views[i]) by {
                lemma_vtxo_wf(inputs@[i]);
            }
        },
        Vtxo::Bolt11Change { inputs, spec, htlc_tx, final_point } => {
            lemma_tx_wf(htlc_tx);
            assert(inputs.len() == inputs@.len());
            lemma_vtxo_views(inputs@);
            let views = vtxo_views(inputs@);
            assert forall|i: int| 0 <= i < views.len()
                implies crate::codec::wf_vtxo(#[trigger] views[i]) by {
                lemma_vtxo_wf(inputs@[i]);
            }
        },
    }
}

/// The encoding round trip: decoding the canonical encoding of any
/// VTXO yields that VTXO back, consuming the whole encoding. Together
/// with the contracts of `Vtxo::encode` and `Vtxo::decode` this says
/// that `decode(encode(v))` returns a VTXO with the same view as `v`.
pub proof fn lemma_vtxo_roundtrip(v: Vtxo)
    ensures
        dec_vtxo(enc_vtxo(v@)) == Some((v@, enc_vtxo(v@).len() as int)),
{
    lemma_vtxo_wf(v);
    crate::codec::lemma_rt_vtxo(v@, Seq::empty());
    assert(enc_vtxo(v@) + Seq::<u8>::empty() =~= enc_vtxo(v@));
}

// ---------------------------------------------------------------
// the consensus boundary: checks on real, serialized transactions
// ---------------------------------------------------------------

/// Whether one input of a consensus-serialized transaction carries a
/// valid final key-spend signature: its BIP-341 sighash exists and the
/// signature verifies for it under the taproot output key.
pub open spec fn keyspend_ok(
    tx: Seq<u8>,
    prevouts: Seq<Seq<u8>>,
    index: usize,
    sig: Seq<u8>,
    output_key: Seq<u8>,
) -> bool {
    match crate::crypto::taproot_sighash_of(tx, prevouts, index) {
        Some(h) => crate::crypto::schnorr_valid(sig, h, output_key),
        None => false,
    }
}

/// Verify one final key-spend signature of a consensus-serialized
/// transaction: accepted exactly when the input's BIP-341 sighash
/// (`SIGHASH_ALL` over all previous outputs) exists and the signature
/// verifies for it under the given taproot output key.
pub fn verify_keyspend_signature(
    tx: &Vec<u8>,
    prevouts: &Vec<Vec<u8>>,
    index: usize,
    sig: &[u8; 64],
    output_key: &[u8; 32],
) -> (r: bool)
    ensures
        r == keyspend_ok(
            tx@, prevouts@.map_values(|p: Vec<u8>| p@), index, sig@, output_key@,
        ),
{
    match crate::crypto::taproot_sighash(tx, prevouts, index) {
        Some(h) => crate::crypto::schnorr_verify(sig, &h, output_key),
        None => false,
    }
}

/// Verify a full set of final key-spend signatures of one
/// consensus-serialized transaction, one signature and one taproot
/// output key per input, inputs indexed in order. Accepted exactly when
/// every input's sighash exists and its signature verifies.
pub fn validate_keyspend_signatures(
    tx: &Vec<u8>,
    prevouts: &Vec<Vec<u8>>,
    sigs: &Vec<[u8; 64]>,
    output_keys: &Vec<[u8; 32]>,
) -> (r: bool)
    ensures
        r <==> (sigs@.len() == output_keys@.len()
            && forall|i: int| 0 <= i < sigs@.len()
                ==> keyspend_ok(
                    tx@,
                    prevouts@.map_values(|p: Vec<u8>| p@),
                    i as usize,
                    (#[trigger] sigs@[i])@,
                    output_keys@[i]@,
                )),
{
    if sigs.len() != output_keys.len() {
        return false;
    }
    let mut i: usize = 0;
    while i < sigs.len()
        invariant
            sigs@.len() == output_keys@.len(),
            0 <= i <= sigs@.len(),
            forall|k: int| 0 <= k < i
                ==> keyspend_ok(
                    tx@,
                    prevouts@.map_values(|p: Vec<u8>| p@),
                    k as usize,
                    (#[trigger] sigs@[k])@,
                    output_keys@[k]@,
                ),
        decreases sigs@.len() - i,
    {
        if !verify_keyspend_signature(tx, prevouts, i, &sigs[i], &output_keys[i]) {
            proof {
                assert(!keyspend_ok(tx@, prevouts@.map_values(|p: Vec<u8>| p@),
                    i, sigs@[i as int]@, output_keys@[i as int]@));
            }
            return false;
        }
        i += 1;
    }
    true
}

/// The error a malformed wire message decodes to: a fixed description
/// of the first field that could not be read.
pub struct ConvertError {
    pub msg: &'static str,
}

impl ConvertError {
    /// The description of the fault.
    pub fn message(&self) -> (r: &'static str)
        ensures
            r == self.msg,
    {
        self.msg
    }
}

impl From<&'static str> for ConvertError {
    /// Wrap a description.
    fn from(msg: &'static str) -> (r: ConvertError) {
        ConvertError { msg }
    }
}

impl vstd::std_specs::convert::FromSpecImpl<&'static str> for ConvertError {
    open spec fn obeys_from_spec() -> bool {
        true
    }

    open spec fn from_spec(msg: &'static str) -> ConvertError {
        ConvertError { msg }
    }
}

} // verus!
