//! The VTXO tree of a round: a balanced binary tree over the round's
//! leaf payment requests, one presigned node transaction per node,
//! paired left to right, level by level, up to the single root that the
//! round transaction funds. Every node carries the cosign aggregate key
//! of its descendant leaves; a signed tree carries one cosign signature
//! per node.

use vstd::prelude::*;
use crate::bytes::{u64_le, u64_of_le, push_u64, read_u64, push_bytes, read_bytes};
use crate::vtxo::{OutPoint, OutPointV};
use crate::crypto::{sha256d_of, schnorr_valid};

verus! {

broadcast use crate::bytes::lemma_u64_le_len;

/// A leaf of the tree: the owner key, the per-round cosign key the
/// owner chose, and the leaf amount.
#[derive(Clone, Copy)]
pub struct VtxoRequest {
    pub pubkey: [u8; 32],
    pub cosign_pk: [u8; 32],
    pub amount: u64,
}

/// The view of a leaf request.
#[verifier::ext_equal]
pub ghost struct VtxoRequestV {
    pub pubkey: Seq<u8>,
    pub cosign_pk: Seq<u8>,
    pub amount: u64,
}

impl View for VtxoRequest {
    type V = VtxoRequestV;

    open spec fn view(&self) -> VtxoRequestV {
        VtxoRequestV {
            pubkey: self.pubkey@,
            cosign_pk: self.cosign_pk@,
            amount: self.amount,
        }
    }
}

/// The sum of a list of integers.
pub open spec fn sum_ints(s: Seq<int>) -> int
    decreases s.len(),
{
    if s.len() == 0 {
        0
    } else {
        s[0] + sum_ints(s.drop_first())
    }
}

/// One pairing step: adjacent values are combined left to right; an
/// odd value at the end is carried up alone.
pub open spec fn pair_up(s: Seq<int>) -> Seq<int>
    decreases s.len(),
{
    if s.len() <= 1 {
        s
    } else {
        seq![s[0] + s[1]] + pair_up(s.skip(2))
    }
}

/// A pairing step halves the length, rounding up.
pub proof fn lemma_pair_up_len(s: Seq<int>)
    ensures
        pair_up(s).len() == (s.len() + 1) / 2,
    decreases s.len(),
{
    if s.len() > 1 {
        lemma_pair_up_len(s.skip(2));
    }
}

/// A pairing step moves every value up: the sum is unchanged.
pub proof fn lemma_pair_up_sum(s: Seq<int>)
    ensures
        sum_ints(pair_up(s)) == sum_ints(s),
    decreases s.len(),
{
    if s.len() > 1 {
        lemma_pair_up_sum(s.skip(2));
        assert(pair_up(s).drop_first() =~= pair_up(s.skip(2)));
        assert(pair_up(s)[0] == s[0] + s[1]);
        assert(sum_ints(pair_up(s))
            == pair_up(s)[0] + sum_ints(pair_up(s).drop_first()));
        assert(s.drop_first().drop_first() =~= s.skip(2));
        assert(s.drop_first()[0] == s[1]);
        assert(sum_ints(s.drop_first()) == s[1] + sum_ints(s.skip(2)));
        assert(sum_ints(s) == s[0] + sum_ints(s.drop_first()));
    }
}

/// A pairing step keeps every value nonnegative.
pub proof fn lemma_pair_up_nonneg(s: Seq<int>)
    requires
        forall|i: int| 0 <= i < s.len() ==> #[trigger] s[i] >= 0,
    ensures
        forall|i: int| 0 <= i < pair_up(s).len() ==> #[trigger] pair_up(s)[i] >= 0,
    decreases s.len(),
{
    if s.len() > 1 {
        assert(s.skip(2) =~= s.subrange(2, s.len() as int));
        assert(forall|i: int| 0 <= i < s.skip(2).len() ==> #[trigger] s.skip(2)[i] >= 0);
        lemma_pair_up_nonneg(s.skip(2));
        assert(forall|i: int| 1 <= i < pair_up(s).len()
            ==> #[trigger] pair_up(s)[i] == pair_up(s.skip(2))[i - 1]);
    }
}

/// The value of the tree's root: the result of pairing until one value
/// is left; zero for an empty tree.
pub open spec fn root_amount(s: Seq<int>) -> int
    decreases s.len(),
    when s.len() <= 1 || pair_up(s).len() < s.len()
{
    if s.len() == 0 {
        0
    } else if s.len() == 1 {
        s[0]
    } else {
        root_amount(pair_up(s))
    }
}

/// The number of nodes of the tree over the given leaf values.
pub open spec fn nb_tree_nodes(s: Seq<int>) -> int
    decreases s.len(),
    when s.len() <= 1 || pair_up(s).len() < s.len()
{
    if s.len() == 0 {
        0
    } else if s.len() == 1 {
        1
    } else {
        s.len() + nb_tree_nodes(pair_up(s))
    }
}

/// The number of levels of the tree (a single leaf makes one level).
pub open spec fn nb_tree_levels(s: Seq<int>) -> int
    decreases s.len(),
    when s.len() <= 1 || pair_up(s).len() < s.len()
{
    if s.len() <= 1 {
        1
    } else {
        1 + nb_tree_levels(pair_up(s))
    }
}

/// The recursion of the tree functions is well founded: a pairing step
/// shrinks any list of two or more.
pub proof fn lemma_pair_up_shrinks(s: Seq<int>)
    requires
        s.len() >= 2,
    ensures
        pair_up(s).len() < s.len(),
{
    lemma_pair_up_len(s);
}

/// Round conservation, tree side: the root of the VTXO tree carries
/// exactly the sum of the leaf amounts.
pub proof fn lemma_tree_conservation(s: Seq<int>)
    requires
        s.len() >= 1,
    ensures
        root_amount(s) == sum_ints(s),
    decreases s.len(),
{
    if s.len() == 1 {
        assert(s.drop_first() =~= Seq::<int>::empty());
        assert(sum_ints(Seq::<int>::empty()) == 0);
        assert(sum_ints(s) == s[0]);
        assert(root_amount(s) == s[0]);
    } else {
        lemma_pair_up_shrinks(s);
        lemma_pair_up_len(s);
        lemma_pair_up_sum(s);
        lemma_tree_conservation(pair_up(s));
        if pair_up(s).len() >= 2 {
            lemma_pair_up_shrinks(pair_up(s));
        }
        assert(root_amount(s) == root_amount(pair_up(s)));
        assert(root_amount(pair_up(s)) == sum_ints(pair_up(s)));
        assert(sum_ints(pair_up(s)) == sum_ints(s));
    }
}

/// The width of the tree's level `l` over `n` leaves: every level
/// halves the one below, rounding up.
pub open spec fn level_width(n: int, l: int) -> int
    decreases l,
{
    if l <= 0 {
        n
    } else {
        (level_width(n, l - 1) + 1) / 2
    }
}

/// The node index a leaf's exit branch passes at level `l`.
pub open spec fn branch_index(leaf: int, l: int) -> int
    decreases l,
{
    if l <= 0 {
        leaf
    } else {
        branch_index(leaf, l - 1) / 2
    }
}

/// The number of levels of a tree over `n` leaves, by width alone.
pub open spec fn nb_levels_n(n: int) -> int
    decreases n,
{
    if n <= 1 {
        1
    } else {
        1 + nb_levels_n((n + 1) / 2)
    }
}

/// A tree over `n` leaves has at least one and at most `n` levels.
pub proof fn lemma_nb_levels_le(n: int)
    requires
        n >= 1,
    ensures
        1 <= nb_levels_n(n) <= n,
    decreases n,
{
    if n >= 2 {
        lemma_nb_levels_le((n + 1) / 2);
    }
}

/// The width-based level count agrees with the tree's level count.
pub proof fn lemma_nb_levels_agree(s: Seq<int>)
    ensures
        nb_levels_n(s.len() as int) == nb_tree_levels(s),
    decreases s.len(),
{
    if s.len() >= 2 {
        lemma_pair_up_shrinks(s);
        lemma_pair_up_len(s);
        lemma_nb_levels_agree(pair_up(s));
        if pair_up(s).len() >= 2 {
            lemma_pair_up_shrinks(pair_up(s));
        }
        assert(nb_tree_levels(s) == 1 + nb_tree_levels(pair_up(s)));
    }
}

/// The exit branch of a leaf: the (level, index) position of every
/// node on the path from the leaf up to the root, leaf first. These
/// positions select, per level, the node transaction a unilateral exit
/// must settle.
pub fn exit_branch_positions(nb_leaves: u64, leaf_idx: u64) -> (r: Vec<(u64, u64)>)
    requires
        1 <= nb_leaves,
        leaf_idx < nb_leaves,
    ensures
        r@.len() == nb_levels_n(nb_leaves as int),
        forall|k: int| 0 <= k < r@.len() ==> {
            &&& (#[trigger] r@[k]).0 == k
            &&& r@[k].1 == branch_index(leaf_idx as int, k)
            &&& r@[k].1 < level_width(nb_leaves as int, k)
        },
        r@[0].1 == leaf_idx,
        r@[r@.len() - 1].1 == 0,
{
    let ghost n = nb_leaves as int;
    let ghost leaf = leaf_idx as int;
    proof {
        lemma_nb_levels_le(n);
    }
    let mut out: Vec<(u64, u64)> = Vec::new();
    let mut level: u64 = 0;
    let mut idx: u64 = leaf_idx;
    let mut w: u64 = nb_leaves;
    out.push((0, leaf_idx));
    while w > 1
        invariant
            n == nb_leaves as int,
            leaf == leaf_idx as int,
            1 <= w <= nb_leaves,
            idx < w,
            out@.len() == level + 1,
            idx == branch_index(leaf, level as int),
            w == level_width(n, level as int),
            nb_levels_n(n) == level + nb_levels_n(w as int),
            level + 1 <= nb_levels_n(n),
            nb_levels_n(n) <= n,
            forall|k: int| 0 <= k <= level ==> {
                &&& (#[trigger] out@[k]).0 == k
                &&& out@[k].1 == branch_index(leaf, k)
                &&& out@[k].1 < level_width(n, k)
            },
        decreases w,
    {
        proof {
            assert(branch_index(leaf, level as int + 1)
                == branch_index(leaf, level as int) / 2);
            assert(level_width(n, level as int + 1)
                == (level_width(n, level as int) + 1) / 2);
            assert(idx / 2 < (w + 1) / 2);
            assert(w / 2 + w % 2 == (w as int + 1) / 2);
            assert(nb_levels_n(w as int) == 1 + nb_levels_n((w as int + 1) / 2));
        }
        idx = idx / 2;
        w = w / 2 + w % 2;
        level = level + 1;
        proof {
            lemma_nb_levels_le(w as int);
        }
        out.push((level, idx));
    }
    proof {
        assert(nb_levels_n(w as int) == 1);
    }
    out
}

impl SignedVtxoTree {
    /// The exit branch of one of this tree's leaves: the (level, index)
    /// position of every node on the path from the leaf to the root,
    /// leaf first. Exists exactly for the tree's own leaves.
    pub fn exit_branch(&self, leaf_idx: usize) -> (r: Option<Vec<(u64, u64)>>)
        ensures
            r is Some <==> leaf_idx < self.spec.vtxos@.len(),
            r matches Some(b) ==> {
                &&& b@.len() == nb_tree_levels(leaf_amounts(self.spec@))
                &&& forall|k: int| 0 <= k < b@.len() ==> {
                    &&& (#[trigger] b@[k]).0 == k
                    &&& b@[k].1 == branch_index(leaf_idx as int, k)
                }
                &&& b@[0].1 == leaf_idx
                &&& b@[b@.len() - 1].1 == 0
            },
    {
        if leaf_idx >= self.spec.vtxos.len() {
            return None;
        }
        proof {
            lemma_nb_levels_agree(leaf_amounts(self.spec@));
            assert(leaf_amounts(self.spec@).len() == self.spec.vtxos@.len());
        }
        Some(exit_branch_positions(self.spec.vtxos.len() as u64, leaf_idx as u64))
    }
}

/// A sum of integers splits at any point.
pub proof fn lemma_sum_ints_split(s: Seq<int>, k: int)
    requires
        0 <= k <= s.len(),
    ensures
        sum_ints(s) == sum_ints(s.take(k)) + sum_ints(s.skip(k)),
    decreases k,
{
    if k == 0 {
        assert(s.take(0) =~= Seq::<int>::empty());
        assert(s.skip(0) =~= s);
    } else {
        assert(s.len() > 0);
        lemma_sum_ints_split(s.drop_first(), k - 1);
        assert(s.drop_first().take(k - 1) =~= s.take(k).drop_first());
        assert(s.drop_first().skip(k - 1) =~= s.skip(k));
        assert(sum_ints(s.take(k)) == s.take(k)[0] + sum_ints(s.take(k).drop_first()));
        assert(s.take(k)[0] == s[0]);
        assert(sum_ints(s) == s[0] + sum_ints(s.drop_first()));
    }
}

/// A sum of nonnegative integers is nonnegative.
pub proof fn lemma_sum_ints_nonneg(s: Seq<int>)
    requires
        forall|i: int| 0 <= i < s.len() ==> #[trigger] s[i] >= 0,
    ensures
        sum_ints(s) >= 0,
    decreases s.len(),
{
    if s.len() > 0 {
        assert(forall|i: int| 0 <= i < s.drop_first().len()
            ==> #[trigger] s.drop_first()[i] >= 0);
        lemma_sum_ints_nonneg(s.drop_first());
    }
}

/// In a nonnegative list, two adjacent values never exceed the sum.
pub proof fn lemma_sum_ints_adjacent(s: Seq<int>, i: int)
    requires
        forall|j: int| 0 <= j < s.len() ==> #[trigger] s[j] >= 0,
        0 <= i,
        i + 2 <= s.len(),
    ensures
        s[i] + s[i + 1] <= sum_ints(s),
{
    lemma_sum_ints_split(s, i);
    lemma_sum_ints_nonneg(s.take(i));
    let rest = s.skip(i);
    assert(rest[0] == s[i]);
    assert(rest.drop_first()[0] == s[i + 1]);
    assert(sum_ints(rest) == rest[0] + sum_ints(rest.drop_first()));
    assert(sum_ints(rest.drop_first())
        == rest.drop_first()[0] + sum_ints(rest.drop_first().drop_first()));
    assert(forall|j: int| 0 <= j < rest.len() ==> #[trigger] rest[j] >= 0);
    assert(forall|j: int| 0 <= j < rest.drop_first().len()
        ==> #[trigger] rest.drop_first()[j] >= 0);
    assert(forall|j: int| 0 <= j < rest.drop_first().drop_first().len()
        ==> #[trigger] rest.drop_first().drop_first()[j] >= 0);
    lemma_sum_ints_nonneg(rest.drop_first().drop_first());
}

/// The specification of a round's VTXO tree: the leaf requests, the
/// aggregate of all cosign keys, the service provider key, and the
/// expiry and exit parameters every leaf shares.
pub struct VtxoTreeSpec {
    pub vtxos: Vec<VtxoRequest>,
    pub cosign_agg_pk: [u8; 32],
    pub asp_pk: [u8; 32],
    pub expiry_height: u32,
    pub exit_delta: u16,
}

/// The view of a tree specification.
#[verifier::ext_equal]
pub ghost struct VtxoTreeSpecV {
    pub vtxos: Seq<VtxoRequestV>,
    pub cosign_agg_pk: Seq<u8>,
    pub asp_pk: Seq<u8>,
    pub expiry_height: u32,
    pub exit_delta: u16,
}

impl View for VtxoTreeSpec {
    type V = VtxoTreeSpecV;

    open spec fn view(&self) -> VtxoTreeSpecV {
        VtxoTreeSpecV {
            vtxos: self.vtxos@.map_values(|v: VtxoRequest| v@),
            cosign_agg_pk: self.cosign_agg_pk@,
            asp_pk: self.asp_pk@,
            expiry_height: self.expiry_height,
            exit_delta: self.exit_delta,
        }
    }
}

/// The leaf amounts of a tree specification, as integers.
pub open spec fn leaf_amounts(t: VtxoTreeSpecV) -> Seq<int> {
    t.vtxos.map_values(|v: VtxoRequestV| v.amount as int)
}

impl VtxoTreeSpec {
    /// The sum of the leaf amounts; `None` when it exceeds the largest
    /// representable amount.
    pub fn total_amount(&self) -> (r: Option<u64>)
        ensures
            match r {
                Some(n) => n == sum_ints(leaf_amounts(self@)),
                None => sum_ints(leaf_amounts(self@)) > u64::MAX,
            },
    {
        let ghost amounts = leaf_amounts(self@);
        let mut sum: u64 = 0;
        let mut i: usize = 0;
        while i < self.vtxos.len()
            invariant
                0 <= i <= self.vtxos@.len(),
                amounts == leaf_amounts(self@),
                amounts.len() == self.vtxos@.len(),
                forall|k: int| 0 <= k < amounts.len()
                    ==> amounts[k] == self.vtxos@[k].amount,
                sum == sum_ints(amounts.take(i as int)),
            decreases self.vtxos@.len() - i,
        {
            let a = self.vtxos[i].amount;
            proof {
                lemma_sum_ints_split(amounts.take(i as int + 1), i as int);
                assert(amounts.take(i as int + 1).take(i as int) =~= amounts.take(i as int));
                let one = amounts.take(i as int + 1).skip(i as int);
                assert(one.len() == 1 && one[0] == amounts[i as int]);
                assert(one.drop_first() =~= Seq::<int>::empty());
                assert(sum_ints(Seq::<int>::empty()) == 0);
                assert(sum_ints(one) == amounts[i as int]);
            }
            sum = match sum.checked_add(a) {
                Some(s) => s,
                None => {
                    proof {
                        lemma_sum_ints_split(amounts, i as int + 1);
                        assert(forall|k: int| 0 <= k < amounts.skip(i as int + 1).len()
                            ==> #[trigger] amounts.skip(i as int + 1)[k] >= 0);
                        lemma_sum_ints_nonneg(amounts.skip(i as int + 1));
                    }
                    return None;
                },
            };
            i += 1;
        }
        proof {
            assert(amounts.take(amounts.len() as int) =~= amounts);
        }
        Some(sum)
    }
}

/// One executable pairing step over node values.
pub fn pair_up_values(v: &Vec<u64>) -> (r: Vec<u64>)
    requires
        sum_ints(v@.map_values(|x: u64| x as int)) <= u64::MAX,
    ensures
        r@.map_values(|x: u64| x as int) == pair_up(v@.map_values(|x: u64| x as int)),
        sum_ints(r@.map_values(|x: u64| x as int)) <= u64::MAX,
        v@.len() >= 2 ==> r@.len() < v@.len(),
        v@.len() >= 1 ==> r@.len() >= 1,
{
    let ghost s = v@.map_values(|x: u64| x as int);
    proof {
        assert(forall|j: int| 0 <= j < s.len() ==> #[trigger] s[j] >= 0);
    }
    let mut out: Vec<u64> = Vec::new();
    let mut i: usize = 0;
    proof {
        assert(s.skip(0) =~= s);
        if s.len() >= 2 {
            assert(Seq::<int>::empty() + pair_up(s) =~= pair_up(s));
        }
    }
    while i + 1 < v.len()
        invariant
            0 <= i <= v@.len(),
            i % 2 == 0,
            s == v@.map_values(|x: u64| x as int),
            sum_ints(s) <= u64::MAX,
            forall|j: int| 0 <= j < s.len() ==> #[trigger] s[j] >= 0,
            s.len() >= 2 ==> out@.map_values(|x: u64| x as int)
                + pair_up(s.skip(i as int)) == pair_up(s),
            s.len() <= 1 ==> i == 0 && out@.len() == 0,
        decreases v@.len() - i,
    {
        let a = v[i];
        let b = v[i + 1];
        proof {
            lemma_sum_ints_adjacent(s, i as int);
        }
        let c = a + b;
        let ghost pre = out@.map_values(|x: u64| x as int);
        out.push(c);
        proof {
            assert(out@.map_values(|x: u64| x as int) =~= pre.push(c as int));
            assert(s.skip(i as int)[0] == s[i as int]);
            assert(s.skip(i as int)[1] == s[i as int + 1]);
            assert(s.skip(i as int).skip(2) =~= s.skip(i as int + 2));
            assert(pair_up(s.skip(i as int))
                == seq![s[i as int] + s[i as int + 1]] + pair_up(s.skip(i as int + 2)));
            assert(pre.push(c as int) + pair_up(s.skip(i as int + 2))
                =~= pre + pair_up(s.skip(i as int)));
        }
        i += 2;
    }
    if i < v.len() {
        let a = v[i];
        let ghost pre = out@.map_values(|x: u64| x as int);
        out.push(a);
        proof {
            assert(out@.map_values(|x: u64| x as int) =~= pre.push(a as int));
            assert(s.skip(i as int).len() == 1);
            assert(pair_up(s.skip(i as int)) =~= seq![s[i as int]]);
            if s.len() >= 2 {
                assert(pre.push(a as int) =~= pre + pair_up(s.skip(i as int)));
            } else {
                assert(pair_up(s) =~= seq![s[0]]);
                assert(pre.push(a as int) =~= pair_up(s));
            }
        }
    } else {
        proof {
            if s.len() >= 2 {
                assert(s.skip(i as int).len() == 0);
                assert(pair_up(s.skip(i as int)) =~= Seq::<int>::empty());
                assert(out@.map_values(|x: u64| x as int)
                    + pair_up(s.skip(i as int)) =~= out@.map_values(|x: u64| x as int));
            } else {
                assert(s.len() == 0);
                assert(pair_up(s) =~= Seq::<int>::empty());
                assert(out@.map_values(|x: u64| x as int) =~= pair_up(s));
            }
        }
    }
    proof {
        lemma_pair_up_sum(s);
        if v@.len() >= 2 {
            lemma_pair_up_shrinks(s);
        }
        if v@.len() >= 1 {
            lemma_pair_up_len(s);
        }
    }
    out
}

/// The commitment digest a tree node's cosigners sign in this model:
/// the digest of the funding outpoint, the node's level, its index in
/// the level, and the amount it carries. The BIP-341 sighash of a
/// node's real, consensus-serialized transaction goes through
/// `crate::crypto::taproot_sighash`.
pub open spec fn node_sighash(utxo: OutPointV, level: int, idx: int, value: int) -> Seq<u8> {
    sha256d_of(
        crate::codec::enc_outpoint(utxo) + u64_le(level as u64) + u64_le(idx as u64)
            + u64_le(value as u64),
    )
}

/// Validity of the cosign signatures of all tree nodes from the given
/// level up: each node's signature verifies under its cosign aggregate
/// key for its node sighash, and exactly one key and signature is
/// supplied per node.
pub open spec fn sigs_valid_from(
    utxo: OutPointV,
    values: Seq<int>,
    keys: Seq<Seq<u8>>,
    sigs: Seq<Seq<u8>>,
    level: int,
) -> bool
    decreases values.len(),
    when values.len() <= 1 || pair_up(values).len() < values.len()
{
    if values.len() == 0 {
        keys.len() == 0 && sigs.len() == 0
    } else if values.len() == 1 {
        keys.len() == 1 && sigs.len() == 1
            && schnorr_valid(sigs[0], node_sighash(utxo, level, 0, values[0]), keys[0])
    } else {
        &&& keys.len() >= values.len()
        &&& sigs.len() >= values.len()
        &&& forall|i: int| 0 <= i < values.len()
            ==> schnorr_valid(
                #[trigger] sigs[i], node_sighash(utxo, level, i, values[i]), keys[i],
            )
        &&& sigs_valid_from(
            utxo,
            pair_up(values),
            keys.skip(values.len() as int),
            sigs.skip(values.len() as int),
            level + 1,
        )
    }
}

/// A signed VTXO tree: the tree specification, the round transaction
/// output that funds the root, and, per node from the leaves up, the
/// node's cosign aggregate key and the aggregated cosign signature.
pub struct SignedVtxoTree {
    pub spec: VtxoTreeSpec,
    pub utxo: OutPoint,
    pub cosign_keys: Vec<[u8; 32]>,
    pub signatures: Vec<[u8; 64]>,
}

/// The view of a signed VTXO tree.
#[verifier::ext_equal]
pub ghost struct SignedVtxoTreeV {
    pub spec: VtxoTreeSpecV,
    pub utxo: OutPointV,
    pub cosign_keys: Seq<Seq<u8>>,
    pub signatures: Seq<Seq<u8>>,
}

impl View for SignedVtxoTree {
    type V = SignedVtxoTreeV;

    open spec fn view(&self) -> SignedVtxoTreeV {
        SignedVtxoTreeV {
            spec: self.spec@,
            utxo: self.utxo@,
            cosign_keys: self.cosign_keys@.map_values(|k: [u8; 32]| k@),
            signatures: self.signatures@.map_values(|s: [u8; 64]| s@),
        }
    }
}

/// Validity of a whole signed tree's cosign signatures.
pub open spec fn tree_sigs_valid(t: SignedVtxoTreeV) -> bool {
    sigs_valid_from(t.utxo, leaf_amounts(t.spec), t.cosign_keys, t.signatures, 0)
}

/// Verify the cosign signatures of the tree nodes from the given level
/// up, reading keys and signatures from the given offset on.
fn verify_from(
    utxo: &OutPoint,
    values: Vec<u64>,
    keys: &Vec<[u8; 32]>,
    sigs: &Vec<[u8; 64]>,
    off: usize,
    level: u64,
) -> (r: bool)
    requires
        off <= keys@.len(),
        off <= sigs@.len(),
        sum_ints(values@.map_values(|x: u64| x as int)) <= u64::MAX,
        level + crate::tree::nb_tree_levels(values@.map_values(|x: u64| x as int))
            <= u64::MAX,
    ensures
        r == sigs_valid_from(
            utxo@,
            values@.map_values(|x: u64| x as int),
            keys@.map_values(|k: [u8; 32]| k@).skip(off as int),
            sigs@.map_values(|s: [u8; 64]| s@).skip(off as int),
            level as int,
        ),
    decreases values@.len(),
{
    let ghost vals = values@.map_values(|x: u64| x as int);
    let ghost keyviews = keys@.map_values(|k: [u8; 32]| k@).skip(off as int);
    let ghost sigviews = sigs@.map_values(|s: [u8; 64]| s@).skip(off as int);
    proof {
        if vals.len() >= 2 {
            lemma_pair_up_shrinks(vals);
        }
    }
    if values.len() == 0 {
        return keys.len() == off && sigs.len() == off;
    }
    let n = values.len();
    if values.len() == 1 {
        if keys.len() - off != 1 || sigs.len() - off != 1 {
            return false;
        }
        let mut buf: Vec<u8> = Vec::new();
        crate::wire::encode_outpoint(&mut buf, utxo);
        push_u64(&mut buf, level);
        push_u64(&mut buf, 0);
        push_u64(&mut buf, values[0]);
        let h = crate::crypto::sha256d(buf.as_slice());
        proof {
            assert(buf@ =~= crate::codec::enc_outpoint(utxo@) + u64_le(level)
                + u64_le(0) + u64_le(values@[0] as u64));
            assert(keyviews[0] == keys@[off as int]@);
            assert(sigviews[0] == sigs@[off as int]@);
        }
        return crate::crypto::schnorr_verify(&sigs[off], &h, &keys[off]);
    }
    if keys.len() - off < n || sigs.len() - off < n {
        return false;
    }
    let mut i: usize = 0;
    while i < n
        invariant
            0 <= i <= n,
            n == values@.len(),
            n >= 2,
            pair_up(vals).len() < vals.len(),
            off + n <= keys@.len(),
            off + n <= sigs@.len(),
            vals == values@.map_values(|x: u64| x as int),
            keyviews == keys@.map_values(|k: [u8; 32]| k@).skip(off as int),
            sigviews == sigs@.map_values(|s: [u8; 64]| s@).skip(off as int),
            forall|k: int| 0 <= k < i
                ==> schnorr_valid(
                    #[trigger] sigviews[k],
                    node_sighash(utxo@, level as int, k, vals[k]),
                    keyviews[k],
                ),
        decreases n - i,
    {
        proof {
            assert(keys.len() == keys@.len());
            assert(sigs.len() == sigs@.len());
            assert(off + i < keys@.len());
        }
        let mut buf: Vec<u8> = Vec::new();
        crate::wire::encode_outpoint(&mut buf, utxo);
        push_u64(&mut buf, level);
        push_u64(&mut buf, i as u64);
        push_u64(&mut buf, values[i]);
        let h = crate::crypto::sha256d(buf.as_slice());
        proof {
            assert(buf@ =~= crate::codec::enc_outpoint(utxo@) + u64_le(level)
                + u64_le(i as u64) + u64_le(values@[i as int] as u64));
            assert(keyviews[i as int] == keys@[off + i]@);
            assert(sigviews[i as int] == sigs@[off + i]@);
        }
        if !crate::crypto::schnorr_verify(&sigs[off + i], &h, &keys[off + i]) {
            return false;
        }
        i += 1;
    }
    let next = pair_up_values(&values);
    proof {
        assert(keyviews.skip(n as int)
            =~= keys@.map_values(|k: [u8; 32]| k@).skip(off as int + n as int));
        assert(sigviews.skip(n as int)
            =~= sigs@.map_values(|s: [u8; 64]| s@).skip(off as int + n as int));
        if pair_up(vals).len() >= 2 {
            lemma_pair_up_shrinks(pair_up(vals));
        }
        lemma_nb_tree_levels_pos(pair_up(vals));
        assert(nb_tree_levels(vals) == 1 + nb_tree_levels(pair_up(vals)));
        assert(nb_tree_levels(pair_up(vals)) >= 1);
        assert(level + 1 + nb_tree_levels(pair_up(vals)) <= u64::MAX);
        assert(next@.map_values(|x: u64| x as int) == pair_up(vals));
    }
    verify_from(utxo, next, keys, sigs, off + n, level + 1)
}

/// Every tree has at least one level.
pub proof fn lemma_nb_tree_levels_pos(s: Seq<int>)
    ensures
        nb_tree_levels(s) >= 1,
    decreases s.len(),
{
    if s.len() >= 2 {
        lemma_pair_up_shrinks(s);
        lemma_nb_tree_levels_pos(pair_up(s));
        if pair_up(s).len() >= 2 {
            lemma_pair_up_shrinks(pair_up(s));
        }
        assert(nb_tree_levels(s) == 1 + nb_tree_levels(pair_up(s)));
    } else {
        assert(nb_tree_levels(s) == 1);
    }
}

// ---------------------------------------------------------------
// canonical encoding of a signed tree
// ---------------------------------------------------------------

/// Encoding of one leaf request: owner key, cosign key, amount.
pub open spec fn enc_request(r: VtxoRequestV) -> Seq<u8> {
    r.pubkey + r.cosign_pk + u64_le(r.amount)
}

/// Concatenated encodings of leaf requests.
pub open spec fn enc_request_items(s: Seq<VtxoRequestV>) -> Seq<u8>
    decreases s.len(),
{
    if s.len() == 0 {
        Seq::empty()
    } else {
        enc_request(s[0]) + enc_request_items(s.drop_first())
    }
}

/// Concatenated 32-byte items (keys).
pub open spec fn enc_key_items(s: Seq<Seq<u8>>) -> Seq<u8>
    decreases s.len(),
{
    if s.len() == 0 {
        Seq::empty()
    } else {
        s[0] + enc_key_items(s.drop_first())
    }
}

/// Concatenated 64-byte items (signatures).
pub open spec fn enc_sig_items(s: Seq<Seq<u8>>) -> Seq<u8>
    decreases s.len(),
{
    if s.len() == 0 {
        Seq::empty()
    } else {
        s[0] + enc_sig_items(s.drop_first())
    }
}

/// Encoding of a signed VTXO tree: the tree parameters, the funding
/// outpoint, the leaf requests, the per-node keys, the per-node
/// signatures.
pub open spec fn enc_signed_tree(t: SignedVtxoTreeV) -> Seq<u8> {
    t.spec.cosign_agg_pk + t.spec.asp_pk
        + u64_le(t.spec.expiry_height as u64) + u64_le(t.spec.exit_delta as u64)
        + crate::codec::enc_outpoint(t.utxo)
        + u64_le(t.spec.vtxos.len() as u64) + enc_request_items(t.spec.vtxos)
        + u64_le(t.cosign_keys.len() as u64) + enc_key_items(t.cosign_keys)
        + u64_le(t.signatures.len() as u64) + enc_sig_items(t.signatures)
}

/// Decode a given number of leaf requests.
pub open spec fn dec_request_items(s: Seq<u8>, n: nat) -> Option<(Seq<VtxoRequestV>, int)>
    decreases n,
{
    if n == 0 {
        Some((Seq::empty(), 0))
    } else if s.len() >= 72 {
        let amount = u64_of_le(s.subrange(64, 72));
        match dec_request_items(s.skip(72), (n - 1) as nat) {
            Some((items, c)) => Some((
                seq![
                    VtxoRequestV {
                        pubkey: s.take(32),
                        cosign_pk: s.subrange(32, 64),
                        amount: amount as u64,
                    },
                ] + items,
                72 + c,
            )),
            None => None,
        }
    } else {
        None
    }
}

/// Decode a given number of 32-byte keys.
pub open spec fn dec_key_items(s: Seq<u8>, n: nat) -> Option<(Seq<Seq<u8>>, int)>
    decreases n,
{
    if n == 0 {
        Some((Seq::empty(), 0))
    } else if s.len() >= 32 {
        match dec_key_items(s.skip(32), (n - 1) as nat) {
            Some((items, c)) => Some((seq![s.take(32)] + items, 32 + c)),
            None => None,
        }
    } else {
        None
    }
}

/// Decode a given number of 64-byte signatures.
pub open spec fn dec_sig_items(s: Seq<u8>, n: nat) -> Option<(Seq<Seq<u8>>, int)>
    decreases n,
{
    if n == 0 {
        Some((Seq::empty(), 0))
    } else if s.len() >= 64 {
        match dec_sig_items(s.skip(64), (n - 1) as nat) {
            Some((items, c)) => Some((seq![s.take(64)] + items, 64 + c)),
            None => None,
        }
    } else {
        None
    }
}

/// Decode a signed tree from the front of a byte string.
pub open spec fn dec_signed_tree(s: Seq<u8>) -> Option<(SignedVtxoTreeV, int)> {
    if s.len() >= 128 {
        let expiry = u64_of_le(s.subrange(64, 72));
        let delta = u64_of_le(s.subrange(72, 80));
        match crate::codec::dec_outpoint(s.skip(80)) {
            Some((utxo, c0)) => {
                let s1 = s.skip(80 + c0);
                if expiry < 0x1_0000_0000 && delta < 0x1_0000 && s1.len() >= 8 {
                    let n_vtxos = u64_of_le(s1.take(8));
                    match dec_request_items(s1.skip(8), n_vtxos as nat) {
                        Some((vtxos, c1)) => {
                            let s2 = s1.skip(8 + c1);
                            if s2.len() >= 8 {
                                let n_keys = u64_of_le(s2.take(8));
                                match dec_key_items(s2.skip(8), n_keys as nat) {
                                    Some((keys, c2)) => {
                                        let s3 = s2.skip(8 + c2);
                                        if s3.len() >= 8 {
                                            let n_sigs = u64_of_le(s3.take(8));
                                            match dec_sig_items(s3.skip(8), n_sigs as nat) {
                                                Some((sigs, c3)) => Some((
                                                    SignedVtxoTreeV {
                                                        spec: VtxoTreeSpecV {
                                                            vtxos,
                                                            cosign_agg_pk: s.take(32),
                                                            asp_pk: s.subrange(32, 64),
                                                            expiry_height: expiry as u32,
                                                            exit_delta: delta as u16,
                                                        },
                                                        utxo,
                                                        cosign_keys: keys,
                                                        signatures: sigs,
                                                    },
                                                    80 + c0 + 8 + c1 + 8 + c2 + 8 + c3,
                                                )),
                                                None => None,
                                            }
                                        } else {
                                            None
                                        }
                                    },
                                    None => None,
                                }
                            } else {
                                None
                            }
                        },
                        None => None,
                    }
                } else {
                    None
                }
            },
            None => None,
        }
    } else {
        None
    }
}

/// Decoding the concatenated encodings of leaf requests yields them
/// back.
pub proof fn lemma_rt_request_items(items: Seq<VtxoRequestV>, rest: Seq<u8>)
    requires
        forall|j: int| 0 <= j < items.len() ==> {
            &&& (#[trigger] items[j]).pubkey.len() == 32
            &&& items[j].cosign_pk.len() == 32
        },
    ensures
        dec_request_items(enc_request_items(items) + rest, items.len())
            == Some((items, enc_request_items(items).len() as int)),
    decreases items.len(),
{
    let s = enc_request_items(items) + rest;
    if items.len() == 0 {
        assert(dec_request_items(s, 0) == Some((Seq::<VtxoRequestV>::empty(), 0int)));
        assert(items =~= Seq::<VtxoRequestV>::empty());
    } else {
        let x = items[0];
        let tail = enc_request_items(items.drop_first()) + rest;
        assert(s =~= enc_request(x) + tail);
        crate::bytes::lemma_u64_le_roundtrip(x.amount);
        assert(s.take(32) =~= x.pubkey);
        assert(s.subrange(32, 64) =~= x.cosign_pk);
        assert(s.subrange(64, 72) =~= u64_le(x.amount));
        assert(s.skip(72) =~= tail);
        lemma_rt_request_items(items.drop_first(), rest);
        let (got, c) = dec_request_items(s, items.len()).unwrap();
        assert(got =~= items);
    }
}

/// Decoding the concatenated keys yields them back.
pub proof fn lemma_rt_key_items(items: Seq<Seq<u8>>, rest: Seq<u8>)
    requires
        forall|j: int| 0 <= j < items.len() ==> (#[trigger] items[j]).len() == 32,
    ensures
        dec_key_items(enc_key_items(items) + rest, items.len())
            == Some((items, enc_key_items(items).len() as int)),
    decreases items.len(),
{
    let s = enc_key_items(items) + rest;
    if items.len() == 0 {
        assert(dec_key_items(s, 0) == Some((Seq::<Seq<u8>>::empty(), 0int)));
        assert(items =~= Seq::<Seq<u8>>::empty());
    } else {
        let tail = enc_key_items(items.drop_first()) + rest;
        assert(s =~= items[0] + tail);
        assert(s.take(32) =~= items[0]);
        assert(s.skip(32) =~= tail);
        lemma_rt_key_items(items.drop_first(), rest);
        let (got, c) = dec_key_items(s, items.len()).unwrap();
        assert(got =~= items);
    }
}

/// Decoding the concatenated signatures yields them back.
pub proof fn lemma_rt_sig_items(items: Seq<Seq<u8>>, rest: Seq<u8>)
    requires
        forall|j: int| 0 <= j < items.len() ==> (#[trigger] items[j]).len() == 64,
    ensures
        dec_sig_items(enc_sig_items(items) + rest, items.len())
            == Some((items, enc_sig_items(items).len() as int)),
    decreases items.len(),
{
    let s = enc_sig_items(items) + rest;
    if items.len() == 0 {
        assert(dec_sig_items(s, 0) == Some((Seq::<Seq<u8>>::empty(), 0int)));
        assert(items =~= Seq::<Seq<u8>>::empty());
    } else {
        let tail = enc_sig_items(items.drop_first()) + rest;
        assert(s =~= items[0] + tail);
        assert(s.take(64) =~= items[0]);
        assert(s.skip(64) =~= tail);
        lemma_rt_sig_items(items.drop_first(), rest);
        let (got, c) = dec_sig_items(s, items.len()).unwrap();
        assert(got =~= items);
    }
}

/// Decoding the encoding of a signed tree yields it back.
#[verifier::rlimit(100)]
pub proof fn lemma_rt_signed_tree(t: SignedVtxoTreeV, rest: Seq<u8>)
    requires
        t.spec.cosign_agg_pk.len() == 32,
        t.spec.asp_pk.len() == 32,
        crate::codec::wf_outpoint(t.utxo),
        crate::codec::fits_u64(t.spec.vtxos.len()),
        crate::codec::fits_u64(t.cosign_keys.len()),
        crate::codec::fits_u64(t.signatures.len()),
        forall|j: int| 0 <= j < t.spec.vtxos.len() ==> {
            &&& (#[trigger] t.spec.vtxos[j]).pubkey.len() == 32
            &&& t.spec.vtxos[j].cosign_pk.len() == 32
        },
        forall|j: int| 0 <= j < t.cosign_keys.len()
            ==> (#[trigger] t.cosign_keys[j]).len() == 32,
        forall|j: int| 0 <= j < t.signatures.len()
            ==> (#[trigger] t.signatures[j]).len() == 64,
    ensures
        dec_signed_tree(enc_signed_tree(t) + rest)
            == Some((t, enc_signed_tree(t).len() as int)),
{
    let s = enc_signed_tree(t) + rest;
    crate::bytes::lemma_u64_le_roundtrip(t.spec.expiry_height as u64);
    crate::bytes::lemma_u64_le_roundtrip(t.spec.exit_delta as u64);
    assert(s.take(32) =~= t.spec.cosign_agg_pk);
    assert(s.subrange(32, 64) =~= t.spec.asp_pk);
    assert(s.subrange(64, 72) =~= u64_le(t.spec.expiry_height as u64));
    assert(s.subrange(72, 80) =~= u64_le(t.spec.exit_delta as u64));
    let tail0 = u64_le(t.spec.vtxos.len() as u64) + (enc_request_items(t.spec.vtxos)
        + (u64_le(t.cosign_keys.len() as u64) + (enc_key_items(t.cosign_keys)
        + (u64_le(t.signatures.len() as u64) + (enc_sig_items(t.signatures) + rest)))));
    assert(s.skip(80) =~= crate::codec::enc_outpoint(t.utxo) + tail0);
    crate::codec::lemma_rt_outpoint(t.utxo, tail0);
    let c0 = crate::codec::enc_outpoint(t.utxo).len() as int;
    let s1 = s.skip(80 + c0);
    assert(s1 =~= tail0);
    crate::codec::lemma_read_count(
        s1,
        t.spec.vtxos.len() as u64,
        enc_request_items(t.spec.vtxos)
            + (u64_le(t.cosign_keys.len() as u64) + (enc_key_items(t.cosign_keys)
            + (u64_le(t.signatures.len() as u64) + (enc_sig_items(t.signatures) + rest)))),
    );
    let tail1 = u64_le(t.cosign_keys.len() as u64) + (enc_key_items(t.cosign_keys)
        + (u64_le(t.signatures.len() as u64) + (enc_sig_items(t.signatures) + rest)));
    assert(s1.skip(8) =~= enc_request_items(t.spec.vtxos) + tail1);
    lemma_rt_request_items(t.spec.vtxos, tail1);
    let c1 = enc_request_items(t.spec.vtxos).len() as int;
    let s2 = s1.skip(8 + c1);
    assert(s2 =~= tail1);
    crate::codec::lemma_read_count(
        s2,
        t.cosign_keys.len() as u64,
        enc_key_items(t.cosign_keys)
            + (u64_le(t.signatures.len() as u64) + (enc_sig_items(t.signatures) + rest)),
    );
    let tail2 = u64_le(t.signatures.len() as u64) + (enc_sig_items(t.signatures) + rest);
    assert(s2.skip(8) =~= enc_key_items(t.cosign_keys) + tail2);
    lemma_rt_key_items(t.cosign_keys, tail2);
    let c2 = enc_key_items(t.cosign_keys).len() as int;
    let s3 = s2.skip(8 + c2);
    assert(s3 =~= tail2);
    crate::codec::lemma_read_count(
        s3, t.signatures.len() as u64, enc_sig_items(t.signatures) + rest,
    );
    assert(s3.skip(8) =~= enc_sig_items(t.signatures) + rest);
    lemma_rt_sig_items(t.signatures, rest);
    let (q, c) = dec_signed_tree(s).unwrap();
    assert(q =~= t);
    assert(c == enc_signed_tree(t).len());
}

impl SignedVtxoTree {
    /// The canonical encoding of this signed tree.
    pub fn encode(&self) -> (r: Vec<u8>)
        ensures
            r@ == enc_signed_tree(self@),
    {
        let mut out: Vec<u8> = Vec::new();
        push_bytes(&mut out, &self.spec.cosign_agg_pk);
        push_bytes(&mut out, &self.spec.asp_pk);
        push_u64(&mut out, self.spec.expiry_height as u64);
        push_u64(&mut out, self.spec.exit_delta as u64);
        crate::wire::encode_outpoint(&mut out, &self.utxo);
        push_u64(&mut out, self.spec.vtxos.len() as u64);
        let ghost reqs = self@.spec.vtxos;
        let mut i: usize = 0;
        let ghost mid1 = out@;
        while i < self.spec.vtxos.len()
            invariant
                0 <= i <= self.spec.vtxos@.len(),
                reqs == self.spec.vtxos@.map_values(|x: VtxoRequest| x@),
                out@ == mid1 + enc_request_items(reqs.take(i as int)),
            decreases self.spec.vtxos@.len() - i,
        {
            let ghost pre = reqs.take(i as int);
            let x = &self.spec.vtxos[i];
            push_bytes(&mut out, &x.pubkey);
            push_bytes(&mut out, &x.cosign_pk);
            push_u64(&mut out, x.amount);
            proof {
                assert(reqs.take(i as int + 1) =~= pre.push(reqs[i as int]));
                lemma_enc_request_items_push(pre, reqs[i as int]);
                assert(out@ =~= mid1 + enc_request_items(reqs.take(i as int + 1)));
            }
            i += 1;
        }
        proof {
            assert(reqs.take(reqs.len() as int) =~= reqs);
        }
        push_u64(&mut out, self.cosign_keys.len() as u64);
        let ghost keys = self@.cosign_keys;
        let mut j: usize = 0;
        let ghost mid2 = out@;
        while j < self.cosign_keys.len()
            invariant
                0 <= j <= self.cosign_keys@.len(),
                keys == self.cosign_keys@.map_values(|x: [u8; 32]| x@),
                out@ == mid2 + enc_key_items(keys.take(j as int)),
            decreases self.cosign_keys@.len() - j,
        {
            let ghost pre = keys.take(j as int);
            push_bytes(&mut out, &self.cosign_keys[j]);
            proof {
                assert(keys.take(j as int + 1) =~= pre.push(keys[j as int]));
                lemma_enc_key_items_push(pre, keys[j as int]);
                assert(out@ =~= mid2 + enc_key_items(keys.take(j as int + 1)));
            }
            j += 1;
        }
        proof {
            assert(keys.take(keys.len() as int) =~= keys);
        }
        push_u64(&mut out, self.signatures.len() as u64);
        let ghost sigs = self@.signatures;
        let mut k: usize = 0;
        let ghost mid3 = out@;
        while k < self.signatures.len()
            invariant
                0 <= k <= self.signatures@.len(),
                sigs == self.signatures@.map_values(|x: [u8; 64]| x@),
                out@ == mid3 + enc_sig_items(sigs.take(k as int)),
            decreases self.signatures@.len() - k,
        {
            let ghost pre = sigs.take(k as int);
            push_bytes(&mut out, &self.signatures[k]);
            proof {
                assert(sigs.take(k as int + 1) =~= pre.push(sigs[k as int]));
                lemma_enc_sig_items_push(pre, sigs[k as int]);
                assert(out@ =~= mid3 + enc_sig_items(sigs.take(k as int + 1)));
            }
            k += 1;
        }
        proof {
            assert(sigs.take(sigs.len() as int) =~= sigs);
            assert(out@ =~= enc_signed_tree(self@));
        }
        out
    }

    /// Decode a signed tree from a buffer holding exactly one encoded
    /// tree.
    pub fn decode(buf: &[u8]) -> (r: Option<SignedVtxoTree>)
        ensures
            match r {
                Some(t) => dec_signed_tree(buf@) == Some((t@, buf@.len() as int)),
                None => dec_signed_tree(buf@) is None
                    || dec_signed_tree(buf@).unwrap().1 != buf@.len(),
            },
    {
        let ghost s = buf@;
        if buf.len() < 128 {
            return None;
        }
        let cosign_agg_pk: [u8; 32] = read_bytes(buf, 0);
        let asp_pk: [u8; 32] = read_bytes(buf, 32);
        let expiry = read_u64(buf, 64);
        let delta = read_u64(buf, 72);
        proof {
            assert(s.take(32) =~= buf@.subrange(0, 32));
            assert(s.skip(80) =~= buf@.skip(80));
        }
        if !(expiry < 0x1_0000_0000 && delta < 0x1_0000) {
            return None;
        }
        let (utxo, p0) = match crate::wire::decode_outpoint(buf, 80) {
            Some(x) => x,
            None => {
                return None;
            },
        };
        proof {
            assert(buf@.skip(p0 as int) =~= s.skip(80 + (p0 - 80)));
        }
        if buf.len() - p0 < 8 {
            return None;
        }
        let n_vtxos = read_u64(buf, p0);
        proof {
            assert(s.skip(80 + (p0 - 80)).take(8) =~= buf@.subrange(p0 as int, p0 + 8));
            assert(s.skip(80 + (p0 - 80)).skip(8) =~= buf@.skip(p0 + 8));
        }
        let ghost s1g = s.skip(80 + (p0 - 80 as int));
        proof {
            assert(s1g =~= buf@.skip(p0 as int));
        }
        let (vtxos, p1) = match Self::decode_requests(buf, p0 + 8, n_vtxos) {
            Some(x) => x,
            None => {
                return None;
            },
        };
        let ghost s2g = s1g.skip(8 + (p1 - (p0 + 8) as int));
        proof {
            assert(s2g =~= buf@.skip(p1 as int));
        }
        if buf.len() - p1 < 8 {
            return None;
        }
        let n_keys = read_u64(buf, p1);
        proof {
            assert(s2g.take(8) =~= buf@.subrange(p1 as int, p1 + 8));
            assert(s2g.skip(8) =~= buf@.skip(p1 + 8));
        }
        let (cosign_keys, p2) = match Self::decode_keys(buf, p1 + 8, n_keys) {
            Some(x) => x,
            None => {
                return None;
            },
        };
        let ghost s3g = s2g.skip(8 + (p2 - (p1 + 8) as int));
        proof {
            assert(s3g =~= buf@.skip(p2 as int));
        }
        if buf.len() - p2 < 8 {
            return None;
        }
        let n_sigs = read_u64(buf, p2);
        proof {
            assert(s3g.take(8) =~= buf@.subrange(p2 as int, p2 + 8));
            assert(s3g.skip(8) =~= buf@.skip(p2 + 8));
        }
        let (signatures, p3) = match Self::decode_sigs(buf, p2 + 8, n_sigs) {
            Some(x) => x,
            None => {
                return None;
            },
        };
        if p3 != buf.len() {
            proof {
                assert(dec_signed_tree(s) matches Some(pair)
                    && pair.1 == 80 + (p0 - 80) + 8 + (p1 - (p0 + 8))
                        + 8 + (p2 - (p1 + 8)) + 8 + (p3 - (p2 + 8)));
            }
            return None;
        }
        let t = SignedVtxoTree {
            spec: VtxoTreeSpec {
                vtxos,
                cosign_agg_pk,
                asp_pk,
                expiry_height: expiry as u32,
                exit_delta: delta as u16,
            },
            utxo,
            cosign_keys,
            signatures,
        };
        proof {
            assert(t@ =~= dec_signed_tree(s).unwrap().0);
        }
        Some(t)
    }

    /// Decode a given number of leaf requests at the given position.
    fn decode_requests(buf: &[u8], pos: usize, n: u64) -> (r: Option<(
        Vec<VtxoRequest>,
        usize,
    )>)
        requires
            pos <= buf@.len(),
        ensures
            match r {
                Some(pair) => {
                    &&& dec_request_items(buf@.skip(pos as int), n as nat)
                        == Some((
                            pair.0@.map_values(|x: VtxoRequest| x@),
                            pair.1 - pos as int,
                        ))
                    &&& pos <= pair.1 <= buf@.len()
                },
                None => dec_request_items(buf@.skip(pos as int), n as nat) is None,
            },
        decreases n,
    {
        let ghost s = buf@.skip(pos as int);
        if n == 0 {
            let items: Vec<VtxoRequest> = Vec::new();
            proof {
                assert(items@.map_values(|x: VtxoRequest| x@)
                    =~= Seq::<VtxoRequestV>::empty());
            }
            return Some((items, pos));
        }
        if buf.len() - pos < 72 {
            return None;
        }
        let pubkey: [u8; 32] = read_bytes(buf, pos);
        let cosign_pk: [u8; 32] = read_bytes(buf, pos + 32);
        let amount = read_u64(buf, pos + 64);
        proof {
            assert(s.take(32) =~= buf@.subrange(pos as int, pos + 32));
            assert(s.subrange(32, 64) =~= buf@.subrange(pos + 32, pos + 64));
            assert(s.subrange(64, 72) =~= buf@.subrange(pos + 64, pos + 72));
            assert(buf@.skip(pos + 72) =~= s.skip(72));
        }
        let item = VtxoRequest { pubkey, cosign_pk, amount };
        match Self::decode_requests(buf, pos + 72, n - 1) {
            Some((mut items, p2)) => {
                let ghost tail_views = items@.map_values(|x: VtxoRequest| x@);
                items.insert(0, item);
                proof {
                    assert(items@.map_values(|x: VtxoRequest| x@)
                        =~= seq![item@] + tail_views);
                    assert(item@ =~= (VtxoRequestV {
                        pubkey: s.take(32),
                        cosign_pk: s.subrange(32, 64),
                        amount,
                    }));
                }
                Some((items, p2))
            },
            None => None,
        }
    }

    /// Decode a given number of keys at the given position.
    fn decode_keys(buf: &[u8], pos: usize, n: u64) -> (r: Option<(Vec<[u8; 32]>, usize)>)
        requires
            pos <= buf@.len(),
        ensures
            match r {
                Some(pair) => {
                    &&& dec_key_items(buf@.skip(pos as int), n as nat)
                        == Some((
                            pair.0@.map_values(|x: [u8; 32]| x@),
                            pair.1 - pos as int,
                        ))
                    &&& pos <= pair.1 <= buf@.len()
                },
                None => dec_key_items(buf@.skip(pos as int), n as nat) is None,
            },
        decreases n,
    {
        let ghost s = buf@.skip(pos as int);
        if n == 0 {
            let items: Vec<[u8; 32]> = Vec::new();
            proof {
                assert(items@.map_values(|x: [u8; 32]| x@) =~= Seq::<Seq<u8>>::empty());
            }
            return Some((items, pos));
        }
        if buf.len() - pos < 32 {
            return None;
        }
        let key: [u8; 32] = read_bytes(buf, pos);
        proof {
            assert(s.take(32) =~= buf@.subrange(pos as int, pos + 32));
            assert(buf@.skip(pos + 32) =~= s.skip(32));
        }
        match Self::decode_keys(buf, pos + 32, n - 1) {
            Some((mut items, p2)) => {
                let ghost tail_views = items@.map_values(|x: [u8; 32]| x@);
                items.insert(0, key);
                proof {
                    assert(items@.map_values(|x: [u8; 32]| x@)
                        =~= seq![key@] + tail_views);
                }
                Some((items, p2))
            },
            None => None,
        }
    }

    /// Decode a given number of signatures at the given position.
    fn decode_sigs(buf: &[u8], pos: usize, n: u64) -> (r: Option<(Vec<[u8; 64]>, usize)>)
        requires
            pos <= buf@.len(),
        ensures
            match r {
                Some(pair) => {
                    &&& dec_sig_items(buf@.skip(pos as int), n as nat)
                        == Some((
                            pair.0@.map_values(|x: [u8; 64]| x@),
                            pair.1 - pos as int,
                        ))
                    &&& pos <= pair.1 <= buf@.len()
                },
                None => dec_sig_items(buf@.skip(pos as int), n as nat) is None,
            },
        decreases n,
    {
        let ghost s = buf@.skip(pos as int);
        if n == 0 {
            let items: Vec<[u8; 64]> = Vec::new();
            proof {
                assert(items@.map_values(|x: [u8; 64]| x@) =~= Seq::<Seq<u8>>::empty());
            }
            return Some((items, pos));
        }
        if buf.len() - pos < 64 {
            return None;
        }
        let sig: [u8; 64] = read_bytes(buf, pos);
        proof {
            assert(s.take(64) =~= buf@.subrange(pos as int, pos + 64));
            assert(buf@.skip(pos + 64) =~= s.skip(64));
        }
        match Self::decode_sigs(buf, pos + 64, n - 1) {
            Some((mut items, p2)) => {
                let ghost tail_views = items@.map_values(|x: [u8; 64]| x@);
                items.insert(0, sig);
                proof {
                    assert(items@.map_values(|x: [u8; 64]| x@)
                        =~= seq![sig@] + tail_views);
                }
                Some((items, p2))
            },
            None => None,
        }
    }
}

/// Appending one leaf request appends its encoding.
pub proof fn lemma_enc_request_items_push(s: Seq<VtxoRequestV>, x: VtxoRequestV)
    ensures
        enc_request_items(s.push(x)) == enc_request_items(s) + enc_request(x),
    decreases s.len(),
{
    if s.len() == 0 {
        assert(s.push(x)[0] == x);
        assert(s.push(x).drop_first() =~= s);
        assert(enc_request_items(s.push(x)) =~= enc_request_items(s) + enc_request(x));
    } else {
        assert(s.push(x).drop_first() =~= s.drop_first().push(x));
        lemma_enc_request_items_push(s.drop_first(), x);
        assert(enc_request_items(s.push(x)) =~= enc_request_items(s) + enc_request(x));
    }
}

/// Appending one key appends its bytes.
pub proof fn lemma_enc_key_items_push(s: Seq<Seq<u8>>, x: Seq<u8>)
    ensures
        enc_key_items(s.push(x)) == enc_key_items(s) + x,
    decreases s.len(),
{
    if s.len() == 0 {
        assert(s.push(x)[0] == x);
        assert(s.push(x).drop_first() =~= s);
        assert(enc_key_items(s.push(x)) =~= enc_key_items(s) + x);
    } else {
        assert(s.push(x).drop_first() =~= s.drop_first().push(x));
        lemma_enc_key_items_push(s.drop_first(), x);
        assert(enc_key_items(s.push(x)) =~= enc_key_items(s) + x);
    }
}

/// Appending one signature appends its bytes.
pub proof fn lemma_enc_sig_items_push(s: Seq<Seq<u8>>, x: Seq<u8>)
    ensures
        enc_sig_items(s.push(x)) == enc_sig_items(s) + x,
    decreases s.len(),
{
    if s.len() == 0 {
        assert(s.push(x)[0] == x);
        assert(s.push(x).drop_first() =~= s);
        assert(enc_sig_items(s.push(x)) =~= enc_sig_items(s) + x);
    } else {
        assert(s.push(x).drop_first() =~= s.drop_first().push(x));
        lemma_enc_sig_items_push(s.drop_first(), x);
        assert(enc_sig_items(s.push(x)) =~= enc_sig_items(s) + x);
    }
}

impl SignedVtxoTree {
    /// Accept this signed tree, or reject it: the tree is handed on
    /// exactly when every node's cosign signature verifies, so whatever
    /// a caller stores from here carries only verified signatures.
    pub fn into_accepted(self) -> (r: Option<SignedVtxoTree>)
        requires
            sum_ints(leaf_amounts(self.spec@)) <= u64::MAX,
            nb_tree_levels(leaf_amounts(self.spec@)) <= u64::MAX,
        ensures
            r is Some <==> tree_sigs_valid(self@),
            r is Some ==> r.unwrap()@ == self@,
    {
        if self.verify_cosign_sigs() {
            Some(self)
        } else {
            None
        }
    }
}

/// The encoding round trip for signed trees: decoding the canonical
/// encoding of any signed tree yields that tree back.
pub proof fn lemma_signed_tree_roundtrip(t: SignedVtxoTree)
    ensures
        dec_signed_tree(enc_signed_tree(t@))
            == Some((t@, enc_signed_tree(t@).len() as int)),
{
    assert(t.spec.vtxos.len() == t.spec.vtxos@.len());
    assert(t.cosign_keys.len() == t.cosign_keys@.len());
    assert(t.signatures.len() == t.signatures@.len());
    assert forall|j: int| 0 <= j < t@.spec.vtxos.len()
        implies ((#[trigger] t@.spec.vtxos[j]).pubkey.len() == 32
            && t@.spec.vtxos[j].cosign_pk.len() == 32) by {
        assert(t@.spec.vtxos[j] == t.spec.vtxos@[j]@);
    }
    assert forall|j: int| 0 <= j < t@.cosign_keys.len()
        implies (#[trigger] t@.cosign_keys[j]).len() == 32 by {
        assert(t@.cosign_keys[j] == t.cosign_keys@[j]@);
    }
    assert forall|j: int| 0 <= j < t@.signatures.len()
        implies (#[trigger] t@.signatures[j]).len() == 64 by {
        assert(t@.signatures[j] == t.signatures@[j]@);
    }
    lemma_rt_signed_tree(t@, Seq::empty());
    assert(enc_signed_tree(t@) + Seq::<u8>::empty() =~= enc_signed_tree(t@));
}

impl SignedVtxoTree {
    /// Verify the cosign signatures of every node of the tree: exactly
    /// one signature per node, each verifying under the node's cosign
    /// aggregate key for the node's sighash.
    pub fn verify_cosign_sigs(&self) -> (r: bool)
        requires
            sum_ints(leaf_amounts(self.spec@)) <= u64::MAX,
            nb_tree_levels(leaf_amounts(self.spec@)) <= u64::MAX,
        ensures
            r == tree_sigs_valid(self@),
    {
        let mut values: Vec<u64> = Vec::new();
        let mut i: usize = 0;
        while i < self.spec.vtxos.len()
            invariant
                0 <= i <= self.spec.vtxos@.len(),
                values@.len() == i,
                forall|k: int| 0 <= k < i
                    ==> values@[k] == self.spec.vtxos@[k].amount,
            decreases self.spec.vtxos@.len() - i,
        {
            values.push(self.spec.vtxos[i].amount);
            i += 1;
        }
        proof {
            assert(values@.map_values(|x: u64| x as int) =~= leaf_amounts(self.spec@));
            assert(self.cosign_keys@.map_values(|k: [u8; 32]| k@).skip(0)
                =~= self.cosign_keys@.map_values(|k: [u8; 32]| k@));
            assert(self.signatures@.map_values(|s: [u8; 64]| s@).skip(0)
                =~= self.signatures@.map_values(|s: [u8; 64]| s@));
        }
        verify_from(&self.utxo, values, &self.cosign_keys, &self.signatures, 0, 0)
    }
}

} // verus!
