//! The service provider's VTXO table: every VTXO the provider knows,
//! keyed by id, with the owner key, amount, expiry, and whether it has
//! been spent. Registration is idempotent; spending is a checked,
//! atomic, all-or-nothing marking.

use vstd::prelude::*;
use crate::vtxo::{VtxoId, OutPointV};

verus! {

/// One table entry: what the provider records of a VTXO.
#[derive(Clone, Copy)]
pub struct StoredVtxo {
    pub id: VtxoId,
    pub user_pubkey: [u8; 32],
    pub amount: u64,
    pub expiry_height: u32,
    pub spent: bool,
}

/// The view of a table entry (without its key).
#[verifier::ext_equal]
pub ghost struct StoredVtxoV {
    pub user_pubkey: Seq<u8>,
    pub amount: u64,
    pub expiry_height: u32,
    pub spent: bool,
}

impl View for StoredVtxo {
    type V = StoredVtxoV;

    open spec fn view(&self) -> StoredVtxoV {
        StoredVtxoV {
            user_pubkey: self.user_pubkey@,
            amount: self.amount,
            expiry_height: self.expiry_height,
            spent: self.spent,
        }
    }
}

/// The map a list of entries makes; later entries override earlier
/// ones (the store never holds two entries with one id).
pub open spec fn store_map(s: Seq<StoredVtxo>) -> Map<OutPointV, StoredVtxoV>
    decreases s.len(),
{
    if s.len() == 0 {
        Map::empty()
    } else {
        store_map(s.drop_last()).insert(s.last().id@, s.last()@)
    }
}

/// A key is in the map exactly when some entry carries it.
pub proof fn lemma_store_map_key(s: Seq<StoredVtxo>, x: OutPointV)
    ensures
        store_map(s).contains_key(x)
            <==> exists|i: int| 0 <= i < s.len() && (#[trigger] s[i]).id@ == x,
    decreases s.len(),
{
    if s.len() > 0 {
        lemma_store_map_key(s.drop_last(), x);
        if x == s.last().id@ {
            assert(s[s.len() - 1].id@ == x);
        } else {
            if store_map(s).contains_key(x) {
                let i = choose|i: int| 0 <= i < s.drop_last().len()
                    && (#[trigger] s.drop_last()[i]).id@ == x;
                assert(s[i].id@ == x);
            }
            if exists|i: int| 0 <= i < s.len() && (#[trigger] s[i]).id@ == x {
                let i = choose|i: int| 0 <= i < s.len() && (#[trigger] s[i]).id@ == x;
                assert(s.drop_last()[i].id@ == x);
            }
        }
    }
}

/// Entries with pairwise distinct ids.
pub open spec fn distinct_entries(s: Seq<StoredVtxo>) -> bool {
    forall|i: int, j: int| 0 <= i < j < s.len()
        ==> (#[trigger] s[i]).id@ != (#[trigger] s[j]).id@
}

/// In a store with distinct ids, each entry is its id's map value.
pub proof fn lemma_store_map_at(s: Seq<StoredVtxo>, i: int)
    requires
        distinct_entries(s),
        0 <= i < s.len(),
    ensures
        store_map(s).contains_key(s[i].id@),
        store_map(s)[s[i].id@] == s[i]@,
    decreases s.len(),
{
    if i == s.len() - 1 {
    } else {
        assert(distinct_entries(s.drop_last())) by {
            assert(forall|k: int| 0 <= k < s.len() - 1
                ==> #[trigger] s.drop_last()[k] == s[k]);
        }
        lemma_store_map_at(s.drop_last(), i);
        assert(s.drop_last()[i] == s[i]);
        assert(s[i].id@ != s.last().id@);
    }
}

/// The provider's VTXO table.
pub struct VtxoStore {
    entries: Vec<StoredVtxo>,
}

impl View for VtxoStore {
    type V = Map<OutPointV, StoredVtxoV>;

    /// The abstract state of the table: a map from id to entry.
    closed spec fn view(&self) -> Map<OutPointV, StoredVtxoV> {
        store_map(self.entries@)
    }
}

impl VtxoStore {
    /// Well-formed: no id appears twice.
    pub closed spec fn wf(&self) -> bool {
        distinct_entries(self.entries@)
    }

    /// An empty table.
    pub fn new() -> (r: VtxoStore)
        ensures
            r@ == Map::<OutPointV, StoredVtxoV>::empty(),
            r.wf(),
    {
        VtxoStore { entries: Vec::new() }
    }

    /// The position of an id in the table, if present.
    fn find(&self, id: &VtxoId) -> (r: Option<usize>)
        requires
            self.wf(),
        ensures
            match r {
                Some(i) => {
                    &&& 0 <= i < self.entries@.len()
                    &&& self.entries@[i as int].id@ == id@
                    &&& self@.contains_key(id@)
                    &&& self@[id@] == self.entries@[i as int]@
                },
                None => !self@.contains_key(id@),
            },
    {
        let mut i: usize = 0;
        while i < self.entries.len()
            invariant
                self.wf(),
                0 <= i <= self.entries@.len(),
                forall|j: int| 0 <= j < i ==> (#[trigger] self.entries@[j]).id@ != id@,
            decreases self.entries@.len() - i,
        {
            if self.entries[i].id.eq_id(id) {
                proof {
                    lemma_store_map_at(self.entries@, i as int);
                }
                return Some(i);
            }
            i += 1;
        }
        proof {
            lemma_store_map_key(self.entries@, id@);
        }
        None
    }

    /// Look an id up.
    pub fn get(&self, id: &VtxoId) -> (r: Option<StoredVtxo>)
        requires
            self.wf(),
        ensures
            match r {
                Some(v) => self@.contains_key(id@) && self@[id@] == v@ && v.id@ == id@,
                None => !self@.contains_key(id@),
            },
    {
        match self.find(id) {
            Some(i) => Some(self.entries[i]),
            None => None,
        }
    }

    /// Register a VTXO. Registration is idempotent: an id that is
    /// already in the table leaves the table exactly as it was, and no
    /// error is reported.
    pub fn register(&mut self, v: StoredVtxo)
        requires
            old(self).wf(),
        ensures
            final(self).wf(),
            final(self)@ == spec_register(old(self)@, v.id@, v@),
    {
        match self.find(&v.id) {
            Some(_) => {},
            None => {
                proof {
                    lemma_store_map_key(self.entries@, v.id@);
                    assert(self.entries@.push(v).drop_last() =~= self.entries@);
                    assert forall|i: int, j: int|
                        0 <= i < j < self.entries@.push(v).len()
                        implies (#[trigger] self.entries@.push(v)[i]).id@
                            != (#[trigger] self.entries@.push(v)[j]).id@ by {
                        if j == self.entries@.len() {
                            if self.entries@[i].id@ == v.id@ {
                                lemma_store_map_key(self.entries@, v.id@);
                            }
                        }
                    }
                }
                self.entries.push(v);
            },
        }
    }

    /// Atomically mark a whole batch of ids spent, or nothing: the
    /// first id that is unknown or already spent aborts the call with
    /// that id, and the table is exactly as it was.
    pub fn mark_spent_checked(&mut self, ids: &Vec<VtxoId>) -> (r: Result<(), VtxoId>)
        requires
            old(self).wf(),
        ensures
            final(self).wf(),
            match r {
                Ok(()) => {
                    &&& forall|i: int| 0 <= i < ids@.len() ==> {
                        &&& old(self)@.contains_key((#[trigger] ids@[i])@)
                        &&& !old(self)@[ids@[i]@].spent
                    }
                    &&& final(self)@ == spec_mark_spent(old(self)@, ids@.map_values(|x: VtxoId| x@))
                    &&& forall|x: OutPointV| final(self)@.contains_key(x)
                        == old(self)@.contains_key(x)
                },
                Err(dup) => {
                    &&& final(self)@ == old(self)@
                    &&& exists|i: int| 0 <= i < ids@.len() && (#[trigger] ids@[i])@ == dup@
                    &&& (!old(self)@.contains_key(dup@) || old(self)@[dup@].spent)
                },
            },
    {
        // first pass: check every id is known and unspent
        let mut k: usize = 0;
        while k < ids.len()
            invariant
                old(self) == self,
                self.wf(),
                0 <= k <= ids@.len(),
                forall|i: int| 0 <= i < k ==> {
                    &&& self@.contains_key((#[trigger] ids@[i])@)
                    &&& !self@[ids@[i]@].spent
                },
            decreases ids@.len() - k,
        {
            let id = ids[k];
            match self.get(&id) {
                Some(v) => {
                    if v.spent {
                        return Err(id);
                    }
                },
                None => {
                    return Err(id);
                },
            }
            k += 1;
        }
        // second pass: mark them all
        let ghost m0 = self@;
        let mut k: usize = 0;
        while k < ids.len()
            invariant
                0 <= k <= ids@.len(),
                self.wf(),
                self.entries@.len() == old(self).entries@.len(),
                forall|i: int| 0 <= i < ids@.len() ==> {
                    &&& m0.contains_key((#[trigger] ids@[i])@)
                    &&& !m0[ids@[i]@].spent
                },
                forall|x: OutPointV| self@.contains_key(x) == m0.contains_key(x),
                self@ == spec_mark_spent(m0, ids@.map_values(|x: VtxoId| x@).take(k as int)),
                m0 == old(self)@,
            decreases ids@.len() - k,
        {
            let ghost views = ids@.map_values(|x: VtxoId| x@);
            let ghost pre_entries = self.entries@;
            let ghost pre_map = self@;
            let id = ids[k];
            match self.find(&id) {
                Some(i) => {
                    let mut e = self.entries[i];
                    e.spent = true;
                    self.entries[i] = e;
                    proof {
                        lemma_store_set(pre_entries, i as int, e);
                        assert(e.id@ == id@);
                        assert(self@ == pre_map.insert(id@, e@));
                        assert(views.take(k as int + 1).drop_last()
                            =~= views.take(k as int));
                        assert(views.take(k as int + 1).last() == views[k as int]);
                        assert(spec_mark_spent(m0, views.take(k as int + 1))
                            == spec_mark_spent(m0, views.take(k as int))
                                .insert(views[k as int], mark_one(m0[views[k as int]])));
                        assert(forall|j: int| 0 <= j < views.take(k as int).len()
                            ==> m0.contains_key(#[trigger] views.take(k as int)[j]));
                        lemma_mark_spent_at(m0, views.take(k as int), id@);
                        assert(pre_map[id@] == mark_one_if(m0, views.take(k as int), id@));
                        assert(e@ =~= mark_one(m0[id@]));
                        assert(self@ =~= spec_mark_spent(m0, views.take(k as int + 1)));
                    }
                },
                None => {
                    proof {
                        assert(false);
                    }
                },
            }
            k += 1;
        }
        proof {
            let views = ids@.map_values(|x: VtxoId| x@);
            assert(views.take(views.len() as int) =~= views);
        }
        Ok(())
    }
}

/// The lookup a partially marked table gives: marked ids read as
/// spent, every other id as before, and no key appears or disappears.
pub proof fn lemma_mark_spent_at(
    m: Map<OutPointV, StoredVtxoV>,
    ids: Seq<OutPointV>,
    x: OutPointV,
)
    requires
        forall|i: int| 0 <= i < ids.len() ==> m.contains_key(#[trigger] ids[i]),
    ensures
        spec_mark_spent(m, ids).contains_key(x) == m.contains_key(x),
        m.contains_key(x) ==> spec_mark_spent(m, ids)[x] == mark_one_if(m, ids, x),
    decreases ids.len(),
{
    if ids.len() > 0 {
        assert(forall|i: int| 0 <= i < ids.drop_last().len()
            ==> m.contains_key(#[trigger] ids.drop_last()[i]));
        lemma_mark_spent_at(m, ids.drop_last(), x);
        assert(ids[ids.len() - 1] == ids.last());
        if x == ids.last() {
            assert(ids.contains(x));
        } else {
            if ids.drop_last().contains(x) {
                let i = choose|i: int| 0 <= i < ids.drop_last().len()
                    && ids.drop_last()[i] == x;
                assert(ids[i] == x);
                assert(ids.contains(x));
            }
            if ids.contains(x) {
                let i = choose|i: int| 0 <= i < ids.len() && ids[i] == x;
                assert(i < ids.len() - 1);
                assert(ids.drop_last()[i] == x);
                assert(ids.drop_last().contains(x));
            }
        }
    }
}

/// An entry, marked spent.
pub open spec fn mark_one(v: StoredVtxoV) -> StoredVtxoV {
    StoredVtxoV {
        user_pubkey: v.user_pubkey,
        amount: v.amount,
        expiry_height: v.expiry_height,
        spent: true,
    }
}

/// The value an id holds after part of a batch was marked.
pub open spec fn mark_one_if(
    m: Map<OutPointV, StoredVtxoV>,
    done: Seq<OutPointV>,
    x: OutPointV,
) -> StoredVtxoV {
    if done.contains(x) {
        mark_one(m[x])
    } else {
        m[x]
    }
}

/// The table after a whole batch of ids was marked spent.
pub open spec fn spec_mark_spent(
    m: Map<OutPointV, StoredVtxoV>,
    ids: Seq<OutPointV>,
) -> Map<OutPointV, StoredVtxoV>
    decreases ids.len(),
{
    if ids.len() == 0 {
        m
    } else {
        spec_mark_spent(m, ids.drop_last()).insert(ids.last(), mark_one(m[ids.last()]))
    }
}

/// Registration as a map transition: a present key leaves the map
/// unchanged.
pub open spec fn spec_register(
    m: Map<OutPointV, StoredVtxoV>,
    id: OutPointV,
    v: StoredVtxoV,
) -> Map<OutPointV, StoredVtxoV> {
    if m.contains_key(id) {
        m
    } else {
        m.insert(id, v)
    }
}

/// Idempotent board registration: registering the same VTXO twice
/// leaves exactly the table that registering it once leaves, with no
/// error either time.
pub proof fn lemma_register_idempotent(
    m: Map<OutPointV, StoredVtxoV>,
    id: OutPointV,
    v: StoredVtxoV,
)
    ensures
        spec_register(spec_register(m, id, v), id, v) == spec_register(m, id, v),
{
}

/// Replacing one entry updates the map at its key alone.
proof fn lemma_store_set(s: Seq<StoredVtxo>, i: int, e: StoredVtxo)
    requires
        distinct_entries(s),
        0 <= i < s.len(),
        e.id@ == s[i].id@,
    ensures
        distinct_entries(s.update(i, e)),
        store_map(s.update(i, e)) == store_map(s).insert(e.id@, e@),
    decreases s.len(),
{
    let s2 = s.update(i, e);
    assert(distinct_entries(s2)) by {
        assert(forall|k: int| 0 <= k < s.len()
            ==> (#[trigger] s2[k]).id@ == s[k].id@);
    }
    if i == s.len() - 1 {
        assert(s2.drop_last() =~= s.drop_last());
        assert(s2.last() == e);
        assert(store_map(s2) =~= store_map(s).insert(e.id@, e@));
    } else {
        assert(distinct_entries(s.drop_last())) by {
            assert(forall|k: int| 0 <= k < s.len() - 1
                ==> #[trigger] s.drop_last()[k] == s[k]);
        }
        assert(s2.drop_last() =~= s.drop_last().update(i, e));
        assert(s.drop_last()[i] == s[i]);
        lemma_store_set(s.drop_last(), i, e);
        assert(s2.last() == s.last());
        assert(s.last().id@ != e.id@);
        assert(store_map(s2)
            == store_map(s.drop_last()).insert(e.id@, e@).insert(s.last().id@, s.last()@));
        assert(store_map(s.drop_last()).insert(e.id@, e@).insert(s.last().id@, s.last()@)
            =~= store_map(s.drop_last()).insert(s.last().id@, s.last()@).insert(e.id@, e@));
    }
}

/// Why a board specification is rejected.
#[derive(Debug)]
pub enum BoardError {
    /// The specification names another provider.
    WrongAspKey,
    /// The specification already expired at the given tip.
    Expired,
    /// The specification's exit timelock is not the provider's.
    WrongExitDelta,
}

/// Validate a board specification against the provider's own key, the
/// chain tip, and the provider's exit timelock: accepted exactly when
/// the provider key matches, the expiry lies beyond the tip, and the
/// exit timelock is the configured one. Checks run in that order.
pub fn validate_board_spec(
    spec: &crate::vtxo::VtxoSpec,
    asp_pubkey: &[u8; 32],
    tip_height: u32,
    vtxo_exit_delta: u16,
) -> (r: Result<(), BoardError>)
    ensures
        r is Ok <==> {
            &&& spec.asp_pubkey@ == asp_pubkey@
            &&& spec.expiry_height >= tip_height
            &&& spec.exit_delta == vtxo_exit_delta
        },
        match r {
            Ok(()) => true,
            Err(e) => match e {
                BoardError::WrongAspKey => spec.asp_pubkey@ != asp_pubkey@,
                BoardError::Expired => spec.asp_pubkey@ == asp_pubkey@
                    && spec.expiry_height < tip_height,
                BoardError::WrongExitDelta => spec.asp_pubkey@ == asp_pubkey@
                    && spec.expiry_height >= tip_height
                    && spec.exit_delta != vtxo_exit_delta,
            },
        },
{
    if !crate::bytes::bytes_eq(&spec.asp_pubkey, asp_pubkey) {
        return Err(BoardError::WrongAspKey);
    }
    if spec.expiry_height < tip_height {
        return Err(BoardError::Expired);
    }
    if spec.exit_delta != vtxo_exit_delta {
        return Err(BoardError::WrongExitDelta);
    }
    Ok(())
}

/// Off-round exclusivity: once a transfer that spends an id has been
/// accepted, every later transfer over that id finds it spent, so the
/// checked marking returns that id as an error and changes nothing.
pub proof fn lemma_oor_double_spend(
    m0: Map<OutPointV, StoredVtxoV>,
    first: Seq<OutPointV>,
    shared: OutPointV,
)
    requires
        first.contains(shared),
        m0.contains_key(shared),
    ensures
        spec_mark_spent(m0, first).contains_key(shared),
        spec_mark_spent(m0, first)[shared].spent,
    decreases first.len(),
{
    if first.last() == shared {
    } else {
        assert(first.drop_last().contains(shared)) by {
            let i = choose|i: int| 0 <= i < first.len() && first[i] == shared;
            assert(first.drop_last()[i] == shared);
        }
        lemma_oor_double_spend(m0, first.drop_last(), shared);
    }
}

} // verus!
