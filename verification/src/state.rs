//! The client-side VTXO lifecycle: an unregistered board becomes
//! spendable once the provider accepts it, and spendable becomes spent.
//! The transition to a new state is a checked compare-and-set: it
//! happens only from an explicitly allowed old state.

use vstd::prelude::*;
use crate::vtxo::{VtxoId, OutPointV};

verus! {

/// The lifecycle state of a VTXO in the client's database.
#[derive(Clone, Copy, PartialEq, Eq, Structural, Debug)]
pub enum VtxoState {
    /// A board the provider has not accepted yet.
    UnregisteredBoard,
    /// Ready to spend.
    Spendable,
    /// Spent; kept for the ledger.
    Spent,
}

/// One tracked VTXO with its current state.
#[derive(Clone, Copy)]
pub struct VtxoStateEntry {
    pub id: VtxoId,
    pub state: VtxoState,
}

/// The map a list of entries makes.
pub open spec fn state_map(s: Seq<VtxoStateEntry>) -> Map<OutPointV, VtxoState>
    decreases s.len(),
{
    if s.len() == 0 {
        Map::empty()
    } else {
        state_map(s.drop_last()).insert(s.last().id@, s.last().state)
    }
}

/// A key is in the map exactly when some entry carries it.
pub proof fn lemma_state_map_key(s: Seq<VtxoStateEntry>, x: OutPointV)
    ensures
        state_map(s).contains_key(x)
            <==> exists|i: int| 0 <= i < s.len() && (#[trigger] s[i]).id@ == x,
    decreases s.len(),
{
    if s.len() > 0 {
        lemma_state_map_key(s.drop_last(), x);
        if x == s.last().id@ {
            assert(s[s.len() - 1].id@ == x);
        } else {
            if state_map(s).contains_key(x) {
                let i = choose|i: int| 0 <= i < s.drop_last().len()
                    && (#[trigger] s.drop_last()[i]).id@ == x;
                assert(s[i].id@ == x);
            }
            if exists|i: int| 0 <= i < s.len() && (#[trigger] s[i]).id@ == x {
                let i = choose|i: int| 0 <= i < s.len() && (#[trigger] s[i]).id@ == x;
                assert(s.drop_last()[i].id@ == x);
            }
        }
    }
}

/// Entries with pairwise distinct ids.
pub open spec fn distinct_states(s: Seq<VtxoStateEntry>) -> bool {
    forall|i: int, j: int| 0 <= i < j < s.len()
        ==> (#[trigger] s[i]).id@ != (#[trigger] s[j]).id@
}

/// In a distinct list, each entry is its id's map value.
pub proof fn lemma_state_map_at(s: Seq<VtxoStateEntry>, i: int)
    requires
        distinct_states(s),
        0 <= i < s.len(),
    ensures
        state_map(s).contains_key(s[i].id@),
        state_map(s)[s[i].id@] == s[i].state,
    decreases s.len(),
{
    if i < s.len() - 1 {
        assert(distinct_states(s.drop_last())) by {
            assert(forall|k: int| 0 <= k < s.len() - 1
                ==> #[trigger] s.drop_last()[k] == s[k]);
        }
        lemma_state_map_at(s.drop_last(), i);
        assert(s.drop_last()[i] == s[i]);
        assert(s[i].id@ != s.last().id@);
    }
}

/// The client's VTXO state table.
pub struct VtxoStateStore {
    entries: Vec<VtxoStateEntry>,
}

impl View for VtxoStateStore {
    type V = Map<OutPointV, VtxoState>;

    /// The abstract state: current state by id.
    closed spec fn view(&self) -> Map<OutPointV, VtxoState> {
        state_map(self.entries@)
    }
}

impl VtxoStateStore {
    /// Well-formed: one entry per id.
    pub closed spec fn wf(&self) -> bool {
        distinct_states(self.entries@)
    }

    /// An empty table.
    pub fn new() -> (r: VtxoStateStore)
        ensures
            r@ == Map::<OutPointV, VtxoState>::empty(),
            r.wf(),
    {
        VtxoStateStore { entries: Vec::new() }
    }

    /// The position of an id, if present.
    fn find(&self, id: &VtxoId) -> (r: Option<usize>)
        requires
            self.wf(),
        ensures
            match r {
                Some(i) => {
                    &&& 0 <= i < self.entries@.len()
                    &&& self.entries@[i as int].id@ == id@
                    &&& self@.contains_key(id@)
                    &&& self@[id@] == self.entries@[i as int].state
                },
                None => !self@.contains_key(id@),
            },
    {
        let mut i: usize = 0;
        while i < self.entries.len()
            invariant
                self.wf(),
                0 <= i <= self.entries@.len(),
                forall|j: int| 0 <= j < i ==> (#[trigger] self.entries@[j]).id@ != id@,
            decreases self.entries@.len() - i,
        {
            if self.entries[i].id.eq_id(id) {
                proof {
                    lemma_state_map_at(self.entries@, i as int);
                }
                return Some(i);
            }
            i += 1;
        }
        proof {
            lemma_state_map_key(self.entries@, id@);
        }
        None
    }

    /// Store a VTXO with its initial state; an id already present is
    /// left as it is.
    pub fn store_vtxo_with_initial_state(&mut self, id: VtxoId, state: VtxoState)
        requires
            old(self).wf(),
        ensures
            final(self).wf(),
            final(self)@ == if old(self)@.contains_key(id@) {
                old(self)@
            } else {
                old(self)@.insert(id@, state)
            },
    {
        match self.find(&id) {
            Some(_) => {},
            None => {
                proof {
                    lemma_state_map_key(self.entries@, id@);
                    assert(self.entries@.push(VtxoStateEntry { id, state }).drop_last()
                        =~= self.entries@);
                    assert forall|i: int, j: int|
                        0 <= i < j < self.entries@.push(VtxoStateEntry { id, state }).len()
                        implies (#[trigger] self.entries@.push(
                            VtxoStateEntry { id, state },
                        )[i]).id@ != (#[trigger] self.entries@.push(
                            VtxoStateEntry { id, state },
                        )[j]).id@ by {
                        if j == self.entries@.len() {
                            if self.entries@[i].id@ == id@ {
                                lemma_state_map_key(self.entries@, id@);
                            }
                        }
                    }
                }
                self.entries.push(VtxoStateEntry { id, state });
            },
        }
    }

    /// The current state of an id.
    pub fn get_vtxo_state(&self, id: &VtxoId) -> (r: Option<VtxoState>)
        requires
            self.wf(),
        ensures
            match r {
                Some(st) => self@.contains_key(id@) && self@[id@] == st,
                None => !self@.contains_key(id@),
            },
    {
        match self.find(id) {
            Some(i) => Some(self.entries[i].state),
            None => None,
        }
    }

    /// Move an id to a new state, atomically checked: the move happens
    /// exactly when the id is tracked and its current state is one of
    /// the allowed old states; otherwise the table is unchanged and an
    /// error is reported.
    pub fn update_vtxo_state_checked(
        &mut self,
        id: &VtxoId,
        new_state: VtxoState,
        allowed_old: &Vec<VtxoState>,
    ) -> (r: Result<(), ()>)
        requires
            old(self).wf(),
        ensures
            final(self).wf(),
            r is Ok <==> old(self)@.contains_key(id@)
                && allowed_old@.contains(old(self)@[id@]),
            r is Ok ==> final(self)@ == old(self)@.insert(id@, new_state),
            r is Err ==> final(self)@ == old(self)@,
    {
        let i = match self.find(id) {
            Some(i) => i,
            None => {
                return Err(());
            },
        };
        let current = self.entries[i].state;
        let mut allowed = false;
        let mut k: usize = 0;
        while k < allowed_old.len()
            invariant
                0 <= k <= allowed_old@.len(),
                allowed == exists|m: int| 0 <= m < k
                    && #[trigger] allowed_old@[m] == current,
            decreases allowed_old@.len() - k,
        {
            if allowed_old[k] == current {
                proof {
                    assert(allowed_old@[k as int] == current);
                }
                allowed = true;
            }
            k += 1;
        }
        if !allowed {
            proof {
                if allowed_old@.contains(current) {
                    let m = choose|m: int| 0 <= m < allowed_old@.len()
                        && #[trigger] allowed_old@[m] == current;
                }
            }
            return Err(());
        }
        let ghost pre = self.entries@;
        let e = VtxoStateEntry { id: *id, state: new_state };
        self.entries[i] = e;
        proof {
            lemma_state_set(pre, i as int, e);
            let m = choose|m: int| 0 <= m < allowed_old@.len()
                && #[trigger] allowed_old@[m] == current;
            assert(allowed_old@[m] == old(self)@[id@]);
            assert(allowed_old@.contains(old(self)@[id@]));
        }
        Ok(())
    }
}

/// Replacing one entry updates the map at its key alone.
proof fn lemma_state_set(s: Seq<VtxoStateEntry>, i: int, e: VtxoStateEntry)
    requires
        distinct_states(s),
        0 <= i < s.len(),
        e.id@ == s[i].id@,
    ensures
        distinct_states(s.update(i, e)),
        state_map(s.update(i, e)) == state_map(s).insert(e.id@, e.state),
    decreases s.len(),
{
    let s2 = s.update(i, e);
    assert(distinct_states(s2)) by {
        assert(forall|k: int| 0 <= k < s.len() ==> (#[trigger] s2[k]).id@ == s[k].id@);
    }
    if i == s.len() - 1 {
        assert(s2.drop_last() =~= s.drop_last());
        assert(s2.last() == e);
        assert(state_map(s2) =~= state_map(s).insert(e.id@, e.state));
    } else {
        assert(distinct_states(s.drop_last())) by {
            assert(forall|k: int| 0 <= k < s.len() - 1
                ==> #[trigger] s.drop_last()[k] == s[k]);
        }
        assert(s2.drop_last() =~= s.drop_last().update(i, e));
        assert(s.drop_last()[i] == s[i]);
        lemma_state_set(s.drop_last(), i, e);
        assert(s2.last() == s.last());
        assert(s.last().id@ != e.id@);
        assert(state_map(s2)
            =~= state_map(s.drop_last()).insert(e.id@, e.state)
                .insert(s.last().id@, s.last().state));
        assert(state_map(s.drop_last()).insert(e.id@, e.state)
            .insert(s.last().id@, s.last().state)
            =~= state_map(s).insert(e.id@, e.state));
    }
}

} // verus!
