//! The in-flux guard: the set of VTXO ids that are reserved by an
//! operation in progress (an off-round transfer, an HTLC, or a round
//! submission). A batch of ids is reserved atomically: either every id
//! of the batch enters the set, or none does and the offending id is
//! returned. The caller releases the ids on every exit path.

use vstd::prelude::*;
use crate::vtxo::{VtxoId, OutPointV};

verus! {

/// The set of id views held by a list of ids.
pub open spec fn flux_set(s: Seq<VtxoId>) -> Set<OutPointV>
    decreases s.len(),
{
    if s.len() == 0 {
        Set::empty()
    } else {
        flux_set(s.drop_last()).insert(s.last()@)
    }
}

/// Every listed id view is in the set.
pub proof fn lemma_flux_set_in(s: Seq<VtxoId>)
    ensures
        forall|i: int| 0 <= i < s.len() ==> flux_set(s).contains((#[trigger] s[i])@),
    decreases s.len(),
{
    if s.len() > 0 {
        lemma_flux_set_in(s.drop_last());
        assert forall|i: int| 0 <= i < s.len()
            implies flux_set(s).contains((#[trigger] s[i])@) by {
            if i < s.len() - 1 {
                assert(s.drop_last()[i] == s[i]);
                assert(flux_set(s.drop_last()).contains(s[i]@));
            }
        }
    }
}

/// Every member of the set is a listed id view.
pub proof fn lemma_flux_set_from(s: Seq<VtxoId>, x: OutPointV)
    requires
        flux_set(s).contains(x),
    ensures
        exists|i: int| 0 <= i < s.len() && (#[trigger] s[i])@ == x,
    decreases s.len(),
{
    if s.len() > 0 {
        if x == s.last()@ {
            assert(s[s.len() - 1]@ == x);
        } else {
            lemma_flux_set_from(s.drop_last(), x);
            let i = choose|i: int| 0 <= i < s.drop_last().len()
                && (#[trigger] s.drop_last()[i])@ == x;
            assert(s[i] == s.drop_last()[i]);
            assert(s[i]@ == x);
        }
    }
}

/// Appending an id inserts its view into the set.
pub proof fn lemma_flux_set_push(s: Seq<VtxoId>, x: VtxoId)
    ensures
        flux_set(s.push(x)) == flux_set(s).insert(x@),
{
    assert(s.push(x).drop_last() =~= s);
    assert(s.push(x).last() == x);
}

/// A list of pairwise distinct id views.
pub open spec fn distinct_ids(s: Seq<VtxoId>) -> bool {
    forall|i: int, j: int| 0 <= i < j < s.len()
        ==> (#[trigger] s[i])@ != (#[trigger] s[j])@
}

/// A distinct list reserves a set of its own size.
pub proof fn lemma_flux_count(s: Seq<VtxoId>)
    ensures
        flux_set(s).finite(),
        flux_set(s).len() <= s.len(),
        distinct_ids(s) ==> flux_set(s).len() == s.len(),
    decreases s.len(),
{
    if s.len() > 0 {
        lemma_flux_count(s.drop_last());
        if distinct_ids(s) {
            assert(distinct_ids(s.drop_last())) by {
                assert(forall|i: int| 0 <= i < s.len() - 1
                    ==> #[trigger] s.drop_last()[i] == s[i]);
            }
            assert(!flux_set(s.drop_last()).contains(s.last()@)) by {
                if flux_set(s.drop_last()).contains(s.last()@) {
                    lemma_flux_set_from(s.drop_last(), s.last()@);
                    let i = choose|i: int| 0 <= i < s.drop_last().len()
                        && (#[trigger] s.drop_last()[i])@ == s.last()@;
                    assert(s[i]@ == s[s.len() - 1]@);
                }
            }
        }
    }
}

/// Whether the id at a position of a batch conflicts: it is already in
/// the flux set, or it repeats an earlier id of the same batch.
pub open spec fn conflict_at(s: Set<OutPointV>, views: Seq<OutPointV>, i: int) -> bool {
    s.contains(views[i]) || exists|j: int| 0 <= j < i && views[j] == views[i]
}

/// The first conflicting position of a batch at or after `k`, if any.
pub open spec fn find_conflict(s: Set<OutPointV>, views: Seq<OutPointV>, k: int) -> Option<int>
    decreases views.len() - k,
{
    if k < 0 || k >= views.len() {
        None
    } else if conflict_at(s, views, k) {
        Some(k)
    } else {
        find_conflict(s, views, k + 1)
    }
}

/// There is no conflict at or after `k` exactly when every position at
/// or after `k` is conflict-free; a found conflict is the first one.
pub proof fn lemma_no_conflict(s: Set<OutPointV>, views: Seq<OutPointV>, k: int)
    requires
        0 <= k <= views.len(),
    ensures
        find_conflict(s, views, k) is None
            <==> forall|i: int| k <= i < views.len() ==> !#[trigger] conflict_at(s, views, i),
        find_conflict(s, views, k) matches Some(c) ==>
            k <= c < views.len() && conflict_at(s, views, c)
            && forall|i: int| k <= i < c ==> !#[trigger] conflict_at(s, views, i),
    decreases views.len() - k,
{
    if k < views.len() && !conflict_at(s, views, k) {
        lemma_no_conflict(s, views, k + 1);
    }
}

/// The set of id views of a batch.
pub open spec fn batch_set(views: Seq<OutPointV>) -> Set<OutPointV> {
    Set::new(|x: OutPointV| exists|i: int| 0 <= i < views.len() && views[i] == x)
}

/// One more batch position widens the batch set by that view.
pub proof fn lemma_batch_set_step(views: Seq<OutPointV>, k: int)
    requires
        0 <= k < views.len(),
    ensures
        batch_set(views.take(k + 1)) == batch_set(views.take(k)).insert(views[k]),
{
    let lhs = batch_set(views.take(k + 1));
    let rhs = batch_set(views.take(k)).insert(views[k]);
    assert forall|x: OutPointV| lhs.contains(x) implies rhs.contains(x) by {
        let i = choose|i: int| 0 <= i < views.take(k + 1).len()
            && #[trigger] views.take(k + 1)[i] == x;
        if i < k {
            assert(views.take(k)[i] == x);
        }
    }
    assert forall|x: OutPointV| rhs.contains(x) implies lhs.contains(x) by {
        if x == views[k] {
            assert(views.take(k + 1)[k] == x);
        } else {
            let i = choose|i: int| 0 <= i < views.take(k).len()
                && #[trigger] views.take(k)[i] == x;
            assert(views.take(k + 1)[i] == x);
        }
    }
    assert(lhs =~= rhs);
}

/// The guard: the ids currently reserved by operations in progress.
pub struct VtxosInFlux {
    vtxos: Vec<VtxoId>,
}

impl View for VtxosInFlux {
    type V = Set<OutPointV>;

    /// The abstract state of the guard is the set of reserved id views.
    closed spec fn view(&self) -> Set<OutPointV> {
        flux_set(self.vtxos@)
    }
}

impl VtxosInFlux {
    /// Well-formed: the reserved list never repeats an id.
    pub closed spec fn wf(&self) -> bool {
        distinct_ids(self.vtxos@)
    }

    /// An empty guard: nothing is reserved.
    pub fn new() -> (r: VtxosInFlux)
        ensures
            r@ == Set::<OutPointV>::empty(),
            r.wf(),
    {
        VtxosInFlux { vtxos: Vec::new() }
    }

    /// The number of reserved ids.
    pub fn len(&self) -> (r: usize)
        requires
            self.wf(),
        ensures
            r == self@.len(),
    {
        proof {
            lemma_flux_count(self.vtxos@);
        }
        self.vtxos.len()
    }

    /// Whether an id is reserved.
    pub fn contains(&self, id: &VtxoId) -> (r: bool)
        ensures
            r == self@.contains(id@),
    {
        let mut i: usize = 0;
        while i < self.vtxos.len()
            invariant
                0 <= i <= self.vtxos@.len(),
                forall|j: int| 0 <= j < i ==> (#[trigger] self.vtxos@[j])@ != id@,
            decreases self.vtxos@.len() - i,
        {
            if self.vtxos[i].eq_id(id) {
                proof {
                    lemma_flux_set_in(self.vtxos@);
                }
                return true;
            }
            i += 1;
        }
        proof {
            if self@.contains(id@) {
                lemma_flux_set_from(self.vtxos@, id@);
            }
        }
        false
    }

    /// Atomically reserve a whole batch of ids, or nothing.
    ///
    /// Walks the batch in order; the first id that is already reserved,
    /// or that repeats an earlier id of the batch, aborts the call: the
    /// reservations this call made are rolled back, the state is exactly
    /// the prior state, and the offending id is returned. Otherwise all
    /// ids of the batch are reserved.
    pub fn atomic_check_put(&mut self, ids: &Vec<VtxoId>) -> (r: Result<(), VtxoId>)
        requires
            old(self).wf(),
        ensures
            final(self).wf(),
            ({
                let views = ids@.map_values(|x: VtxoId| x@);
                match r {
                    Ok(()) => {
                        &&& find_conflict(old(self)@, views, 0) is None
                        &&& final(self)@ == old(self)@.union(batch_set(views))
                    },
                    Err(dup) => {
                        &&& final(self)@ == old(self)@
                        &&& find_conflict(old(self)@, views, 0) matches Some(c)
                            && dup@ == views[c]
                    },
                }
            }),
    {
        let ghost views = ids@.map_values(|x: VtxoId| x@);
        let ghost s0 = self@;
        let ghost vtxos0 = self.vtxos@;
        let start_len = self.vtxos.len();
        proof {
            assert(vtxos0.take(start_len as int) =~= vtxos0);
        }
        let mut k: usize = 0;
        while k < ids.len()
            invariant
                0 <= k <= ids@.len(),
                views == ids@.map_values(|x: VtxoId| x@),
                start_len + k == self.vtxos@.len(),
                self.vtxos@.take(start_len as int) == vtxos0,
                vtxos0 == old(self).vtxos@,
                s0 == flux_set(vtxos0),
                distinct_ids(self.vtxos@),
                self@ == s0.union(batch_set(views.take(k as int))),
                forall|i: int| 0 <= i < k ==> !#[trigger] conflict_at(s0, views, i),
                forall|i: int| 0 <= i < k
                    ==> (#[trigger] self.vtxos@[start_len + i])@ == views[i],
            decreases ids@.len() - k,
        {
            let id = ids[k];
            assert(id@ == views[k as int]);
            if self.contains(&id) {
                proof {
                    lemma_flux_set_from(self.vtxos@, id@);
                    let w = choose|i: int| 0 <= i < self.vtxos@.len()
                        && (#[trigger] self.vtxos@[i])@ == id@;
                    if w < start_len {
                        assert(self.vtxos@[w] == vtxos0[w]);
                        lemma_flux_set_in(vtxos0);
                        assert(s0.contains(views[k as int]));
                    } else {
                        assert(self.vtxos@[start_len + (w - start_len)]@
                            == views[w - start_len]);
                        assert(views[w - start_len] == views[k as int]);
                    }
                    assert(conflict_at(s0, views, k as int));
                    lemma_no_conflict(s0, views, 0);
                    let c = find_conflict(s0, views, 0).unwrap();
                    assert(!(c < k)) by {
                        lemma_no_conflict(s0, views, 0);
                    }
                    assert(c == k as int);
                }
                self.vtxos.truncate(start_len);
                proof {
                    assert(self.vtxos@ =~= vtxos0);
                }
                return Err(id);
            }
            proof {
                assert(!self@.contains(id@));
                assert(!s0.contains(views[k as int])) by {
                    if s0.contains(views[k as int]) {
                        lemma_flux_set_from(vtxos0, id@);
                        let w = choose|i: int| 0 <= i < vtxos0.len()
                            && (#[trigger] vtxos0[i])@ == id@;
                        assert(self.vtxos@[w] == vtxos0[w]);
                        lemma_flux_set_in(self.vtxos@);
                    }
                }
                assert(!(exists|j: int| 0 <= j < k && views[j] == views[k as int])) by {
                    if exists|j: int| 0 <= j < k && views[j] == views[k as int] {
                        let j = choose|j: int| 0 <= j < k
                            && #[trigger] views[j] == views[k as int];
                        assert(self.vtxos@[start_len + j]@ == views[k as int]);
                        lemma_flux_set_in(self.vtxos@);
                        assert(self@.contains(id@));
                    }
                }
                assert(!conflict_at(s0, views, k as int));
                lemma_flux_set_push(self.vtxos@, id);
                lemma_batch_set_step(views, k as int);
                assert(distinct_ids(self.vtxos@.push(id))) by {
                    lemma_flux_set_in(self.vtxos@);
                    assert(forall|i: int| 0 <= i < self.vtxos@.len()
                        ==> (#[trigger] self.vtxos@[i])@ != id@) by {
                        assert forall|i: int| 0 <= i < self.vtxos@.len()
                            implies (#[trigger] self.vtxos@[i])@ != id@ by {
                            if self.vtxos@[i]@ == id@ {
                                assert(self@.contains(id@));
                            }
                        }
                    }
                }
            }
            let ghost pre = self.vtxos@;
            self.vtxos.push(id);
            proof {
                assert(self.vtxos@.take(start_len as int) =~= pre.take(start_len as int));
                assert(self@ =~= s0.union(batch_set(views.take(k as int + 1))));
            }
            k += 1;
        }
        proof {
            assert(views.take(views.len() as int) =~= views);
            lemma_no_conflict(s0, views, 0);
        }
        Ok(())
    }

    /// Release ids from the guard. Releasing an id that is not reserved
    /// does nothing.
    pub fn release(&mut self, ids: &Vec<VtxoId>)
        requires
            old(self).wf(),
        ensures
            final(self).wf(),
            final(self)@ == old(self)@.difference(
                batch_set(ids@.map_values(|x: VtxoId| x@)),
            ),
    {
        let ghost views = ids@.map_values(|x: VtxoId| x@);
        let ghost s0 = self@;
        let mut out: Vec<VtxoId> = Vec::new();
        let mut i: usize = 0;
        while i < self.vtxos.len()
            invariant
                0 <= i <= self.vtxos@.len(),
                views == ids@.map_values(|x: VtxoId| x@),
                distinct_ids(self.vtxos@),
                distinct_ids(out@),
                forall|m: int| 0 <= m < out@.len()
                    ==> exists|j: int| 0 <= j < i && (#[trigger] out@[m])@
                        == (#[trigger] self.vtxos@[j])@,
                flux_set(out@) == flux_set(self.vtxos@.take(i as int))
                    .difference(batch_set(views)),
            decreases self.vtxos@.len() - i,
        {
            let id = self.vtxos[i];
            let mut hit = false;
            let mut j: usize = 0;
            while j < ids.len()
                invariant
                    0 <= j <= ids@.len(),
                    views == ids@.map_values(|x: VtxoId| x@),
                    hit == exists|m: int| 0 <= m < j && views[m] == id@,
                decreases ids@.len() - j,
            {
                if ids[j].eq_id(&id) {
                    proof {
                        assert(views[j as int] == id@);
                    }
                    hit = true;
                }
                j += 1;
            }
            proof {
                assert(self.vtxos@.take(i as int + 1)
                    =~= self.vtxos@.take(i as int).push(id));
                lemma_flux_set_push(self.vtxos@.take(i as int), id);
                if hit {
                    assert(batch_set(views).contains(id@));
                }
            }
            if !hit {
                proof {
                    assert(!batch_set(views).contains(id@));
                    assert(!flux_set(out@).contains(id@)) by {
                        if flux_set(out@).contains(id@) {
                            lemma_flux_set_from(out@, id@);
                            let m = choose|m: int| 0 <= m < out@.len()
                                && (#[trigger] out@[m])@ == id@;
                            let j2 = choose|j2: int| 0 <= j2 < i
                                && (#[trigger] out@[m])@ == (#[trigger] self.vtxos@[j2])@;
                            assert(self.vtxos@[j2]@ == self.vtxos@[i as int]@);
                        }
                    }
                    lemma_flux_set_push(out@, id);
                    assert(distinct_ids(out@.push(id))) by {
                        lemma_flux_set_in(out@);
                        assert forall|m: int| 0 <= m < out@.len()
                            implies (#[trigger] out@[m])@ != id@ by {
                            if out@[m]@ == id@ {
                                assert(flux_set(out@).contains(id@));
                            }
                        }
                    }
                }
                let ghost pre = out@;
                out.push(id);
                proof {
                    assert forall|m: int| 0 <= m < out@.len()
                        implies exists|j2: int| 0 <= j2 < i + 1
                            && (#[trigger] out@[m])@ == (#[trigger] self.vtxos@[j2])@ by {
                        if m < pre.len() {
                            let j2 = choose|j2: int| 0 <= j2 < i
                                && (#[trigger] pre[m])@ == (#[trigger] self.vtxos@[j2])@;
                            assert(out@[m] == pre[m]);
                            assert(out@[m]@ == self.vtxos@[j2]@);
                        } else {
                            assert(out@[m]@ == self.vtxos@[i as int]@);
                        }
                    }
                    assert(flux_set(out@) =~= flux_set(self.vtxos@.take(i as int + 1))
                        .difference(batch_set(views)));
                }
            } else {
                proof {
                    assert(flux_set(out@) =~= flux_set(self.vtxos@.take(i as int + 1))
                        .difference(batch_set(views)));
                }
            }
            i += 1;
        }
        proof {
            assert(self.vtxos@.take(self.vtxos@.len() as int) =~= self.vtxos@);
        }
        self.vtxos = out;
    }
}

/// In-flux exclusivity: once a batch has entered the flux set, any
/// batch sharing an id with it conflicts, so `atomic_check_put` turns
/// it away and, by its error case, leaves the state exactly as it was.
pub proof fn lemma_flux_exclusive(
    s0: Set<OutPointV>,
    a: Seq<OutPointV>,
    b: Seq<OutPointV>,
    i: int,
    j: int,
)
    requires
        0 <= i < a.len(),
        0 <= j < b.len(),
        a[i] == b[j],
    ensures
        !(find_conflict(s0.union(batch_set(a)), b, 0) is None),
{
    let s1 = s0.union(batch_set(a));
    assert(batch_set(a).contains(a[i]));
    assert(conflict_at(s1, b, j));
    lemma_no_conflict(s1, b, 0);
}

/// In-flux atomicity: two disjoint batches, each free of the guard's
/// prior state and of inner repetition, both enter the flux set no
/// matter in which order the guard serializes them; and a batch that
/// conflicts leaves the state exactly as it was (the error case of
/// `atomic_check_put`).
pub proof fn lemma_flux_atomicity(s0: Set<OutPointV>, a: Seq<OutPointV>, b: Seq<OutPointV>)
    requires
        forall|i: int| 0 <= i < a.len() ==> !#[trigger] conflict_at(s0, a, i),
        forall|i: int| 0 <= i < b.len() ==> !#[trigger] conflict_at(s0, b, i),
        forall|i: int, j: int| 0 <= i < a.len() && 0 <= j < b.len()
            ==> a[i] != b[j],
    ensures
        find_conflict(s0, a, 0) is None,
        find_conflict(s0.union(batch_set(a)), b, 0) is None,
        s0.union(batch_set(a)).union(batch_set(b))
            == s0.union(batch_set(b)).union(batch_set(a)),
{
    lemma_no_conflict(s0, a, 0);
    let s1 = s0.union(batch_set(a));
    assert forall|i: int| 0 <= i < b.len() implies !conflict_at(s1, b, i) by {
        assert(!conflict_at(s0, b, i));
        assert(!batch_set(a).contains(b[i])) by {
            if batch_set(a).contains(b[i]) {
                let m = choose|m: int| 0 <= m < a.len() && #[trigger] a[m] == b[i];
                assert(a[m] != b[i]);
            }
        }
    }
    lemma_no_conflict(s1, b, 0);
    assert(s0.union(batch_set(a)).union(batch_set(b))
        =~= s0.union(batch_set(b)).union(batch_set(a)));
}

} // verus!
