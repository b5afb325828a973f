//! The client-side ledger: one movement per balance-changing operation,
//! appended in order and read back newest first, one page at a time.

use vstd::prelude::*;
use crate::vtxo::VtxoId;

verus! {

/// One ledger entry: what an operation spent, received and paid.
pub struct Movement {
    /// The entry's identifier, assigned in append order.
    pub id: u64,
    /// When the entry was made (seconds since the epoch).
    pub created_at: u64,
    /// The fees the operation paid, in satoshi.
    pub fees: u64,
    /// The ids of the VTXOs the operation spent.
    pub spends: Vec<VtxoId>,
    /// The ids of the VTXOs the operation created for this wallet.
    pub receives: Vec<VtxoId>,
}

/// The view of a ledger entry.
#[verifier::ext_equal]
pub ghost struct MovementV {
    pub id: u64,
    pub created_at: u64,
    pub fees: u64,
    pub spends: Seq<crate::vtxo::OutPointV>,
    pub receives: Seq<crate::vtxo::OutPointV>,
}

impl View for Movement {
    type V = MovementV;

    open spec fn view(&self) -> MovementV {
        MovementV {
            id: self.id,
            created_at: self.created_at,
            fees: self.fees,
            spends: self.spends@.map_values(|x: VtxoId| x@),
            receives: self.receives@.map_values(|x: VtxoId| x@),
        }
    }
}

impl Movement {
    /// A copy of this entry.
    pub fn duplicate(&self) -> (r: Movement)
        ensures
            r@ == self@,
    {
        let mut spends: Vec<VtxoId> = Vec::new();
        let mut i: usize = 0;
        while i < self.spends.len()
            invariant
                0 <= i <= self.spends@.len(),
                spends@ == self.spends@.take(i as int),
            decreases self.spends@.len() - i,
        {
            spends.push(self.spends[i]);
            assert(spends@ =~= self.spends@.take(i as int + 1));
            i += 1;
        }
        assert(self.spends@.take(self.spends@.len() as int) =~= self.spends@);
        let mut receives: Vec<VtxoId> = Vec::new();
        let mut j: usize = 0;
        while j < self.receives.len()
            invariant
                0 <= j <= self.receives@.len(),
                receives@ == self.receives@.take(j as int),
            decreases self.receives@.len() - j,
        {
            receives.push(self.receives[j]);
            assert(receives@ =~= self.receives@.take(j as int + 1));
            j += 1;
        }
        assert(self.receives@.take(self.receives@.len() as int) =~= self.receives@);
        let r = Movement {
            id: self.id,
            created_at: self.created_at,
            fees: self.fees,
            spends,
            receives,
        };
        proof {
            assert(r@ =~= self@);
        }
        r
    }
}

/// One page of a paginated listing.
pub struct Pagination {
    pub page_index: u16,
    pub page_size: u16,
}

/// The ledger, stored newest entry first.
pub struct MovementLog {
    pub movements: Vec<Movement>,
}

impl MovementLog {
    /// The requested page of the ledger: `page_size` entries from
    /// position `page_index * page_size` on, fewer at the end.
    pub fn get_paginated_movements(&self, pagination: Pagination) -> (r: Vec<Movement>)
        ensures
            ({
                let all = self.movements@.map_values(|m: Movement| m@);
                let start = pagination.page_index as int * pagination.page_size as int;
                let end = if start + pagination.page_size as int <= all.len() {
                    start + pagination.page_size as int
                } else {
                    all.len() as int
                };
                r@.map_values(|m: Movement| m@) == if start <= all.len() {
                    all.subrange(start, end)
                } else {
                    Seq::<MovementV>::empty()
                }
            }),
    {
        let ghost all = self.movements@.map_values(|m: Movement| m@);
        proof {
            assert(pagination.page_index as int * pagination.page_size as int
                <= 65535 * 65535) by (nonlinear_arith)
                requires
                    pagination.page_index <= 65535,
                    pagination.page_size <= 65535,
            ;
        }
        let start = pagination.page_index as usize * pagination.page_size as usize;
        let mut out: Vec<Movement> = Vec::new();
        if start > self.movements.len() {
            proof {
                assert(out@.map_values(|m: Movement| m@) =~= Seq::<MovementV>::empty());
            }
            return out;
        }
        let end = if start + pagination.page_size as usize <= self.movements.len() {
            start + pagination.page_size as usize
        } else {
            self.movements.len()
        };
        let mut i = start;
        while i < end
            invariant
                all == self.movements@.map_values(|m: Movement| m@),
                start <= i <= end <= self.movements@.len(),
                out@.map_values(|m: Movement| m@)
                    == all.subrange(start as int, i as int),
            decreases end - i,
        {
            let ghost pre = out@.map_values(|m: Movement| m@);
            out.push(self.movements[i].duplicate());
            proof {
                assert(out@.map_values(|m: Movement| m@)
                    =~= pre.push(self.movements@[i as int]@));
                assert(all.subrange(start as int, i as int + 1)
                    =~= all.subrange(start as int, i as int).push(all[i as int]));
            }
            i += 1;
        }
        out
    }
}

} // verus!
