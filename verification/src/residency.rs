//! Which row is resident in which slot, as mathematics: the second-chance
//! clock, and what a batch of lookups decides.

use vstd::prelude::*;

verus! {

/// The row id of a slot that holds no row.
pub const EMPTY: u64 = 0xffff_ffff_ffff_ffff;

/// One scheduled miss: row `id` is to be read into `slot`.
#[derive(Clone, Copy, Debug, PartialEq, Eq, Structural)]
pub struct Fault {
    pub id: u64,
    pub slot: u32,
}

/// The bookkeeping of a cache.
#[verifier::ext_equal]
pub struct Residency {
    /// How many rows the table has.
    pub rows_total: u64,
    /// The slot of each resident row.
    pub map: Map<u64, u32>,
    /// The row of each slot, or `EMPTY`.
    pub slot_row: Seq<u64>,
    /// The clock's reference bit of each slot.
    pub refbit: Seq<bool>,
    /// The slots that the batch in flight still needs.
    pub pinned: Seq<bool>,
    /// The slot that the clock looks at next.
    pub hand: int,
    pub hits: int,
    pub misses: int,
    pub evictions: int,
}

/// Why a batch was refused.
pub enum Refusal {
    /// The row is not one of the table's.
    OutOfRange(u64),
    /// The row is not resident and no slot can be taken for it.
    AllPinned,
}

/// What a batch of lookups decides, in order, up to its end or to the lookup
/// that is refused.
#[verifier::ext_equal]
pub struct Decision {
    pub res: Residency,
    /// The slot of each lookup.
    pub slots: Seq<u32>,
    /// The rows that have to be read, and where to.
    pub faults: Seq<Fault>,
    pub refusal: Option<Refusal>,
}

/// Row `id` is one of those that `faults` read.
pub open spec fn reads_row(faults: Seq<Fault>, id: u64) -> bool {
    exists|i: int| 0 <= i < faults.len() && (#[trigger] faults[i]).id == id
}

impl Residency {
    /// How many slots there are.
    pub open spec fn n(self) -> int {
        self.slot_row.len() as int
    }

    /// Rows and slots name each other: the map and the slots' rows are one
    /// relation, read from either end.
    pub open spec fn inv(self) -> bool {
        &&& 0 < self.n() <= 0x1_0000_0000
        &&& self.refbit.len() == self.n()
        &&& self.pinned.len() == self.n()
        &&& 0 <= self.hand < self.n()
        &&& forall|id: u64| #[trigger]
            self.map.contains_key(id) ==> {
                &&& id < self.rows_total
                &&& self.map[id] < self.n()
                &&& self.slot_row[self.map[id] as int] == id
            }
        &&& forall|s: int|
            0 <= s < self.n() && #[trigger] self.slot_row[s] != EMPTY ==> {
                &&& self.map.contains_key(self.slot_row[s])
                &&& self.map[self.slot_row[s]] == s
            }
    }

    /// No row is resident, nothing is pinned and nothing was counted.
    pub open spec fn fresh(rows_total: u64, slots: nat) -> Residency {
        Residency {
            rows_total,
            map: Map::empty(),
            slot_row: Seq::new(slots, |s: int| EMPTY),
            refbit: Seq::new(slots, |s: int| false),
            pinned: Seq::new(slots, |s: int| false),
            hand: 0,
            hits: 0,
            misses: 0,
            evictions: 0,
        }
    }

    // ---- the clock -------------------------------------------------------
    /// The slot under the hand after `k` steps.
    pub open spec fn at(self, k: int) -> int {
        (self.hand + k) % self.n()
    }

    /// How many steps the hand is away from slot `s`.
    pub open spec fn ahead(self, s: int) -> int {
        (s - self.hand) % self.n()
    }

    /// The clock takes the slot that it reaches after `k` steps: the slot is
    /// not pinned, and it was not referenced or has had its second chance in
    /// the first round.
    pub open spec fn takes(self, k: int) -> bool {
        &&& !self.pinned[self.at(k)]
        &&& !self.refbit[self.at(k)] || k >= self.n()
    }

    /// `k` is the first step, of two rounds, at which the clock takes a slot.
    pub open spec fn is_victim_step(self, k: int) -> bool {
        &&& 0 <= k < 2 * self.n()
        &&& self.takes(k)
        &&& forall|j: int| 0 <= j < k ==> !#[trigger] self.takes(j)
    }

    pub open spec fn victim_step(self) -> int {
        choose|k: int| self.is_victim_step(k)
    }

    /// The slot that the clock gives up next.
    pub open spec fn victim_slot(self) -> int {
        self.at(self.victim_step())
    }

    /// No slot can be given up.
    pub open spec fn all_pinned(self) -> bool {
        forall|s: int| 0 <= s < self.n() ==> #[trigger] self.pinned[s]
    }

    /// The reference bits after `k` steps: the clock has taken away those of
    /// the unpinned slots that it has passed.
    pub open spec fn swept(self, k: int) -> Seq<bool> {
        Seq::new(
            self.slot_row.len(),
            |s: int| self.refbit[s] && (self.pinned[s] || self.ahead(s) >= k),
        )
    }

    /// After the clock has given up `victim_slot()`: the row in it, if any,
    /// is no longer resident.
    pub open spec fn after_victim(self) -> Residency {
        let k = self.victim_step();
        let row = self.slot_row[self.at(k)];
        Residency {
            refbit: self.swept(k),
            hand: self.at(k + 1),
            map: if row != EMPTY {
                self.map.remove(row)
            } else {
                self.map
            },
            evictions: if row != EMPTY {
                self.evictions + 1
            } else {
                self.evictions
            },
            ..self
        }
    }

    // ---- lookups ---------------------------------------------------------
    /// Slot `s` is pinned and referenced.
    pub open spec fn touched(self, s: int) -> Residency {
        Residency {
            refbit: self.refbit.update(s, true),
            pinned: self.pinned.update(s, true),
            ..self
        }
    }

    /// After a lookup of the resident row `id`.
    pub open spec fn after_hit(self, id: u64) -> Residency {
        Residency { hits: self.hits + 1, ..self.touched(self.map[id] as int) }
    }

    /// After a miss has been counted.
    pub open spec fn after_miss(self) -> Residency {
        Residency { misses: self.misses + 1, ..self }
    }

    /// After row `id` was given the clock's victim slot.
    pub open spec fn after_claim(self, id: u64) -> Residency {
        let s = self.victim_slot();
        let e = self.after_victim();
        Residency {
            map: e.map.insert(id, s as u32),
            slot_row: e.slot_row.update(s, id),
            ..e
        }.touched(s)
    }

    /// What the lookups of `ids` decide, one after the other.
    pub open spec fn decide(self, ids: Seq<u64>) -> Decision
        decreases ids.len(),
    {
        if ids.len() == 0 {
            Decision { res: self, slots: Seq::empty(), faults: Seq::empty(), refusal: None }
        } else {
            self.decide(ids.drop_last()).and_lookup(ids.last())
        }
    }

    // ---- undoing and ending a batch --------------------------------------
    /// `faults` gave their rows, a different one each, the slots that these
    /// still have.
    pub open spec fn claimed(self, faults: Seq<Fault>) -> bool {
        &&& forall|i: int|
            0 <= i < faults.len() ==> {
                &&& self.map.contains_key((#[trigger] faults[i]).id)
                &&& self.map[faults[i].id] == faults[i].slot
            }
        &&& forall|i: int, j: int|
            0 <= i < j < faults.len() ==> (#[trigger] faults[i]).id != (#[trigger] faults[j]).id
    }

    /// A fault among `faults` gave row `id` the slot that it still has.
    pub open spec fn still_maps(self, faults: Seq<Fault>, id: u64) -> bool {
        exists|i: int|
            0 <= i < faults.len() && (#[trigger] faults[i]).id == id && self.map[id]
                == faults[i].slot
    }

    /// A fault among `faults` gave slot `s` the row that is still in it.
    pub open spec fn still_holds(self, faults: Seq<Fault>, s: int) -> bool {
        exists|i: int|
            0 <= i < faults.len() && (#[trigger] faults[i]).slot == s && self.slot_row[s]
                == faults[i].id
    }

    /// The claims of `faults` are withdrawn, as far as they still stand.
    pub open spec fn released(self, faults: Seq<Fault>) -> Residency {
        Residency {
            map: Map::new(
                |id: u64| self.map.contains_key(id) && !self.still_maps(faults, id),
                |id: u64| self.map[id],
            ),
            slot_row: Seq::new(
                self.slot_row.len(),
                |s: int|
                    if self.still_holds(faults, s) {
                        EMPTY
                    } else {
                        self.slot_row[s]
                    },
            ),
            ..self
        }
    }

    /// Nothing is pinned any more.
    pub open spec fn unpinned(self) -> Residency {
        Residency { pinned: Seq::new(self.pinned.len(), |s: int| false), ..self }
    }
}

impl Decision {
    /// One more lookup, unless one was refused already.
    pub open spec fn and_lookup(self, id: u64) -> Decision {
        if self.refusal is Some {
            self
        } else if id >= self.res.rows_total {
            Decision { refusal: Some(Refusal::OutOfRange(id)), ..self }
        } else if self.res.map.contains_key(id) {
            Decision {
                res: self.res.after_hit(id),
                slots: self.slots.push(self.res.map[id]),
                ..self
            }
        } else {
            let counted = self.res.after_miss();
            if counted.all_pinned() {
                Decision { res: counted, refusal: Some(Refusal::AllPinned), ..self }
            } else {
                let s = counted.victim_slot() as u32;
                Decision {
                    res: counted.after_claim(id),
                    slots: self.slots.push(s),
                    faults: self.faults.push(Fault { id, slot: s }),
                    ..self
                }
            }
        }
    }
}

} // verus!
