//! What the second-chance clock and a batch's lookups keep true.

use crate::residency::reads_row;
use crate::residency::Decision;
use crate::residency::Fault;
use crate::residency::Refusal;
use crate::residency::Residency;
use crate::residency::EMPTY;
use vstd::prelude::*;

verus! {

/// A remainder, for numbers up to three times the divisor and down to minus
/// the divisor.
pub proof fn wrap(x: int, n: int)
    requires
        0 < n,
        -n <= x < 3 * n,
    ensures
        x < 0 ==> x % n == x + n,
        0 <= x < n ==> x % n == x,
        n <= x < 2 * n ==> x % n == x - n,
        2 * n <= x ==> x % n == x - 2 * n,
{
    if x < 0 {
        vstd::arithmetic::div_mod::lemma_fundamental_div_mod_converse(x, n, -1, x + n);
    } else if x < n {
        vstd::arithmetic::div_mod::lemma_fundamental_div_mod_converse(x, n, 0, x);
    } else if x < 2 * n {
        vstd::arithmetic::div_mod::lemma_fundamental_div_mod_converse(x, n, 1, x - n);
    } else {
        vstd::arithmetic::div_mod::lemma_fundamental_div_mod_converse(x, n, 2, x - 2 * n);
    }
}

impl Residency {
    /// The hand visits every slot once in each round, in the same order.
    pub proof fn hand_goes_round(self, k: int)
        requires
            self.inv(),
            0 <= k < 2 * self.n(),
        ensures
            0 <= self.at(k) < self.n(),
            self.ahead(self.at(k)) == if k < self.n() {
                k
            } else {
                k - self.n()
            },
            self.at(k + 1) == (self.at(k) + 1) % self.n(),
            0 <= self.at(k + 1) < self.n(),
    {
        wrap(self.hand + k, self.n());
        wrap(self.at(k) - self.hand, self.n());
        wrap(self.at(k) + 1, self.n());
        wrap(self.hand + k + 1, self.n());
    }

    /// The hand reaches slot `s` after `ahead(s)` steps, and once more a round
    /// later.
    pub proof fn hand_reaches(self, s: int)
        requires
            self.inv(),
            0 <= s < self.n(),
        ensures
            0 <= self.ahead(s) < self.n(),
            self.at(self.ahead(s)) == s,
            self.at(self.ahead(s) + self.n()) == s,
    {
        wrap(s - self.hand, self.n());
        wrap(self.hand + self.ahead(s), self.n());
        wrap(self.hand + self.ahead(s) + self.n(), self.n());
    }

    /// Some step is the first of those at which the clock takes a slot, if
    /// there is one at all.
    proof fn first_take(self, k: int)
        requires
            0 <= k < 2 * self.n(),
            self.takes(k),
        ensures
            exists|j: int| self.is_victim_step(j),
        decreases k,
    {
        if exists|j: int| 0 <= j < k && #[trigger] self.takes(j) {
            let j = choose|j: int| 0 <= j < k && #[trigger] self.takes(j);
            self.first_take(j);
        } else {
            assert(self.is_victim_step(k));
        }
    }

    /// The first step at which the clock takes a slot is one number.
    pub proof fn victim_step_is(self, k: int)
        requires
            self.is_victim_step(k),
        ensures
            self.victim_step() == k,
    {
        let v = self.victim_step();
        assert(self.is_victim_step(v));
        if v < k {
            assert(!self.takes(v));
        } else if k < v {
            assert(!self.takes(k));
        }
    }

    /// Within two rounds the clock finds a slot exactly if some slot is not
    /// pinned, and the slot that it finds is not pinned.
    pub proof fn clock_gives_up_an_unpinned_slot(self)
        requires
            self.inv(),
        ensures
            !self.all_pinned() <==> exists|k: int| self.is_victim_step(k),
            !self.all_pinned() ==> {
                &&& self.is_victim_step(self.victim_step())
                &&& 0 <= self.victim_slot() < self.n()
                &&& !self.pinned[self.victim_slot()]
            },
    {
        if !self.all_pinned() {
            let s = choose|s: int| 0 <= s < self.n() && !#[trigger] self.pinned[s];
            self.hand_reaches(s);
            self.first_take(self.ahead(s) + self.n());
            self.hand_goes_round(self.victim_step());
        } else {
            assert forall|k: int| !self.is_victim_step(k) by {
                if 0 <= k < 2 * self.n() {
                    self.hand_goes_round(k);
                    assert(self.pinned[self.at(k)]);
                }
            }
        }
    }

    /// A slot that was referenced outlasts every unpinned slot that was not.
    pub proof fn second_chance(self, s: int)
        requires
            self.inv(),
            !self.all_pinned(),
            0 <= s < self.n(),
            !self.pinned[s],
            !self.refbit[s],
        ensures
            !self.refbit[self.victim_slot()],
            self.ahead(self.victim_slot()) <= self.ahead(s),
    {
        self.clock_gives_up_an_unpinned_slot();
        self.hand_reaches(s);
        let k = self.victim_step();
        assert(self.takes(self.ahead(s)));
        self.hand_goes_round(k);
    }

    /// One more step takes away at most the reference bit of the slot that the
    /// hand is at, unless that slot is pinned.
    pub proof fn sweeping_on(self, k: int)
        requires
            self.inv(),
            0 <= k < 2 * self.n(),
        ensures
            self.swept(k + 1) == if self.pinned[self.at(k)] {
                self.swept(k)
            } else {
                self.swept(k).update(self.at(k), false)
            },
            self.swept(k)[self.at(k)] == (self.refbit[self.at(k)] && (self.pinned[self.at(k)] || k
                < self.n())),
    {
        self.hand_goes_round(k);
        let at = self.at(k);
        assert forall|s: int| 0 <= s < self.n() && s != at implies self.swept(k + 1)[s]
            == self.swept(k)[s] by {
            self.hand_reaches(s);
            if k < self.n() {
                assert(self.ahead(s) != k);
            }
        }
        if self.pinned[at] {
            assert(self.swept(k + 1) =~= self.swept(k));
        } else {
            assert(self.swept(k + 1) =~= self.swept(k).update(at, false));
        }
    }

    proof fn hit_keeps_inv(self, id: u64)
        requires
            self.inv(),
            self.map.contains_key(id),
        ensures
            self.after_hit(id).inv(),
    {
    }

    /// A row that gets the clock's victim slot displaces the row in it, and no
    /// other.
    pub proof fn claim_keeps_inv(self, id: u64)
        requires
            self.inv(),
            id < self.rows_total,
            !self.map.contains_key(id),
            !self.all_pinned(),
        ensures
            self.after_claim(id).inv(),
            0 <= self.victim_slot() < self.n(),
            !self.pinned[self.victim_slot()],
            self.after_claim(id).map.contains_key(id),
            self.after_claim(id).map[id] == self.victim_slot(),
            forall|other: u64|
                other != id ==> {
                    &&& self.after_claim(id).map.contains_key(other) <==> (
                    self.map.contains_key(other) && self.map[other] != self.victim_slot())
                    &&& self.after_claim(id).map.contains_key(other)
                        ==> #[trigger] self.after_claim(id).map[other] == self.map[other]
                },
    {
        self.clock_gives_up_an_unpinned_slot();
        self.hand_goes_round(self.victim_step());
        let s = self.victim_slot();
        assert(s as u32 == s);
        let a = self.after_claim(id);
        assert forall|other: u64| other != id implies {
            &&& a.map.contains_key(other) <==> (self.map.contains_key(other) && self.map[other]
                != s)
            &&& a.map.contains_key(other) ==> #[trigger] a.map[other] == self.map[other]
        } by {
            if self.map.contains_key(other) {
                if self.slot_row[s] != EMPTY {
                    assert(self.map[self.slot_row[s]] == s);
                }
            }
        }
        assert forall|t: int| 0 <= t < a.n() && #[trigger] a.slot_row[t] != EMPTY implies {
            &&& a.map.contains_key(a.slot_row[t])
            &&& a.map[a.slot_row[t]] == t
        } by {
            if t != s {
                assert(self.slot_row[t] != EMPTY);
                assert(self.map[self.slot_row[t]] == t);
            }
        }
    }
}

impl Decision {
    /// Each row that was looked up, up to the refused one, is resident in the
    /// slot that was handed out for it, and that slot is pinned.
    pub open spec fn serves(self, ids: Seq<u64>) -> bool {
        &&& self.faults.len() <= self.slots.len() <= ids.len()
        &&& self.refusal is None <==> self.slots.len() == ids.len()
        &&& forall|i: int|
            0 <= i < self.slots.len() ==> {
                &&& #[trigger] self.res.map.contains_key(ids[i])
                &&& self.res.map[ids[i]] == self.slots[i]
                &&& self.res.pinned[self.slots[i] as int]
            }
    }

    /// Each row to be read was looked up and owns its slot, and no two reads
    /// have a row in common.
    pub open spec fn reads(self, start: Residency, ids: Seq<u64>) -> bool {
        &&& forall|i: int|
            0 <= i < self.faults.len() ==> {
                &&& (#[trigger] self.faults[i]).id < start.rows_total
                &&& ids.contains(self.faults[i].id)
                &&& self.res.map.contains_key(self.faults[i].id)
                &&& self.res.map[self.faults[i].id] == self.faults[i].slot
                &&& self.faults[i].slot < start.n()
                &&& !start.pinned[self.faults[i].slot as int]
                &&& self.res.pinned[self.faults[i].slot as int]
            }
        &&& forall|i: int, j: int|
            0 <= i < j < self.faults.len() ==> (#[trigger] self.faults[i]).id != (
            #[trigger] self.faults[j]).id
    }

    /// A row is resident because it is to be read or because it was before.
    /// What was pinned stays pinned and keeps its row, and what is pinned was
    /// pinned before or has been handed out.
    pub open spec fn keeps(self, start: Residency) -> bool {
        &&& forall|id: u64| #[trigger]
            self.res.map.contains_key(id) ==> {
                ||| start.map.contains_key(id) && start.map[id] == self.res.map[id]
                ||| reads_row(self.faults, id)
            }
        &&& forall|s: int|
            0 <= s < start.n() && start.pinned[s] ==> #[trigger] self.res.pinned[s]
                && self.res.slot_row[s] == start.slot_row[s]
        &&& forall|s: int|
            0 <= s < start.n() && #[trigger] self.res.pinned[s] ==> start.pinned[s]
                || self.slots.contains(s as u32)
    }

    /// Each served lookup was a hit or is to be read; only a miss that is
    /// refused is counted beyond those.
    pub open spec fn counts(self, start: Residency) -> bool {
        &&& self.res.hits == start.hits + (self.slots.len() - self.faults.len())
        &&& self.res.misses == start.misses + self.faults.len() + if self.refusal
            == Some(Refusal::AllPinned) {
            1int
        } else {
            0int
        }
        &&& start.evictions <= self.res.evictions <= start.evictions + self.faults.len()
    }

    /// The refused lookup is the one after those that were served.
    pub open spec fn refuses(self, start: Residency, ids: Seq<u64>) -> bool {
        match self.refusal {
            None => true,
            Some(Refusal::OutOfRange(id)) => {
                &&& id == ids[self.slots.len() as int]
                &&& id >= start.rows_total
            },
            Some(Refusal::AllPinned) => {
                &&& ids[self.slots.len() as int] < start.rows_total
                &&& !self.res.map.contains_key(ids[self.slots.len() as int])
                &&& self.res.all_pinned()
            },
        }
    }

    /// What holds of a batch's decision, whatever it looked up.
    pub open spec fn follows(self, start: Residency, ids: Seq<u64>) -> bool {
        &&& self.res.inv()
        &&& self.res.n() == start.n()
        &&& self.res.rows_total == start.rows_total
        &&& self.serves(ids)
        &&& self.reads(start, ids)
        &&& self.keeps(start)
        &&& self.counts(start)
        &&& self.refuses(start, ids)
    }
}

impl Residency {
    /// What a batch of lookups decides follows from the bookkeeping that it
    /// started with.
    pub proof fn decision_follows(self, ids: Seq<u64>)
        requires
            self.inv(),
        ensures
            self.decide(ids).follows(self, ids),
        decreases ids.len(),
    {
        if ids.len() > 0 {
            let prev = ids.drop_last();
            let id = ids.last();
            self.decision_follows(prev);
            self.one_more_follows(self.decide(prev), prev, id);
            assert(prev.push(id) =~= ids);
        }
    }

    /// Once a lookup is refused, the rest of the batch changes nothing.
    pub proof fn refusal_is_final(self, ids: Seq<u64>, k: int)
        requires
            0 <= k <= ids.len(),
            self.decide(ids.take(k)).refusal is Some,
        ensures
            self.decide(ids) == self.decide(ids.take(k)),
        decreases ids.len(),
    {
        if k < ids.len() {
            let init = ids.drop_last();
            assert(init.take(k) =~= ids.take(k));
            self.refusal_is_final(init, k);
        } else {
            assert(ids.take(k) =~= ids);
        }
    }

    proof fn one_more_follows(self, d: Decision, prev: Seq<u64>, id: u64)
        requires
            self.inv(),
            d.follows(self, prev),
        ensures
            d.and_lookup(id).follows(self, prev.push(id)),
    {
        if d.refusal is None && id < d.res.rows_total {
            if d.res.map.contains_key(id) {
                self.one_more_hit_follows(d, prev, id);
            } else if !d.res.after_miss().all_pinned() {
                self.one_more_claim_follows(d, prev, id);
            } else {
                self.one_refused_follows(d, prev, id);
            }
        } else {
            self.one_refused_follows(d, prev, id);
        }
    }

    /// What was looked up before was looked up, however much more is.
    proof fn longer_batches_contain(prev: Seq<u64>, id: u64)
        ensures
            prev.push(id)[prev.len() as int] == id,
            prev.push(id).contains(id),
            forall|i: int| 0 <= i < prev.len() ==> #[trigger] prev.push(id)[i] == prev[i],
            forall|x: u64| prev.contains(x) ==> #[trigger] prev.push(id).contains(x),
    {
        assert(prev.push(id)[prev.len() as int] == id);
        assert forall|x: u64| prev.contains(x) implies #[trigger] prev.push(id).contains(x) by {
            let i = choose|i: int| 0 <= i < prev.len() && prev[i] == x;
            assert(prev.push(id)[i] == x);
        }
    }

    proof fn one_refused_follows(self, d: Decision, prev: Seq<u64>, id: u64)
        requires
            self.inv(),
            d.follows(self, prev),
            d.refusal is Some || id >= d.res.rows_total || (!d.res.map.contains_key(id)
                && d.res.after_miss().all_pinned()),
        ensures
            d.and_lookup(id).follows(self, prev.push(id)),
    {
        let ids = prev.push(id);
        let e = d.and_lookup(id);
        Self::longer_batches_contain(prev, id);
        assert(e.slots == d.slots && e.faults == d.faults);
        assert(e.res.map == d.res.map && e.res.pinned == d.res.pinned && e.res.slot_row
            == d.res.slot_row);
        assert(e.serves(ids)) by {
            assert forall|i: int| 0 <= i < e.slots.len() implies {
                &&& #[trigger] e.res.map.contains_key(ids[i])
                &&& e.res.map[ids[i]] == e.slots[i]
                &&& e.res.pinned[e.slots[i] as int]
            } by {
                assert(d.res.map.contains_key(prev[i]));
            }
        }
        assert(e.reads(self, ids));
        assert(e.keeps(self)) by {
            assert forall|x: u64| #[trigger] e.res.map.contains_key(x) implies {
                ||| self.map.contains_key(x) && self.map[x] == e.res.map[x]
                ||| reads_row(e.faults, x)
            } by {
                assert(d.res.map.contains_key(x));
            }
        }
        assert(e.refuses(self, ids)) by {
            if e.refusal == Some(Refusal::AllPinned) && d.refusal is None {
                assert forall|s: int| 0 <= s < e.res.n() implies #[trigger] e.res.pinned[s] by {
                    assert(d.res.after_miss().pinned[s]);
                }
            }
        }
    }

    proof fn one_more_hit_follows(self, d: Decision, prev: Seq<u64>, id: u64)
        requires
            self.inv(),
            d.follows(self, prev),
            d.refusal is None,
            id < d.res.rows_total,
            d.res.map.contains_key(id),
        ensures
            d.and_lookup(id).follows(self, prev.push(id)),
    {
        let ids = prev.push(id);
        let e = d.and_lookup(id);
        Self::longer_batches_contain(prev, id);
        d.res.hit_keeps_inv(id);
        assert(e.slots == d.slots.push(d.res.map[id]) && e.faults == d.faults);
        assert(e.res.map == d.res.map && e.res.slot_row == d.res.slot_row);
        assert(forall|t: int|
            0 <= t < self.n() && #[trigger] d.res.pinned[t] ==> e.res.pinned[t]);
        assert(e.serves(ids)) by {
            assert forall|i: int| 0 <= i < e.slots.len() implies {
                &&& #[trigger] e.res.map.contains_key(ids[i])
                &&& e.res.map[ids[i]] == e.slots[i]
                &&& e.res.pinned[e.slots[i] as int]
            } by {
                if i < prev.len() {
                    assert(d.res.map.contains_key(prev[i]));
                    assert(d.res.pinned[d.slots[i] as int]);
                }
            }
        }
        assert(e.reads(self, ids)) by {
            assert forall|i: int| 0 <= i < e.faults.len() implies e.res.pinned[(
            #[trigger] e.faults[i]).slot as int] by {
                assert(d.res.pinned[d.faults[i].slot as int]);
            }
        }
        assert(e.keeps(self)) by {
            assert forall|x: u64| #[trigger] e.res.map.contains_key(x) implies {
                ||| self.map.contains_key(x) && self.map[x] == e.res.map[x]
                ||| reads_row(e.faults, x)
            } by {
                assert(d.res.map.contains_key(x));
            }
            assert forall|s: int| 0 <= s < self.n() && self.pinned[s] implies #[trigger] e.res.pinned[s]
                && e.res.slot_row[s] == self.slot_row[s] by {
                assert(d.res.pinned[s]);
            }
            self.pinned_or_handed_out(d, e);
        }
    }

    /// Handing out one slot more, and pinning it, pins nothing else.
    proof fn pinned_or_handed_out(self, d: Decision, e: Decision)
        requires
            d.keeps(self),
            d.res.pinned.len() == self.n(),
            self.n() <= 0x1_0000_0000,
            e.slots.len() == d.slots.len() + 1,
            e.slots == d.slots.push(e.slots.last()),
            e.slots.last() < self.n(),
            e.res.pinned == d.res.pinned.update(e.slots.last() as int, true),
        ensures
            forall|s: int|
                0 <= s < self.n() && #[trigger] e.res.pinned[s] ==> self.pinned[s]
                    || e.slots.contains(s as u32),
    {
        assert forall|t: int| 0 <= t < self.n() && #[trigger] e.res.pinned[t] implies self.pinned[t]
            || e.slots.contains(t as u32) by {
            if e.slots.last() == t {
                assert(e.slots[d.slots.len() as int] == t as u32);
            } else {
                assert(d.res.pinned[t]);
                if d.slots.contains(t as u32) {
                    let k = choose|k: int| 0 <= k < d.slots.len() && d.slots[k] == t as u32;
                    assert(e.slots[k] == t as u32);
                }
            }
        }
    }

    proof fn one_more_claim_follows(self, d: Decision, prev: Seq<u64>, id: u64)
        requires
            self.inv(),
            d.follows(self, prev),
            d.refusal is None,
            id < d.res.rows_total,
            !d.res.map.contains_key(id),
            !d.res.after_miss().all_pinned(),
        ensures
            d.and_lookup(id).follows(self, prev.push(id)),
    {
        let ids = prev.push(id);
        let e = d.and_lookup(id);
        let m = d.res.after_miss();
        let s = m.victim_slot();
        Self::longer_batches_contain(prev, id);
        m.claim_keeps_inv(id);
        assert(s as u32 == s);
        assert(e.slots == d.slots.push(s as u32));
        assert(e.faults == d.faults.push(Fault { id, slot: s as u32 }));
        assert(e.res.pinned == d.res.pinned.update(s, true));
        assert(e.res.slot_row == d.res.slot_row.update(s, id));
        assert(e.serves(ids)) by {
            assert forall|i: int| 0 <= i < e.slots.len() implies {
                &&& #[trigger] e.res.map.contains_key(ids[i])
                &&& e.res.map[ids[i]] == e.slots[i]
                &&& e.res.pinned[e.slots[i] as int]
            } by {
                if i < prev.len() {
                    assert(d.res.map.contains_key(prev[i]));
                    assert(d.res.map[prev[i]] != s);
                    assert(e.res.map[prev[i]] == d.res.map[prev[i]]);
                }
            }
        }
        assert(e.reads(self, ids)) by {
            assert forall|i: int| 0 <= i < e.faults.len() implies {
                &&& (#[trigger] e.faults[i]).id < self.rows_total
                &&& ids.contains(e.faults[i].id)
                &&& e.res.map.contains_key(e.faults[i].id)
                &&& e.res.map[e.faults[i].id] == e.faults[i].slot
                &&& e.faults[i].slot < self.n()
                &&& !self.pinned[e.faults[i].slot as int]
                &&& e.res.pinned[e.faults[i].slot as int]
            } by {
                if i < d.faults.len() {
                    let f = d.faults[i];
                    assert(e.faults[i] == f);
                    assert(d.res.map.contains_key(f.id));
                    assert(f.slot != s);
                    assert(e.res.map[f.id] == d.res.map[f.id]);
                } else {
                    assert(e.faults[i] == (Fault { id, slot: s as u32 }));
                    if self.pinned[s] {
                        assert(d.res.pinned[s]);
                    }
                }
            }
            assert forall|i: int, j: int| 0 <= i < j < e.faults.len() implies (
            #[trigger] e.faults[i]).id != (#[trigger] e.faults[j]).id by {
                assert(d.res.map.contains_key(d.faults[i].id));
                if j < d.faults.len() {
                    assert(d.faults[i].id != d.faults[j].id);
                }
            }
        }
        assert(e.keeps(self)) by {
            assert forall|x: u64| #[trigger] e.res.map.contains_key(x) implies {
                ||| self.map.contains_key(x) && self.map[x] == e.res.map[x]
                ||| reads_row(e.faults, x)
            } by {
                if x == id {
                    assert(e.faults[d.faults.len() as int].id == x);
                } else {
                    assert(e.res.map[x] == d.res.map[x]);
                    assert(d.res.map.contains_key(x));
                    if reads_row(d.faults, x) {
                        let i = choose|i: int|
                            0 <= i < d.faults.len() && (#[trigger] d.faults[i]).id == x;
                        assert(e.faults[i].id == x);
                    }
                }
            }
            assert forall|t: int| 0 <= t < self.n() && self.pinned[t] implies #[trigger] e.res.pinned[t]
                && e.res.slot_row[t] == self.slot_row[t] by {
                assert(d.res.pinned[t]);
            }
            self.pinned_or_handed_out(d, e);
        }
    }

    /// Withdrawing no claim changes nothing.
    pub proof fn released_nothing(self)
        ensures
            self.released(Seq::empty()) == self,
    {
        assert(self.released(Seq::empty()).map =~= self.map);
        assert(self.released(Seq::empty()).slot_row =~= self.slot_row);
    }

    /// Withdrawing one claim more.
    pub proof fn released_one_more(self, faults: Seq<Fault>, f: Fault)
        requires
            f.slot < self.n(),
        ensures
            ({
                let now = self.released(faults);
                let next = self.released(faults.push(f));
                &&& next.map =~= if now.map.contains_key(f.id) && now.map[f.id] == f.slot {
                    now.map.remove(f.id)
                } else {
                    now.map
                }
                &&& next.slot_row =~= if now.slot_row[f.slot as int] == f.id {
                    now.slot_row.update(f.slot as int, EMPTY)
                } else {
                    now.slot_row
                }
            }),
    {
        let more = faults.push(f);
        assert forall|id: u64| #[trigger] self.still_maps(more, id) == (self.still_maps(faults, id)
            || (f.id == id && self.map[id] == f.slot)) by {
            if self.still_maps(faults, id) {
                let i = choose|i: int|
                    0 <= i < faults.len() && (#[trigger] faults[i]).id == id && self.map[id]
                        == faults[i].slot;
                assert(more[i] == faults[i]);
            }
            if f.id == id && self.map[id] == f.slot {
                assert(more[faults.len() as int] == f);
            }
        }
        assert forall|s: int| #[trigger] self.still_holds(more, s) == (self.still_holds(faults, s)
            || (f.slot == s && self.slot_row[s] == f.id)) by {
            if self.still_holds(faults, s) {
                let i = choose|i: int|
                    0 <= i < faults.len() && (#[trigger] faults[i]).slot == s && self.slot_row[s]
                        == faults[i].id;
                assert(more[i] == faults[i]);
            }
            if f.slot == s && self.slot_row[s] == f.id {
                assert(more[faults.len() as int] == f);
            }
        }
    }

    /// Withdrawing claims leaves rows and slots naming each other, and leaves
    /// every row alone whose slot none of the claims gave it.
    pub proof fn release_keeps_inv(self, faults: Seq<Fault>)
        requires
            self.inv(),
        ensures
            self.released(faults).inv(),
            forall|id: u64| #[trigger]
                self.released(faults).map.contains_key(id) <==> self.map.contains_key(id)
                    && !self.still_maps(faults, id),
    {
        let r = self.released(faults);
        assert forall|id: u64| #[trigger] r.map.contains_key(id) implies {
            &&& id < r.rows_total
            &&& r.map[id] < r.n()
            &&& r.slot_row[r.map[id] as int] == id
        } by {
            assert(self.map.contains_key(id));
            let s = self.map[id] as int;
            if self.still_holds(faults, s) {
                let i = choose|i: int|
                    0 <= i < faults.len() && (#[trigger] faults[i]).slot == s && self.slot_row[s]
                        == faults[i].id;
                assert(faults[i].id == id);
                assert(self.still_maps(faults, id));
            }
        }
        assert forall|s: int| 0 <= s < r.n() && #[trigger] r.slot_row[s] != EMPTY implies {
            &&& r.map.contains_key(r.slot_row[s])
            &&& r.map[r.slot_row[s]] == s
        } by {
            assert(self.slot_row[s] != EMPTY);
            let id = self.slot_row[s];
            if self.still_maps(faults, id) {
                let i = choose|i: int|
                    0 <= i < faults.len() && (#[trigger] faults[i]).id == id && self.map[id]
                        == faults[i].slot;
                assert(faults[i].slot == s);
                assert(self.still_holds(faults, s));
            }
        }
    }

    /// Withdrawing the claims of a batch leaves no row of it resident that was
    /// still to be read.
    pub proof fn release_drops_every_read(self, ids: Seq<u64>)
        requires
            self.inv(),
        ensures
            ({
                let d = self.decide(ids);
                let r = d.res.released(d.faults);
                &&& r.inv()
                &&& forall|id: u64| #[trigger]
                    r.map.contains_key(id) <==> d.res.map.contains_key(id) && !reads_row(
                        d.faults,
                        id,
                    )
                &&& forall|id: u64| #[trigger]
                    r.map.contains_key(id) ==> self.map.contains_key(id) && self.map[id]
                        == r.map[id]
            }),
    {
        let d = self.decide(ids);
        let r = d.res.released(d.faults);
        self.decision_follows(ids);
        d.res.release_keeps_inv(d.faults);
        assert forall|id: u64| d.res.map.contains_key(id) implies #[trigger] d.res.still_maps(
            d.faults,
            id,
        ) == reads_row(d.faults, id) by {
            if reads_row(d.faults, id) {
                let i = choose|i: int| 0 <= i < d.faults.len() && (#[trigger] d.faults[i]).id == id;
                assert(d.res.map[d.faults[i].id] == d.faults[i].slot);
            }
        }
    }

    /// Ending a batch leaves rows and slots naming each other.
    pub proof fn unpin_keeps_inv(self)
        requires
            self.inv(),
        ensures
            self.unpinned().inv(),
    {
    }

    /// A cache without rows is in order.
    pub proof fn fresh_has_inv(rows_total: u64, slots: nat)
        requires
            0 < slots <= 0x1_0000_0000,
        ensures
            Residency::fresh(rows_total, slots).inv(),
    {
    }
}

} // verus!
