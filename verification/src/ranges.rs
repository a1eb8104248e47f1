//! The range index: per-epoch and global min/max slot coverage of the
//! provisioned partitions, and the slot-coverage check.

use crate::epoch::EpochSchedule;
use vstd::prelude::*;

verus! {

/// One aggregated row of the range index: the slot extent of one epoch's
/// partition.
#[derive(Clone, Copy, PartialEq, Eq, Structural, Debug)]
pub struct EpochSlotRange {
    pub epoch: u64,
    pub min_slot: u64,
    pub max_slot: u64,
}

/// One slot row of some partition, tagged with its epoch.
#[derive(Clone, Copy, PartialEq, Eq, Structural, Debug)]
pub struct SlotRow {
    pub epoch: u64,
    pub slot: u64,
}

/// Each epoch appears in at most one entry.
pub open spec fn distinct_epochs(s: Seq<EpochSlotRange>) -> bool {
    forall|i: int, j: int| 0 <= i < j < s.len() ==> s[i].epoch != s[j].epoch
}

/// Whether some row carries epoch `e`.
pub open spec fn has_epoch(rows: Seq<SlotRow>, e: u64) -> bool
    decreases rows.len(),
{
    rows.len() > 0 && (rows.last().epoch == e || has_epoch(rows.drop_last(), e))
}

/// The least slot among the rows of epoch `e` (meaningful only when
/// `has_epoch(rows, e)`).
pub open spec fn epoch_min(rows: Seq<SlotRow>, e: u64) -> u64
    decreases rows.len(),
{
    if rows.len() == 0 {
        0
    } else if rows.last().epoch == e {
        if has_epoch(rows.drop_last(), e) {
            if rows.last().slot < epoch_min(rows.drop_last(), e) {
                rows.last().slot
            } else {
                epoch_min(rows.drop_last(), e)
            }
        } else {
            rows.last().slot
        }
    } else {
        epoch_min(rows.drop_last(), e)
    }
}

/// The greatest slot among the rows of epoch `e` (meaningful only when
/// `has_epoch(rows, e)`).
pub open spec fn epoch_max(rows: Seq<SlotRow>, e: u64) -> u64
    decreases rows.len(),
{
    if rows.len() == 0 {
        0
    } else if rows.last().epoch == e {
        if has_epoch(rows.drop_last(), e) {
            if rows.last().slot > epoch_max(rows.drop_last(), e) {
                rows.last().slot
            } else {
                epoch_max(rows.drop_last(), e)
            }
        } else {
            rows.last().slot
        }
    } else {
        epoch_max(rows.drop_last(), e)
    }
}

/// An epoch's least slot never exceeds its greatest.
pub proof fn lemma_epoch_min_le_max(rows: Seq<SlotRow>, e: u64)
    requires
        has_epoch(rows, e),
    ensures
        epoch_min(rows, e) <= epoch_max(rows, e),
    decreases rows.len(),
{
    if rows.len() > 0 && has_epoch(rows.drop_last(), e) {
        lemma_epoch_min_le_max(rows.drop_last(), e);
    }
}

/// Whether the index entries include epoch `e`.
pub open spec fn has_entry(s: Seq<EpochSlotRange>, e: u64) -> bool
    decreases s.len(),
{
    s.len() > 0 && (s.last().epoch == e || has_entry(s.drop_last(), e))
}

/// An epoch has an entry exactly when some entry index carries it.
pub proof fn lemma_has_entry_witness(s: Seq<EpochSlotRange>, e: u64)
    ensures
        has_entry(s, e) <==> (exists|j: int|
            #![trigger s[j]]
            0 <= j < s.len() && s[j].epoch == e),
    decreases s.len(),
{
    if s.len() > 0 {
        lemma_has_entry_witness(s.drop_last(), e);
        assert(forall|j: int| 0 <= j < s.len() - 1 ==> s.drop_last()[j] == s[j]);
        if has_entry(s, e) {
            if s.last().epoch == e {
                assert(s[s.len() - 1].epoch == e);
            }
        }
        if exists|j: int| #![trigger s[j]] 0 <= j < s.len() && s[j].epoch == e {
            let j = choose|j: int| #![trigger s[j]] 0 <= j < s.len() && s[j].epoch == e;
            if j < s.len() - 1 {
                assert(s.drop_last()[j].epoch == e);
            }
        }
    }
}

/// Which epochs have entries depends only on the entries' epoch fields.
pub proof fn lemma_has_entry_pointwise(s1: Seq<EpochSlotRange>, s2: Seq<EpochSlotRange>, e: u64)
    requires
        s1.len() == s2.len(),
        forall|k: int| 0 <= k < s1.len() ==> #[trigger] s1[k].epoch == s2[k].epoch,
    ensures
        has_entry(s1, e) == has_entry(s2, e),
    decreases s1.len(),
{
    if s1.len() > 0 {
        assert(forall|k: int|
            0 <= k < s1.len() - 1 ==> #[trigger] s1.drop_last()[k].epoch == s2.drop_last()[
                k
            ].epoch);
        lemma_has_entry_pointwise(s1.drop_last(), s2.drop_last(), e);
        assert(s1[s1.len() - 1].epoch == s2[s2.len() - 1].epoch);
    }
}

/// Aggregates tagged slot rows into one entry per epoch that occurs, holding
/// exactly that epoch's minimum and maximum slot.
pub fn aggregate_slot_rows(rows: &Vec<SlotRow>) -> (r: Vec<EpochSlotRange>)
    ensures
        distinct_epochs(r@),
        forall|j: int|
            #![trigger r@[j]]
            0 <= j < r@.len() ==> has_epoch(rows@, r@[j].epoch) && r@[j].min_slot == epoch_min(
                rows@,
                r@[j].epoch,
            ) && r@[j].max_slot == epoch_max(rows@, r@[j].epoch),
        forall|e: u64|
            #![trigger has_entry(r@, e)]
            #![trigger has_epoch(rows@, e)]
            has_entry(r@, e) <==> has_epoch(rows@, e),
{
    let mut acc: Vec<EpochSlotRange> = Vec::new();
    let mut i: usize = 0;
    while i < rows.len()
        invariant
            0 <= i <= rows@.len(),
            distinct_epochs(acc@),
            forall|j: int|
                #![trigger acc@[j]]
                0 <= j < acc@.len() ==> has_epoch(rows@.take(i as int), acc@[j].epoch) && acc@[
                    j
                ].min_slot == epoch_min(rows@.take(i as int), acc@[j].epoch) && acc@[j].max_slot
                    == epoch_max(rows@.take(i as int), acc@[j].epoch),
            forall|e: u64|
                #![trigger has_entry(acc@, e)]
                #![trigger has_epoch(rows@.take(i as int), e)]
                has_entry(acc@, e) <==> has_epoch(rows@.take(i as int), e),
        decreases rows@.len() - i,
    {
        let ghost t = rows@.take(i + 1);
        let ghost p = rows@.take(i as int);
        let row = rows[i];
        proof {
            assert(t.drop_last() =~= p);
            assert(t.last() == rows@[i as int]);
        }
        let mut j: usize = 0;
        let mut found = false;
        while j < acc.len() && !found
            invariant
                0 <= j <= acc@.len(),
                !found ==> forall|k: int| 0 <= k < j ==> acc@[k].epoch != row.epoch,
                found ==> j < acc@.len() && acc@[j as int].epoch == row.epoch,
            decreases acc@.len() - j + (if found { 0int } else { 1int }),
        {
            if acc[j].epoch == row.epoch {
                found = true;
            } else {
                j = j + 1;
            }
        }
        if found {
            let ghost old_acc = acc@;
            let mut entry = acc[j];
            if row.slot < entry.min_slot {
                entry.min_slot = row.slot;
            }
            if row.slot > entry.max_slot {
                entry.max_slot = row.slot;
            }
            acc.set(j, entry);
            proof {
                assert(forall|k: int|
                    0 <= k < acc@.len() ==> #[trigger] acc@[k].epoch == old_acc[k].epoch);
                assert forall|jj: int|
                    #![trigger acc@[jj]]
                    0 <= jj < acc@.len() implies has_epoch(t, acc@[jj].epoch) && acc@[jj].min_slot
                    == epoch_min(t, acc@[jj].epoch) && acc@[jj].max_slot == epoch_max(
                    t,
                    acc@[jj].epoch,
                ) by {
                    if jj == j {
                        assert(has_epoch(p, old_acc[jj].epoch));
                    } else {
                        assert(acc@[jj] == old_acc[jj]);
                        assert(acc@[jj].epoch != row.epoch);
                    }
                }
                assert forall|e: u64|
                    #![trigger has_entry(acc@, e)]
                    #![trigger has_epoch(t, e)]
                    has_entry(acc@, e) == has_epoch(t, e) by {
                    lemma_has_entry_pointwise(old_acc, acc@, e);
                    if e == row.epoch {
                        lemma_has_entry_witness(old_acc, e);
                        assert(old_acc[j as int].epoch == e);
                    }
                }
            }
        } else {
            let ghost old_acc = acc@;
            acc.push(EpochSlotRange { epoch: row.epoch, min_slot: row.slot, max_slot: row.slot });
            proof {
                assert(acc@.drop_last() =~= old_acc);
                assert(forall|k: int| 0 <= k < old_acc.len() ==> acc@[k] == old_acc[k]);
                assert(!has_epoch(p, row.epoch)) by {
                    if has_epoch(p, row.epoch) {
                        assert(has_entry(old_acc, row.epoch));
                        lemma_has_entry_witness(old_acc, row.epoch);
                        let jj = choose|jj: int|
                            #![trigger old_acc[jj]]
                            0 <= jj < old_acc.len() && old_acc[jj].epoch == row.epoch;
                        assert(old_acc[jj].epoch != row.epoch);
                    }
                }
                assert forall|jj: int|
                    #![trigger acc@[jj]]
                    0 <= jj < acc@.len() implies has_epoch(t, acc@[jj].epoch) && acc@[jj].min_slot
                    == epoch_min(t, acc@[jj].epoch) && acc@[jj].max_slot == epoch_max(
                    t,
                    acc@[jj].epoch,
                ) by {
                    if jj < acc@.len() - 1 {
                        assert(acc@[jj] == old_acc[jj]);
                        assert(acc@[jj].epoch != row.epoch);
                    } else {
                        assert(acc@[jj].epoch == row.epoch);
                    }
                }
                assert forall|e: u64|
                    #![trigger has_entry(acc@, e)]
                    #![trigger has_epoch(t, e)]
                    has_entry(acc@, e) == has_epoch(t, e) by {
                    assert(has_entry(acc@, e) == (acc@.last().epoch == e || has_entry(
                        old_acc,
                        e,
                    )));
                    assert(has_epoch(t, e) == (t.last().epoch == e || has_epoch(p, e)));
                }
            }
        }
        i = i + 1;
    }
    proof {
        assert(rows@.take(rows@.len() as int) =~= rows@);
    }
    acc
}

/// The entry of `epoch`, if the index has one.
pub open spec fn spec_lookup(s: Seq<EpochSlotRange>, epoch: u64) -> Option<EpochSlotRange>
    decreases s.len(),
{
    if s.len() == 0 {
        None
    } else if s.last().epoch == epoch {
        Some(s.last())
    } else {
        spec_lookup(s.drop_last(), epoch)
    }
}

/// A found entry is an entry of the sequence with the epoch asked for.
pub proof fn lemma_lookup_properties(s: Seq<EpochSlotRange>, epoch: u64)
    ensures
        spec_lookup(s, epoch) is Some ==> exists|j: int|
            0 <= j < s.len() && #[trigger] s[j] == spec_lookup(s, epoch)->Some_0 && s[
                j
            ].epoch == epoch,
        spec_lookup(s, epoch) is None ==> forall|j: int|
            0 <= j < s.len() ==> #[trigger] s[j].epoch != epoch,
    decreases s.len(),
{
    if s.len() > 0 {
        lemma_lookup_properties(s.drop_last(), epoch);
        assert(forall|j: int| 0 <= j < s.len() - 1 ==> s[j] == s.drop_last()[j]);
        if s.last().epoch == epoch {
            assert(s[s.len() - 1] == spec_lookup(s, epoch)->Some_0);
        }
    }
}

/// The per-epoch slot coverage of the provisioned partitions.
pub struct RangeIndex {
    pub entries: Vec<EpochSlotRange>,
}

impl RangeIndex {
    /// Well-formed: one entry per epoch, each with an ordered extent.
    pub open spec fn wf(&self) -> bool {
        distinct_epochs(self.entries@) && forall|j: int|
            0 <= j < self.entries@.len() ==> #[trigger] self.entries@[j].min_slot
                <= self.entries@[j].max_slot
    }

    /// Builds the index from aggregated range rows; each epoch number must
    /// appear in exactly one row, which the caller has checked.
    pub fn new(entries: Vec<EpochSlotRange>) -> (r: Self)
        requires
            distinct_epochs(entries@),
            forall|j: int|
                0 <= j < entries@.len() ==> #[trigger] entries@[j].min_slot <= entries@[
                    j
                ].max_slot,
        ensures
            r.wf(),
            r.entries@ == entries@,
    {
        RangeIndex { entries }
    }

    /// Builds the index straight from tagged slot rows: one entry per epoch
    /// that occurs, with that epoch's least and greatest slot.
    pub fn from_slot_rows(rows: &Vec<SlotRow>) -> (r: Self)
        ensures
            r.wf(),
            forall|j: int|
                #![trigger r.entries@[j]]
                0 <= j < r.entries@.len() ==> has_epoch(rows@, r.entries@[j].epoch)
                    && r.entries@[j].min_slot == epoch_min(rows@, r.entries@[j].epoch)
                    && r.entries@[j].max_slot == epoch_max(rows@, r.entries@[j].epoch),
            forall|e: u64|
                #![trigger has_entry(r.entries@, e)]
                #![trigger has_epoch(rows@, e)]
                has_entry(r.entries@, e) <==> has_epoch(rows@, e),
    {
        let entries = aggregate_slot_rows(rows);
        proof {
            assert forall|j: int| 0 <= j < entries@.len() implies #[trigger] entries@[
                j
            ].min_slot <= entries@[j].max_slot by {
                lemma_epoch_min_le_max(rows@, entries@[j].epoch);
            }
        }
        RangeIndex { entries }
    }

    /// The slot extent of `epoch`'s partition, if one is provisioned.
    pub fn lookup(&self, epoch: u64) -> (r: Option<EpochSlotRange>)
        ensures
            r == spec_lookup(self.entries@, epoch),
    {
        let mut j: usize = self.entries.len();
        proof {
            assert(self.entries@.take(self.entries@.len() as int) =~= self.entries@);
        }
        while j > 0
            invariant
                0 <= j <= self.entries@.len(),
                spec_lookup(self.entries@, epoch) == spec_lookup(
                    self.entries@.take(j as int),
                    epoch,
                ),
            decreases j,
        {
            j = j - 1;
            proof {
                assert(self.entries@.take(j + 1).drop_last() =~= self.entries@.take(j as int));
                assert(self.entries@.take(j + 1).last() == self.entries@[j as int]);
            }
            if self.entries[j].epoch == epoch {
                return Some(self.entries[j]);
            }
        }
        proof {
            assert(self.entries@.take(0) =~= Seq::<EpochSlotRange>::empty());
        }
        None
    }

    /// The number of provisioned partitions the index covers.
    pub fn len(&self) -> (r: usize)
        ensures
            r == self.entries@.len(),
    {
        self.entries.len()
    }

    /// The global covered range: the least minimum and greatest maximum over
    /// all partitions, or `None` when no partition exists.
    pub fn global_range(&self) -> (r: Option<(u64, u64)>)
        ensures
            r is Some <==> self.entries@.len() > 0,
            r is Some ==> {
                let (lo, hi) = r->Some_0;
                (forall|j: int|
                    #![trigger self.entries@[j]]
                    0 <= j < self.entries@.len() ==> lo <= self.entries@[j].min_slot
                        && self.entries@[j].max_slot <= hi) && (exists|j: int|
                    #![trigger self.entries@[j]]
                    0 <= j < self.entries@.len() && self.entries@[j].min_slot == lo) && (exists|j: int|
                    #![trigger self.entries@[j]]
                    0 <= j < self.entries@.len() && self.entries@[j].max_slot == hi)
            },
    {
        if self.entries.len() == 0 {
            return None;
        }
        let mut lo = self.entries[0].min_slot;
        let mut hi = self.entries[0].max_slot;
        let mut j: usize = 1;
        proof {
            assert(self.entries@[0].min_slot == lo);
            assert(self.entries@[0].max_slot == hi);
        }
        while j < self.entries.len()
            invariant
                1 <= j <= self.entries@.len(),
                forall|k: int|
                    #![trigger self.entries@[k]]
                    0 <= k < j ==> lo <= self.entries@[k].min_slot
                        && self.entries@[k].max_slot <= hi,
                exists|k: int| #![trigger self.entries@[k]] 0 <= k < j && self.entries@[k].min_slot == lo,
                exists|k: int| #![trigger self.entries@[k]] 0 <= k < j && self.entries@[k].max_slot == hi,
            decreases self.entries@.len() - j,
        {
            let ghost old_lo = lo;
            let ghost old_hi = hi;
            if self.entries[j].min_slot < lo {
                lo = self.entries[j].min_slot;
            }
            if self.entries[j].max_slot > hi {
                hi = self.entries[j].max_slot;
            }
            proof {
                assert(lo <= old_lo && old_hi <= hi);
                assert(lo <= self.entries@[j as int].min_slot);
                assert(self.entries@[j as int].max_slot <= hi);
                assert forall|k: int|
                    #![trigger self.entries@[k]]
                    0 <= k < j + 1 implies lo <= self.entries@[k].min_slot
                    && self.entries@[k].max_slot <= hi by {
                    if k < j {
                        assert(old_lo <= self.entries@[k].min_slot);
                        assert(self.entries@[k].max_slot <= old_hi);
                    }
                }
                if lo == self.entries@[j as int].min_slot {
                    assert(self.entries@[j as int].min_slot == lo);
                } else {
                    let k = choose|k: int|
                        #![trigger self.entries@[k]]
                        0 <= k < j && self.entries@[k].min_slot == old_lo;
                    assert(self.entries@[k].min_slot == lo);
                }
                if hi == self.entries@[j as int].max_slot {
                    assert(self.entries@[j as int].max_slot == hi);
                } else {
                    let k = choose|k: int|
                        #![trigger self.entries@[k]]
                        0 <= k < j && self.entries@[k].max_slot == old_hi;
                    assert(self.entries@[k].max_slot == hi);
                }
            }
            j = j + 1;
        }
        Some((lo, hi))
    }

    /// Whether `slot` falls within the covered range of its own epoch's
    /// partition; `false`, not an error, when that epoch has none.
    pub fn is_slot_covered(&self, slot: u64, schedule: &EpochSchedule) -> (r: bool)
        requires
            schedule.wf(),
        ensures
            r == match spec_lookup(self.entries@, schedule.spec_epoch_of_slot(slot)) {
                Some(range) => range.min_slot <= slot <= range.max_slot,
                None => false,
            },
    {
        let epoch = schedule.epoch_of_slot(slot);
        match self.lookup(epoch) {
            Some(range) => range.min_slot <= slot && slot <= range.max_slot,
            None => false,
        }
    }
}

} // verus!
