//! The epoch-partitioned block store, modelled over the rows it owns: lazily
//! provisioned per-epoch partitions, deduplicated block inserts keyed by
//! slot, transaction fan-out rows written only for newly inserted blocks,
//! the partial-failure policy of the fan-out, the range queries, and the
//! read path with its deliberate limitations. The sessions that carry these
//! rows to the database execute the statements of `sql`; every decision
//! about what to write and what to answer is verified here.

use crate::epoch::EpochSchedule;
use crate::ranges::{
    epoch_max, epoch_min, has_entry, has_epoch, lemma_lookup_properties, spec_lookup, RangeIndex,
    SlotRow,
};
use crate::sql::{analyze_statement, spec_analyze_statement};
use vstd::prelude::*;

verus! {

/// Confidence tier of a block's finality.
#[derive(Clone, Copy, PartialEq, Eq, Structural, Debug)]
pub enum CommitmentLevel {
    Processed,
    Confirmed,
    Finalized,
}

/// One transaction of a produced block, as handed to the store.
#[derive(Clone, PartialEq, Eq, Debug)]
pub struct TransactionInfo {
    pub signature: String,
    pub is_vote: bool,
    pub err: Option<String>,
    pub cu_requested: Option<u64>,
    pub prioritization_fees: Option<u64>,
    pub cu_consumed: Option<u64>,
    pub recent_blockhash: String,
    pub message: String,
}

/// A finalized block with its transactions, as produced by the chain.
#[derive(Clone, PartialEq, Eq, Debug)]
pub struct ProducedBlock {
    pub slot: u64,
    pub blockhash: String,
    pub block_height: u64,
    pub parent_slot: u64,
    pub block_time: u64,
    pub previous_blockhash: String,
    pub rewards: Option<String>,
    pub leader_id: Option<String>,
    pub commitment: CommitmentLevel,
    pub transactions: Vec<TransactionInfo>,
}

/// One block row of a partition.
#[derive(Debug)]
pub struct StoredBlock {
    pub epoch: u64,
    pub slot: u64,
    pub blockhash: String,
    pub block_height: u64,
    pub parent_slot: u64,
    pub block_time: u64,
    pub previous_blockhash: String,
    pub rewards: Option<String>,
    pub leader_id: Option<String>,
}

/// One transaction row of a partition, keyed to its block by slot.
#[derive(Debug)]
pub struct TransactionRecord {
    pub signature: String,
    pub slot: u64,
    pub is_vote: bool,
    pub error: Option<String>,
    pub cu_requested: Option<u64>,
    pub cu_consumed: Option<u64>,
    pub prioritization_fees: Option<u64>,
    pub recent_blockhash: String,
    pub message: String,
}

/// The store's error cases, each carrying the slot and epoch it names.
#[derive(Clone, Copy, PartialEq, Eq, Structural, Debug)]
pub enum StoreError {
    /// The slot's epoch has no provisioned partition to write into.
    PartitionMissing { epoch: u64, slot: u64 },
    /// No block row exists for the slot asked for.
    BlockNotFound { slot: u64, epoch: u64 },
    /// The block row committed but some transaction chunk failed: the block
    /// persists with incomplete transactions, which the caller must see.
    TransactionsIncomplete { slot: u64 },
}

/// A maintenance task: which write session runs which statement.
pub struct MaintenanceTask {
    pub statement: String,
    pub session_index: usize,
}

#[derive(Default, Clone, Copy)]
pub struct PostgresData {
}

pub open spec fn opt_str_view(o: Option<String>) -> Option<Seq<char>> {
    match o {
        Some(s) => Some(s@),
        None => None,
    }
}

/// A stored block row holds exactly the written block's columns.
pub open spec fn matches_stored(sb: StoredBlock, epoch: u64, b: ProducedBlock) -> bool {
    sb.epoch == epoch && sb.slot == b.slot && sb.blockhash@ == b.blockhash@ && sb.block_height
        == b.block_height && sb.parent_slot == b.parent_slot && sb.block_time == b.block_time
        && sb.previous_blockhash@ == b.previous_blockhash@ && opt_str_view(sb.rewards)
        == opt_str_view(b.rewards) && opt_str_view(sb.leader_id) == opt_str_view(b.leader_id)
}

/// A transaction row holds exactly one transaction's columns, keyed by the
/// owning block's slot.
pub open spec fn matches_record(rec: TransactionRecord, t: TransactionInfo, slot: u64) -> bool {
    rec.signature@ == t.signature@ && rec.slot == slot && rec.is_vote == t.is_vote && opt_str_view(
        rec.error,
    ) == opt_str_view(t.err) && rec.cu_requested == t.cu_requested && rec.cu_consumed
        == t.cu_consumed && rec.prioritization_fees == t.prioritization_fees
        && rec.recent_blockhash@ == t.recent_blockhash@ && rec.message@ == t.message@
}

/// What the read path answers for a stored row: the block's columns, an
/// empty transaction list, and a synthetic confirmed commitment — the
/// transactions are not reconstructed on read, by design.
pub open spec fn matches_produced(out: ProducedBlock, sb: StoredBlock) -> bool {
    out.slot == sb.slot && out.blockhash@ == sb.blockhash@ && out.block_height == sb.block_height
        && out.parent_slot == sb.parent_slot && out.block_time == sb.block_time
        && out.previous_blockhash@ == sb.previous_blockhash@ && opt_str_view(out.rewards)
        == opt_str_view(sb.rewards) && opt_str_view(out.leader_id) == opt_str_view(sb.leader_id)
        && out.transactions@.len() == 0 && out.commitment == CommitmentLevel::Confirmed
}

/// Whether some block row carries `slot`.
pub open spec fn spec_has_slot(blocks: Seq<StoredBlock>, slot: u64) -> bool
    decreases blocks.len(),
{
    blocks.len() > 0 && (blocks.last().slot == slot || spec_has_slot(blocks.drop_last(), slot))
}

/// A slot is stored exactly when some row index carries it.
pub proof fn lemma_has_slot_witness(blocks: Seq<StoredBlock>, slot: u64)
    ensures
        spec_has_slot(blocks, slot) <==> (exists|i: int|
            #![trigger blocks[i]]
            0 <= i < blocks.len() && blocks[i].slot == slot),
    decreases blocks.len(),
{
    if blocks.len() > 0 {
        lemma_has_slot_witness(blocks.drop_last(), slot);
        assert(forall|i: int| 0 <= i < blocks.len() - 1 ==> blocks.drop_last()[i] == blocks[i]);
        if spec_has_slot(blocks, slot) {
            if blocks.last().slot == slot {
                assert(blocks[blocks.len() - 1].slot == slot);
            }
        }
        if exists|i: int| #![trigger blocks[i]] 0 <= i < blocks.len() && blocks[i].slot == slot {
            let i = choose|i: int|
                #![trigger blocks[i]]
                0 <= i < blocks.len() && blocks[i].slot == slot;
            if i < blocks.len() - 1 {
                assert(blocks.drop_last()[i].slot == slot);
            }
        }
    }
}

/// Each slot appears in at most one block row.
pub open spec fn distinct_slots(blocks: Seq<StoredBlock>) -> bool {
    forall|i: int, j: int| 0 <= i < j < blocks.len() ==> blocks[i].slot != blocks[j].slot
}

/// The provisioned-epoch set after an idempotent create of `e`.
pub open spec fn ensure_provisioned(s: Seq<u64>, e: u64) -> Seq<u64> {
    if s.contains(e) {
        s
    } else {
        s.push(e)
    }
}

/// Idempotent partition provisioning: creating a fresh epoch's partition
/// reports it as created; an immediate repeat finds it in place, reports
/// nothing created, and leaves the provisioned set exactly as it was.
pub proof fn lemma_ensure_partition_idempotent(s: Seq<u64>, e: u64)
    requires
        !s.contains(e),
    ensures
        ensure_provisioned(s, e) == s.push(e),
        ensure_provisioned(s, e).contains(e),
        ensure_provisioned(ensure_provisioned(s, e), e) == ensure_provisioned(s, e),
{
    assert(s.push(e)[s.len() as int] == e);
    assert(s.push(e).contains(e));
}

/// Block dedup: once a row for a slot is stored, slots stay unique, and the
/// slot reads as present — so a repeated write of the same slot takes the
/// deduplication path and changes nothing.
pub proof fn lemma_block_dedup(blocks: Seq<StoredBlock>, row: StoredBlock)
    requires
        distinct_slots(blocks),
        !spec_has_slot(blocks, row.slot),
    ensures
        distinct_slots(blocks.push(row)),
        spec_has_slot(blocks.push(row), row.slot),
{
    lemma_has_slot_witness(blocks, row.slot);
    let pushed = blocks.push(row);
    assert(pushed.last().slot == row.slot);
    assert forall|i: int, j: int|
        0 <= i < j < pushed.len() implies pushed[i].slot != pushed[j].slot by {
        if j < blocks.len() {
            assert(blocks[i].slot != blocks[j].slot);
        } else {
            assert(pushed[i] == blocks[i]);
            if blocks[i].slot == row.slot {
                assert(exists|k: int|
                    #![trigger blocks[k]]
                    0 <= k < blocks.len() && blocks[k].slot == row.slot);
            }
        }
    }
}

/// The epoch-partitioned block store, over the rows it has written.
pub struct PostgresBlockStore {
    pub epoch_schedule: EpochSchedule,
    pub pool_size: usize,
    pub min_chunk_size: usize,
    pub provisioned: Vec<u64>,
    pub blocks: Vec<StoredBlock>,
    pub transaction_rows: Vec<TransactionRecord>,
}

impl PostgresBlockStore {
    /// Well-formed: a usable epoch schedule, at least one write session, a
    /// positive chunk floor, no epoch provisioned twice, no slot stored
    /// twice.
    pub open spec fn wf(&self) -> bool {
        self.epoch_schedule.wf() && self.pool_size >= 1 && self.min_chunk_size >= 1 && (forall|
            i: int,
            j: int,
        |
            0 <= i < j < self.provisioned@.len() ==> self.provisioned@[i] != self.provisioned@[j])
            && distinct_slots(self.blocks@)
    }

    /// The store's slot rows, each tagged with its partition's epoch.
    pub open spec fn spec_slot_rows(&self) -> Seq<SlotRow> {
        self.blocks@.map(|i: int, b: StoredBlock| SlotRow { epoch: b.epoch, slot: b.slot })
    }

    /// An empty store over `pool_size` write sessions; the caller has run
    /// the role self-check before writing anything.
    pub fn new(epoch_schedule: EpochSchedule, pool_size: usize, min_chunk_size: usize) -> (r: Self)
        requires
            epoch_schedule.wf(),
            pool_size >= 1,
            min_chunk_size >= 1,
        ensures
            r.wf(),
            r.epoch_schedule == epoch_schedule,
            r.pool_size == pool_size,
            r.min_chunk_size == min_chunk_size,
            r.provisioned@.len() == 0,
            r.blocks@.len() == 0,
            r.transaction_rows@.len() == 0,
    {
        PostgresBlockStore {
            epoch_schedule,
            pool_size,
            min_chunk_size,
            provisioned: Vec::new(),
            blocks: Vec::new(),
            transaction_rows: Vec::new(),
        }
    }

    /// Whether `epoch`'s partition is provisioned.
    pub fn is_provisioned(&self, epoch: u64) -> (r: bool)
        ensures
            r == self.provisioned@.contains(epoch),
    {
        let mut i: usize = 0;
        while i < self.provisioned.len()
            invariant
                0 <= i <= self.provisioned@.len(),
                forall|k: int| 0 <= k < i ==> self.provisioned@[k] != epoch,
            decreases self.provisioned@.len() - i,
        {
            if self.provisioned[i] == epoch {
                proof {
                    assert(self.provisioned@[i as int] == epoch);
                }
                return true;
            }
            i = i + 1;
        }
        false
    }

    /// Ensures `epoch`'s partition exists, idempotently: reports whether it
    /// was newly created, and treats an already-existing partition as a
    /// benign no-op.
    pub fn start_new_epoch_if_necessary(&mut self, epoch: u64) -> (created: bool)
        requires
            old(self).wf(),
        ensures
            final(self).wf(),
            created == !old(self).provisioned@.contains(epoch),
            final(self).provisioned@ == ensure_provisioned(old(self).provisioned@, epoch),
            final(self).provisioned@.contains(epoch),
            final(self).epoch_schedule == old(self).epoch_schedule,
            final(self).pool_size == old(self).pool_size,
            final(self).min_chunk_size == old(self).min_chunk_size,
            final(self).blocks@ == old(self).blocks@,
            final(self).transaction_rows@ == old(self).transaction_rows@,
    {
        if self.is_provisioned(epoch) {
            return false;
        }
        self.provisioned.push(epoch);
        proof {
            assert(self.provisioned@[self.provisioned@.len() - 1] == epoch);
            assert(self.provisioned@.contains(epoch));
        }
        true
    }

    /// Pre-provisions the partitions for the slot's current epoch and its
    /// immediate successor, so writes never race against schema creation at
    /// an epoch boundary. Reports whether anything was newly created.
    pub fn prepare_epoch_schema(&mut self, slot: u64) -> (created: bool)
        requires
            old(self).wf(),
            old(self).epoch_schedule.spec_epoch_of_slot(slot) < u64::MAX,
        ensures
            final(self).wf(),
            created == (!old(self).provisioned@.contains(
                old(self).epoch_schedule.spec_epoch_of_slot(slot),
            ) || !ensure_provisioned(
                old(self).provisioned@,
                old(self).epoch_schedule.spec_epoch_of_slot(slot),
            ).contains((old(self).epoch_schedule.spec_epoch_of_slot(slot) + 1) as u64)),
            final(self).provisioned@ == ensure_provisioned(
                ensure_provisioned(
                    old(self).provisioned@,
                    old(self).epoch_schedule.spec_epoch_of_slot(slot),
                ),
                (old(self).epoch_schedule.spec_epoch_of_slot(slot) + 1) as u64,
            ),
            final(self).epoch_schedule == old(self).epoch_schedule,
            final(self).pool_size == old(self).pool_size,
            final(self).min_chunk_size == old(self).min_chunk_size,
            final(self).blocks@ == old(self).blocks@,
            final(self).transaction_rows@ == old(self).transaction_rows@,
    {
        let current_epoch = self.epoch_schedule.epoch_of_slot(slot);
        let created_current = self.start_new_epoch_if_necessary(current_epoch);
        let next_epoch = current_epoch + 1;
        let created_next = self.start_new_epoch_if_necessary(next_epoch);
        created_current || created_next
    }

    /// The index of `slot`'s block row, if one is stored.
    fn find_slot_index(&self, slot: u64) -> (r: Option<usize>)
        ensures
            r is Some ==> 0 <= r->Some_0 < self.blocks@.len() && self.blocks@[
                r->Some_0 as int
            ].slot == slot && spec_has_slot(self.blocks@, slot),
            r is None ==> !spec_has_slot(self.blocks@, slot),
    {
        let mut i: usize = 0;
        while i < self.blocks.len()
            invariant
                0 <= i <= self.blocks@.len(),
                forall|k: int| #![trigger self.blocks@[k]] 0 <= k < i ==> self.blocks@[k].slot != slot,
            decreases self.blocks@.len() - i,
        {
            if self.blocks[i].slot == slot {
                proof {
                    lemma_has_slot_witness(self.blocks@, slot);
                    assert(self.blocks@[i as int].slot == slot);
                }
                return Some(i);
            }
            i = i + 1;
        }
        proof {
            lemma_has_slot_witness(self.blocks@, slot);
        }
        None
    }

    /// Reserved extension point for promoting a stored confirmed block to
    /// finalized; currently an inert observer.
    pub fn progress_block_commitment_level(&self, block: &ProducedBlock) -> (r: Result<
        (),
        StoreError,
    >)
        ensures
            r is Ok,
    {
        let _ = block.commitment;
        Ok(())
    }

    /// Writes one block: a deduplicated insert of its row keyed by slot,
    /// and — only when the row is new — its transaction rows. Writing an
    /// already-stored slot succeeds immediately and writes nothing; a slot
    /// whose epoch has no partition is rejected.
    pub fn write_block(&mut self, block: &ProducedBlock) -> (r: Result<(), StoreError>)
        requires
            old(self).wf(),
        ensures
            final(self).wf(),
            final(self).epoch_schedule == old(self).epoch_schedule,
            final(self).pool_size == old(self).pool_size,
            final(self).min_chunk_size == old(self).min_chunk_size,
            final(self).provisioned@ == old(self).provisioned@,
            !old(self).provisioned@.contains(old(self).epoch_schedule.spec_epoch_of_slot(block.slot))
                ==> r is Err && r->Err_0 == (StoreError::PartitionMissing {
                epoch: old(self).epoch_schedule.spec_epoch_of_slot(block.slot),
                slot: block.slot,
            }) && final(self).blocks@ == old(self).blocks@ && final(self).transaction_rows@ == old(self).transaction_rows@,
            old(self).provisioned@.contains(old(self).epoch_schedule.spec_epoch_of_slot(block.slot))
                && spec_has_slot(old(self).blocks@, block.slot) ==> r is Ok && final(self).blocks@
                == old(self).blocks@ && final(self).transaction_rows@ == old(self).transaction_rows@,
            old(self).provisioned@.contains(old(self).epoch_schedule.spec_epoch_of_slot(block.slot))
                && !spec_has_slot(old(self).blocks@, block.slot) ==> r is Ok && final(self).blocks@.len() == old(self).blocks@.len() + 1 && (forall|k: int|
                0 <= k < old(self).blocks@.len() ==> final(self).blocks@[k] == old(self).blocks@[k])
                && matches_stored(
                final(self).blocks@[old(self).blocks@.len() as int],
                old(self).epoch_schedule.spec_epoch_of_slot(block.slot),
                *block,
            ) && final(self).transaction_rows@.len() == old(self).transaction_rows@.len()
                + block.transactions@.len() && (forall|k: int|
                0 <= k < old(self).transaction_rows@.len() ==> final(self).transaction_rows@[k]
                    == old(self).transaction_rows@[k]) && (forall|k: int|
                #![trigger block.transactions@[k]]
                0 <= k < block.transactions@.len() ==> matches_record(
                    final(self).transaction_rows@[old(self).transaction_rows@.len() + k],
                    block.transactions@[k],
                    block.slot,
                )),
    {
        match self.progress_block_commitment_level(block) {
            Ok(()) => {},
            Err(err) => {
                return Err(err);
            },
        }
        let epoch = self.epoch_schedule.epoch_of_slot(block.slot);
        if !self.is_provisioned(epoch) {
            return Err(StoreError::PartitionMissing { epoch, slot: block.slot });
        }
        match self.find_slot_index(block.slot) {
            Some(_) => {
                return Ok(());
            },
            None => {},
        }
        let row = StoredBlock {
            epoch,
            slot: block.slot,
            blockhash: block.blockhash.clone(),
            block_height: block.block_height,
            parent_slot: block.parent_slot,
            block_time: block.block_time,
            previous_blockhash: block.previous_blockhash.clone(),
            rewards: clone_opt_string(&block.rewards),
            leader_id: clone_opt_string(&block.leader_id),
        };
        proof {
            lemma_block_dedup(self.blocks@, row);
        }
        self.blocks.push(row);
        proof {
            assert(self.wf());
        }
        let ghost blocks_after = self.blocks@;
        let ghost old_rows = self.transaction_rows@;
        let mut i: usize = 0;
        while i < block.transactions.len()
            invariant
                0 <= i <= block.transactions@.len(),
                self.wf(),
                self.epoch_schedule == old(self).epoch_schedule,
                self.pool_size == old(self).pool_size,
                self.min_chunk_size == old(self).min_chunk_size,
                self.provisioned@ == old(self).provisioned@,
                self.blocks@ == blocks_after,
                self.transaction_rows@.len() == old_rows.len() + i,
                forall|k: int| 0 <= k < old_rows.len() ==> self.transaction_rows@[k] == old_rows[k],
                forall|k: int|
                    #![trigger block.transactions@[k]]
                    0 <= k < i ==> matches_record(
                        self.transaction_rows@[old_rows.len() + k],
                        block.transactions@[k],
                        block.slot,
                    ),
            decreases block.transactions@.len() - i,
        {
            let record = TransactionRecord::new(&block.transactions[i], block.slot);
            self.transaction_rows.push(record);
            i = i + 1;
        }
        Ok(())
    }

    /// The fan-out's partial-failure policy: the overall write fails as soon
    /// as any transaction chunk failed, with an error that names the block
    /// whose row already committed without its full transactions.
    pub fn fan_out_outcome(chunk_ok: &Vec<bool>, slot: u64) -> (r: Result<(), StoreError>)
        ensures
            r is Ok <==> (forall|i: int|
                #![trigger chunk_ok@[i]]
                0 <= i < chunk_ok@.len() ==> chunk_ok@[i]),
            !(r is Ok) ==> r is Err && r->Err_0 == (StoreError::TransactionsIncomplete { slot }),
    {
        let mut i: usize = 0;
        while i < chunk_ok.len()
            invariant
                0 <= i <= chunk_ok@.len(),
                forall|k: int| #![trigger chunk_ok@[k]] 0 <= k < i ==> chunk_ok@[k],
            decreases chunk_ok@.len() - i,
        {
            if !chunk_ok[i] {
                proof {
                    assert(!chunk_ok@[i as int]);
                }
                return Err(StoreError::TransactionsIncomplete { slot });
            }
            i = i + 1;
        }
        Ok(())
    }

    /// The read path: answers the stored block row for `slot` with an empty
    /// transaction list and a synthetic confirmed commitment, or an error
    /// naming the slot and its resolved epoch when no row exists.
    pub fn query(&self, slot: u64) -> (r: Result<ProducedBlock, StoreError>)
        requires
            self.wf(),
        ensures
            spec_has_slot(self.blocks@, slot) ==> r is Ok && (exists|i: int|
                #![trigger self.blocks@[i]]
                0 <= i < self.blocks@.len() && self.blocks@[i].slot == slot && matches_produced(
                    r->Ok_0,
                    self.blocks@[i],
                )),
            !spec_has_slot(self.blocks@, slot) ==> r is Err && r->Err_0 == (StoreError::BlockNotFound {
                slot,
                epoch: self.epoch_schedule.spec_epoch_of_slot(slot),
            }),
    {
        let epoch = self.epoch_schedule.epoch_of_slot(slot);
        match self.find_slot_index(slot) {
            None => Err(StoreError::BlockNotFound { slot, epoch }),
            Some(idx) => {
                let out = ProducedBlock {
                    slot: self.blocks[idx].slot,
                    blockhash: self.blocks[idx].blockhash.clone(),
                    block_height: self.blocks[idx].block_height,
                    parent_slot: self.blocks[idx].parent_slot,
                    block_time: self.blocks[idx].block_time,
                    previous_blockhash: self.blocks[idx].previous_blockhash.clone(),
                    rewards: clone_opt_string(&self.blocks[idx].rewards),
                    leader_id: clone_opt_string(&self.blocks[idx].leader_id),
                    commitment: CommitmentLevel::Confirmed,
                    transactions: Vec::new(),
                };
                proof {
                    assert(self.blocks@[idx as int].slot == slot && matches_produced(
                        out,
                        self.blocks@[idx as int],
                    ));
                }
                Ok(out)
            },
        }
    }

    /// The store's slot rows as a value, for the range index.
    pub fn partition_slot_rows(&self) -> (r: Vec<SlotRow>)
        ensures
            r@ == self.spec_slot_rows(),
    {
        let mut rows: Vec<SlotRow> = Vec::new();
        let mut i: usize = 0;
        while i < self.blocks.len()
            invariant
                0 <= i <= self.blocks@.len(),
                rows@.len() == i,
                forall|k: int|
                    #![trigger rows@[k]]
                    0 <= k < i ==> rows@[k] == (SlotRow {
                        epoch: self.blocks@[k].epoch,
                        slot: self.blocks@[k].slot,
                    }),
            decreases self.blocks@.len() - i,
        {
            rows.push(SlotRow { epoch: self.blocks[i].epoch, slot: self.blocks[i].slot });
            i = i + 1;
        }
        proof {
            assert(rows@ =~= self.spec_slot_rows());
        }
        rows
    }

    /// The per-epoch slot coverage of the stored rows: one entry per epoch
    /// that has rows, holding its least and greatest stored slot.
    pub fn get_slot_range_by_epoch(&self) -> (r: RangeIndex)
        ensures
            r.wf(),
            forall|j: int|
                #![trigger r.entries@[j]]
                0 <= j < r.entries@.len() ==> has_epoch(self.spec_slot_rows(), r.entries@[j].epoch)
                    && r.entries@[j].min_slot == epoch_min(
                    self.spec_slot_rows(),
                    r.entries@[j].epoch,
                ) && r.entries@[j].max_slot == epoch_max(
                    self.spec_slot_rows(),
                    r.entries@[j].epoch,
                ),
            forall|e: u64|
                #![trigger has_entry(r.entries@, e)]
                #![trigger has_epoch(self.spec_slot_rows(), e)]
                has_entry(r.entries@, e) <==> has_epoch(self.spec_slot_rows(), e),
    {
        let rows = self.partition_slot_rows();
        RangeIndex::from_slot_rows(&rows)
    }

    /// Whether `slot` lies within the stored slot extent of its own epoch's
    /// partition; `false` when that epoch has no rows.
    pub fn is_block_in_range(&self, slot: u64) -> (r: bool)
        requires
            self.wf(),
        ensures
            r == (has_epoch(self.spec_slot_rows(), self.epoch_schedule.spec_epoch_of_slot(slot))
                && epoch_min(
                self.spec_slot_rows(),
                self.epoch_schedule.spec_epoch_of_slot(slot),
            ) <= slot <= epoch_max(
                self.spec_slot_rows(),
                self.epoch_schedule.spec_epoch_of_slot(slot),
            )),
    {
        let index = self.get_slot_range_by_epoch();
        let covered = index.is_slot_covered(slot, &self.epoch_schedule);
        proof {
            let s = index.entries@;
            let e = self.epoch_schedule.spec_epoch_of_slot(slot);
            lemma_lookup_has_entry(s, e);
            if has_entry(s, e) {
                lemma_lookup_properties(s, e);
            }
        }
        covered
    }

    /// The global covered slot range over all stored rows, or `None` when
    /// nothing is stored yet.
    pub fn get_slot_range(&self) -> (r: Option<(u64, u64)>)
        ensures
            r is Some <==> self.blocks@.len() > 0,
            r is Some ==> {
                let (lo, hi) = r->Some_0;
                (forall|i: int|
                    #![trigger self.blocks@[i]]
                    0 <= i < self.blocks@.len() ==> lo <= self.blocks@[i].slot && self.blocks@[
                        i
                    ].slot <= hi) && (exists|i: int|
                    #![trigger self.blocks@[i]]
                    0 <= i < self.blocks@.len() && self.blocks@[i].slot == lo) && (exists|i: int|
                    #![trigger self.blocks@[i]]
                    0 <= i < self.blocks@.len() && self.blocks@[i].slot == hi)
            },
    {
        if self.blocks.len() == 0 {
            return None;
        }
        let mut lo = self.blocks[0].slot;
        let mut hi = self.blocks[0].slot;
        let mut i: usize = 1;
        proof {
            assert(self.blocks@[0].slot == lo);
        }
        while i < self.blocks.len()
            invariant
                1 <= i <= self.blocks@.len(),
                forall|k: int|
                    #![trigger self.blocks@[k]]
                    0 <= k < i ==> lo <= self.blocks@[k].slot && self.blocks@[k].slot <= hi,
                exists|k: int| #![trigger self.blocks@[k]] 0 <= k < i && self.blocks@[k].slot == lo,
                exists|k: int| #![trigger self.blocks@[k]] 0 <= k < i && self.blocks@[k].slot == hi,
            decreases self.blocks@.len() - i,
        {
            let ghost old_lo = lo;
            let ghost old_hi = hi;
            if self.blocks[i].slot < lo {
                lo = self.blocks[i].slot;
            }
            if self.blocks[i].slot > hi {
                hi = self.blocks[i].slot;
            }
            proof {
                assert forall|k: int|
                    #![trigger self.blocks@[k]]
                    0 <= k < i + 1 implies lo <= self.blocks@[k].slot && self.blocks@[k].slot
                    <= hi by {
                    if k < i {
                        assert(old_lo <= self.blocks@[k].slot && self.blocks@[k].slot <= old_hi);
                    }
                }
                if lo == self.blocks@[i as int].slot {
                    assert(self.blocks@[i as int].slot == lo);
                } else {
                    let k = choose|k: int|
                        #![trigger self.blocks@[k]]
                        0 <= k < i && self.blocks@[k].slot == old_lo;
                    assert(self.blocks@[k].slot == lo);
                }
                if hi == self.blocks@[i as int].slot {
                    assert(self.blocks@[i as int].slot == hi);
                } else {
                    let k = choose|k: int|
                        #![trigger self.blocks@[k]]
                        0 <= k < i && self.blocks@[k].slot == old_hi;
                    assert(self.blocks@[k].slot == hi);
                }
            }
            i = i + 1;
        }
        Some((lo, hi))
    }

    /// Plans the advisory statistics refresh for `slot`'s partition: the
    /// non-locking analyze statement, bound to the write session picked by
    /// the slot's hash modulo the pool size.
    pub fn optimize_blocks_table(&self, slot: u64) -> (r: MaintenanceTask)
        requires
            self.wf(),
            self.pool_size <= u64::MAX,
        ensures
            r.statement@ == spec_analyze_statement(self.epoch_schedule.spec_epoch_of_slot(slot)),
            r.session_index == slot as int % self.pool_size as int,
    {
        let epoch = self.epoch_schedule.epoch_of_slot(slot);
        let session_index = (slot % (self.pool_size as u64)) as usize;
        MaintenanceTask { statement: analyze_statement(epoch), session_index }
    }
}

/// An epoch has a range-index entry exactly when a lookup finds one, and
/// what it finds carries that epoch.
proof fn lemma_lookup_has_entry(s: Seq<crate::ranges::EpochSlotRange>, e: u64)
    ensures
        (spec_lookup(s, e) is Some) == has_entry(s, e),
        spec_lookup(s, e) is Some ==> spec_lookup(s, e)->Some_0.epoch == e,
    decreases s.len(),
{
    if s.len() > 0 {
        lemma_lookup_has_entry(s.drop_last(), e);
    }
}

/// Copies an optional string, preserving its contents.
fn clone_opt_string(o: &Option<String>) -> (r: Option<String>)
    ensures
        opt_str_view(r) == opt_str_view(*o),
{
    match o {
        Some(s) => Some(s.clone()),
        None => None,
    }
}

impl TransactionRecord {
    /// The transaction row written for one transaction of the block at
    /// `slot`.
    pub fn new(tx: &TransactionInfo, slot: u64) -> (r: Self)
        ensures
            matches_record(r, *tx, slot),
    {
        TransactionRecord {
            signature: tx.signature.clone(),
            slot,
            is_vote: tx.is_vote,
            error: clone_opt_string(&tx.err),
            cu_requested: tx.cu_requested,
            cu_consumed: tx.cu_consumed,
            prioritization_fees: tx.prioritization_fees,
            recent_blockhash: tx.recent_blockhash.clone(),
            message: tx.message.clone(),
        }
    }
}

} // verus!
