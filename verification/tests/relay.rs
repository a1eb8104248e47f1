use lite_relay::chunking::{chunk_bounds, chunk_size_for, div_ceil, fan_out_chunks};
use lite_relay::dispatch::{CycleStep, DispatchCycle, PendingEntry, PollEvent};
use lite_relay::epoch::{
    build_schema_name, parse_dec, parse_epoch_from_schema_name, u64_to_dec, EpochSchedule,
};
use lite_relay::forwarder::TxSender;
use lite_relay::ranges::{EpochSlotRange, RangeIndex, SlotRow};
use lite_relay::registry::{SignatureRegistry, TxProps};
use lite_relay::sql::{
    analyze_statement, assign_permissions_statements, create_blocks_table_statement,
    create_schema_statement, create_transactions_table_statement, foreign_key_statement,
    query_block_statement, range_aggregate_query, role_check_statement, role_exists,
    schemata_query, slots_select,
};
use lite_relay::store::{
    CommitmentLevel, PostgresBlockStore, ProducedBlock, StoreError, TransactionInfo,
};

fn test_schedule() -> EpochSchedule {
    EpochSchedule::new(11)
}

fn entry(sig: &str, slot: u64) -> PendingEntry {
    PendingEntry {
        signature: sig.to_string(),
        recent_slot: slot,
        payload: vec![1, 2, 3],
    }
}

fn test_tx(signature: &str) -> TransactionInfo {
    TransactionInfo {
        signature: signature.to_string(),
        is_vote: false,
        err: None,
        cu_requested: Some(40000),
        prioritization_fees: Some(5000),
        cu_consumed: Some(32000),
        recent_blockhash: "recent_blockhash".to_string(),
        message: "some message".to_string(),
    }
}

fn test_block() -> ProducedBlock {
    let sig1 = "5VBroA4MxsbZdZmaSEb618WRRwhWYW9weKhh3md1asGRx7nXDVFLua9c98voeiWdBE7A9isEoLL7buKyaVRSK1pV";
    let sig2 = "3d9x3rkVQEoza37MLJqXyadeTbEJGUB6unywK4pjeRLJc16wPsgw3dxPryRWw3UaLcRyuxEp1AXKGECvroYxAEf2";
    ProducedBlock {
        slot: 223555999,
        blockhash: "blockhash".to_string(),
        block_height: 42,
        parent_slot: 666,
        block_time: 1699260872000,
        previous_blockhash: "previous_blockhash".to_string(),
        rewards: None,
        leader_id: None,
        commitment: CommitmentLevel::Finalized,
        transactions: vec![test_tx(sig1), test_tx(sig2)],
    }
}

fn big_store() -> PostgresBlockStore {
    PostgresBlockStore::new(EpochSchedule::new(432000), 4, 500)
}

#[test]
fn ensure_partition_idempotent() {
    let mut store = PostgresBlockStore::new(test_schedule(), 4, 500);
    let first = store.start_new_epoch_if_necessary(5);
    let second = store.start_new_epoch_if_necessary(5);
    assert_eq!(first, true);
    assert_eq!(second, false);
    assert_eq!(store.provisioned.len(), 1);
}

#[test]
fn prepare_epoch_schema_provisions_current_and_next() {
    let mut store = big_store();
    let created = store.prepare_epoch_schema(223555999);
    assert!(created);
    // 223555999 / 432000 = 517: current and next epoch both provisioned.
    assert_eq!(store.provisioned, vec![517, 518]);
    let again = store.prepare_epoch_schema(223555999);
    assert!(!again);
    assert_eq!(store.provisioned, vec![517, 518]);
}

#[test]
fn block_dedup() {
    let mut store = big_store();
    store.prepare_epoch_schema(223555999);
    let block = test_block();
    assert!(store.write_block(&block).is_ok());
    assert_eq!(store.blocks.len(), 1);
    assert_eq!(store.transaction_rows.len(), 2);

    // Same slot, different content: success, but zero new rows of any kind.
    let mut other = test_block();
    other.blockhash = "another blockhash".to_string();
    assert!(store.write_block(&other).is_ok());
    assert_eq!(store.blocks.len(), 1);
    assert_eq!(store.transaction_rows.len(), 2);
    assert_eq!(store.blocks[0].blockhash, "blockhash");
}

#[test]
fn write_block_without_partition_is_rejected() {
    let mut store = big_store();
    let block = test_block();
    let result = store.write_block(&block);
    assert_eq!(
        result,
        Err(StoreError::PartitionMissing { epoch: 517, slot: 223555999 })
    );
    assert_eq!(store.blocks.len(), 0);
}

#[test]
fn chunk_arithmetic() {
    assert_eq!(div_ceil(0, 4), 0);
    assert_eq!(div_ceil(1, 4), 1);
    assert_eq!(div_ceil(600, 4), 150);
    assert_eq!(div_ceil(2000, 4), 500);
    assert_eq!(chunk_size_for(600, 4, 500), 500);
    assert_eq!(chunk_size_for(10000, 4, 500), 2500);
    assert_eq!(chunk_bounds(600, 500), vec![(0, 500), (500, 600)]);
}

#[test]
fn chunk_bound_never_exceeds_pool() {
    let plan = fan_out_chunks(600, 4, 500);
    assert_eq!(plan, vec![(0, 500), (500, 600)]);
    assert!(plan.len() <= 4);
    let plan = fan_out_chunks(10000, 4, 500);
    assert_eq!(plan, vec![(0, 2500), (2500, 5000), (5000, 7500), (7500, 10000)]);
    let plan = fan_out_chunks(3, 4, 500);
    assert_eq!(plan, vec![(0, 3)]);
    let plan = fan_out_chunks(0, 4, 500);
    assert!(plan.is_empty());
}

#[test]
fn range_aggregation() {
    let mut rows = Vec::new();
    for slot in 10..=20 {
        rows.push(SlotRow { epoch: 1, slot });
    }
    for slot in 25..=30 {
        rows.push(SlotRow { epoch: 2, slot });
    }
    let index = RangeIndex::from_slot_rows(&rows);
    assert_eq!(index.len(), 2);
    assert_eq!(
        index.lookup(1),
        Some(EpochSlotRange { epoch: 1, min_slot: 10, max_slot: 20 })
    );
    assert_eq!(
        index.lookup(2),
        Some(EpochSlotRange { epoch: 2, min_slot: 25, max_slot: 30 })
    );
    assert_eq!(index.lookup(3), None);
    assert_eq!(index.global_range(), Some((10, 30)));
}

#[test]
fn empty_range_index() {
    let index = RangeIndex::from_slot_rows(&Vec::new());
    assert_eq!(index.len(), 0);
    assert_eq!(index.global_range(), None);
}

#[test]
fn coverage_check() {
    let schedule = test_schedule();
    let entries = vec![
        EpochSlotRange { epoch: 1, min_slot: 10, max_slot: 20 },
        EpochSlotRange { epoch: 2, min_slot: 25, max_slot: 30 },
    ];
    let index = RangeIndex::new(entries);
    // Slot 22 resolves to epoch 2 but lies in the gap before that
    // partition's first slot.
    assert!(!index.is_slot_covered(22, &schedule));
    assert!(index.is_slot_covered(15, &schedule));
    // An epoch with no partition at all is simply not covered.
    assert!(!index.is_slot_covered(100, &schedule));
}

#[test]
fn dispatch_flush_on_full() {
    let mut cycle = DispatchCycle::new(2);
    assert_eq!(cycle.step(PollEvent::Item(entry("a", 1)), false), CycleStep::Continue);
    assert_eq!(cycle.step(PollEvent::Item(entry("b", 2)), false), CycleStep::Continue);
    // Full batch and an empty poll: flush immediately, well before the
    // interval elapses.
    assert_eq!(cycle.step(PollEvent::Empty, false), CycleStep::Flush);
    let batch = cycle.take_batch();
    assert_eq!(batch.len(), 2);
    assert_eq!(batch[0].signature, "a");
    assert_eq!(batch[1].signature, "b");
}

#[test]
fn dispatch_flush_on_timeout() {
    let mut cycle = DispatchCycle::new(10);
    assert_eq!(cycle.step(PollEvent::Item(entry("a", 1)), false), CycleStep::Continue);
    assert_eq!(cycle.step(PollEvent::Empty, false), CycleStep::Continue);
    // Interval elapsed with a non-full batch: flush what accumulated.
    assert_eq!(cycle.step(PollEvent::Empty, true), CycleStep::Flush);
    let batch = cycle.take_batch();
    assert_eq!(batch.len(), 1);
    assert_eq!(batch[0].signature, "a");
}

#[test]
fn dispatch_absorbs_burst_past_full() {
    let mut cycle = DispatchCycle::new(2);
    assert_eq!(cycle.step(PollEvent::Item(entry("a", 1)), false), CycleStep::Continue);
    assert_eq!(cycle.step(PollEvent::Item(entry("b", 2)), false), CycleStep::Continue);
    // Batch exactly full: keeps draining although the interval is over.
    assert_eq!(cycle.step(PollEvent::Item(entry("c", 3)), true), CycleStep::Continue);
    // Past full, interval over: flush.
    assert_eq!(cycle.step(PollEvent::Empty, true), CycleStep::Flush);
    assert_eq!(cycle.take_batch().len(), 3);
}

#[test]
fn dispatch_disconnect_is_fatal() {
    let mut cycle = DispatchCycle::new(2);
    assert_eq!(cycle.step(PollEvent::Disconnected, false), CycleStep::Fatal);
}

#[test]
fn forward_success_path() {
    let mut sender = TxSender::new();
    let batch = vec![("sigA".to_string(), 5u64), ("sigB".to_string(), 6u64)];
    let records = sender.record_forward_outcome(&batch, true, 77);
    assert_eq!(records.len(), 2);
    assert_eq!(records[0].signature, "sigA");
    assert_eq!(records[0].recent_slot, 5);
    assert_eq!(records[0].forwarded_slot, 0);
    assert_eq!(records[0].processed_slot, None);
    assert_eq!(records[0].cu_consumed, None);
    assert_eq!(records[0].cu_requested, None);
    assert_eq!(records[0].quic_response, 1);
    assert_eq!(records[1].signature, "sigB");
    let a = sender.txs_sent.get("sigA").expect("sigA registered");
    assert_eq!(a.sent_at, 77);
    assert_eq!(a.status, None);
    assert!(sender.txs_sent.contains("sigB"));
}

#[test]
fn forward_failure_path() {
    let mut sender = TxSender::new();
    let batch = vec![("sigA".to_string(), 5u64), ("sigB".to_string(), 6u64)];
    let records = sender.record_forward_outcome(&batch, false, 77);
    assert_eq!(records.len(), 2);
    assert_eq!(records[0].quic_response, 0);
    assert_eq!(records[1].quic_response, 0);
    assert!(!sender.txs_sent.contains("sigA"));
    assert!(!sender.txs_sent.contains("sigB"));
    assert_eq!(sender.txs_sent.get("sigB"), None);
}

#[test]
fn forward_empty_batch_is_noop() {
    let mut sender = TxSender::new();
    let records = sender.record_forward_outcome(&Vec::new(), true, 1);
    assert!(records.is_empty());
    assert!(!sender.txs_sent.contains("sigA"));
}

#[test]
fn registry_last_write_wins() {
    let mut registry = SignatureRegistry::new();
    registry.insert("sig".to_string(), TxProps::new(1));
    registry.insert("sig".to_string(), TxProps::new(2));
    assert_eq!(registry.get("sig").unwrap().sent_at, 2);
}

#[test]
fn test_save_block() {
    let mut store = big_store();
    assert!(store.prepare_epoch_schema(223555999));
    assert!(store.write_block(&test_block()).is_ok());

    let read = store.query(223555999).expect("block stored");
    assert_eq!(read.blockhash, "blockhash");
    assert_eq!(read.block_height, 42);
    assert_eq!(read.parent_slot, 666);
    assert_eq!(read.block_time, 1699260872000);
    assert_eq!(read.previous_blockhash, "previous_blockhash");
    // Read-path limitation, preserved deliberately: no transactions are
    // reconstructed and the commitment is a synthetic confirmed value.
    assert!(read.transactions.is_empty());
    assert_eq!(read.commitment, CommitmentLevel::Confirmed);
}

#[test]
fn query_missing_block() {
    let store = big_store();
    assert_eq!(
        store.query(223555999),
        Err(StoreError::BlockNotFound { slot: 223555999, epoch: 517 })
    );
}

#[test]
fn fan_out_failure_is_surfaced() {
    assert!(PostgresBlockStore::fan_out_outcome(&vec![true, true], 9).is_ok());
    assert_eq!(
        PostgresBlockStore::fan_out_outcome(&vec![true, false], 9),
        Err(StoreError::TransactionsIncomplete { slot: 9 })
    );
    assert!(PostgresBlockStore::fan_out_outcome(&Vec::new(), 9).is_ok());
}

#[test]
fn store_range_queries() {
    let mut store = PostgresBlockStore::new(test_schedule(), 4, 500);
    assert_eq!(store.get_slot_range(), None);
    assert!(!store.is_block_in_range(15));

    store.prepare_epoch_schema(15);
    let mut block = test_block();
    block.slot = 15;
    block.transactions = Vec::new();
    assert!(store.write_block(&block).is_ok());
    let mut second = test_block();
    second.slot = 18;
    second.transactions = Vec::new();
    assert!(store.write_block(&second).is_ok());

    assert_eq!(store.get_slot_range(), Some((15, 18)));
    assert!(store.is_block_in_range(15));
    assert!(store.is_block_in_range(16));
    assert!(!store.is_block_in_range(14));
    let index = store.get_slot_range_by_epoch();
    assert_eq!(
        index.lookup(1),
        Some(EpochSlotRange { epoch: 1, min_slot: 15, max_slot: 18 })
    );
}

#[test]
fn progress_commitment_is_inert() {
    let store = big_store();
    assert!(store.progress_block_commitment_level(&test_block()).is_ok());
}

#[test]
fn schema_names_round_trip() {
    assert_eq!(build_schema_name(552), "rpc2a_epoch_552");
    assert_eq!(build_schema_name(0), "rpc2a_epoch_0");
    assert_eq!(parse_epoch_from_schema_name("rpc2a_epoch_552"), Some(552));
    assert_eq!(parse_epoch_from_schema_name("rpc2a_epoch_0"), Some(0));
    assert_eq!(parse_epoch_from_schema_name("rpc2a_epoch_"), None);
    assert_eq!(parse_epoch_from_schema_name("rpc2a_epoch_007"), None);
    assert_eq!(parse_epoch_from_schema_name("rpc2a_epoch_x1"), None);
    assert_eq!(parse_epoch_from_schema_name("other_schema"), None);
}

#[test]
fn decimal_rendering_and_parsing() {
    assert_eq!(u64_to_dec(0), "0");
    assert_eq!(u64_to_dec(552), "552");
    assert_eq!(u64_to_dec(u64::MAX), "18446744073709551615");
    assert_eq!(parse_dec("18446744073709551615"), Some(u64::MAX));
    // One past u64::MAX overflows and is rejected.
    assert_eq!(parse_dec("18446744073709551616"), None);
    assert_eq!(parse_dec(""), None);
    assert_eq!(parse_dec("00"), None);
}

#[test]
fn epoch_of_slot() {
    let schedule = test_schedule();
    assert_eq!(schedule.epoch_of_slot(0), 0);
    assert_eq!(schedule.epoch_of_slot(10), 0);
    assert_eq!(schedule.epoch_of_slot(11), 1);
    assert_eq!(schedule.epoch_of_slot(22), 2);
}

#[test]
fn sql_statements() {
    assert_eq!(
        role_check_statement(),
        "SELECT 1 FROM pg_roles WHERE rolname='r_literpc'"
    );
    assert!(role_exists(1));
    assert!(!role_exists(0));
    assert_eq!(create_schema_statement(552), "CREATE SCHEMA rpc2a_epoch_552");
    assert_eq!(
        assign_permissions_statements(552),
        "GRANT USAGE ON SCHEMA rpc2a_epoch_552 TO r_literpc; \
         GRANT ALL ON ALL TABLES IN SCHEMA rpc2a_epoch_552 TO r_literpc; \
         ALTER DEFAULT PRIVILEGES IN SCHEMA rpc2a_epoch_552 GRANT ALL ON TABLES TO r_literpc;"
    );
    assert_eq!(
        create_blocks_table_statement(552),
        "CREATE TABLE rpc2a_epoch_552.blocks (slot BIGINT NOT NULL, blockhash TEXT NOT NULL, \
         block_height BIGINT NOT NULL, parent_slot BIGINT NOT NULL, block_time BIGINT NOT NULL, \
         previous_blockhash TEXT NOT NULL, rewards TEXT, leader_id TEXT, \
         CONSTRAINT pk_block_slot PRIMARY KEY (slot))"
    );
    assert_eq!(
        create_transactions_table_statement(552),
        "CREATE TABLE rpc2a_epoch_552.transactions (signature TEXT NOT NULL, slot BIGINT NOT NULL, \
         is_vote BOOL NOT NULL, error TEXT, cu_requested BIGINT, cu_consumed BIGINT, \
         prioritization_fees BIGINT, recent_blockhash TEXT NOT NULL, message TEXT NOT NULL)"
    );
    assert_eq!(
        foreign_key_statement(552),
        "ALTER TABLE rpc2a_epoch_552.transactions ADD CONSTRAINT fk_transactions_slot \
         FOREIGN KEY (slot) REFERENCES rpc2a_epoch_552.blocks (slot)"
    );
    assert_eq!(
        query_block_statement(552, 9),
        "SELECT slot, blockhash, block_height, parent_slot, block_time, previous_blockhash, \
         rewards, leader_id FROM rpc2a_epoch_552.blocks WHERE slot = 9"
    );
    assert_eq!(analyze_statement(552), "ANALYZE (SKIP_LOCKED) rpc2a_epoch_552.blocks");
    assert_eq!(
        schemata_query(),
        "SELECT schema_name FROM information_schema.schemata \
         WHERE schema_name ~ '^rpc2a_epoch_[0-9]+$'"
    );
}

#[test]
fn range_query_unions_partitions() {
    assert_eq!(
        slots_select(552),
        "SELECT slot,552::bigint as epoch FROM rpc2a_epoch_552.blocks"
    );
    assert_eq!(
        range_aggregate_query(&vec![1, 2]),
        "SELECT epoch, min(slot) as slot_min, max(slot) as slot_max FROM (\
         SELECT slot,1::bigint as epoch FROM rpc2a_epoch_1.blocks UNION ALL \
         SELECT slot,2::bigint as epoch FROM rpc2a_epoch_2.blocks\
         ) AS all_slots GROUP BY epoch"
    );
    assert_eq!(
        range_aggregate_query(&vec![7]),
        "SELECT epoch, min(slot) as slot_min, max(slot) as slot_max FROM (\
         SELECT slot,7::bigint as epoch FROM rpc2a_epoch_7.blocks\
         ) AS all_slots GROUP BY epoch"
    );
}

#[test]
fn maintenance_task_picks_session_by_slot() {
    let store = big_store();
    let task = store.optimize_blocks_table(223555999);
    assert_eq!(task.session_index, (223555999 % 4) as usize);
    assert_eq!(task.statement, "ANALYZE (SKIP_LOCKED) rpc2a_epoch_517.blocks");
}
