//! The SQL statements the store issues, built deterministically from epoch
//! numbers and slot numbers. Each builder's contract pins the exact text, so
//! the unverified session layer only transports strings.

use crate::epoch::{dec_digits, spec_schema_name, spec_schema_prefix, build_schema_name, schema_prefix, u64_to_dec};
use vstd::prelude::*;
use vstd::string::StringExecFns;

verus! {

/// The mandatory database role granted access to every partition.
pub open spec fn spec_role_name() -> Seq<char> {
    "r_literpc"@
}

pub fn role_name() -> (r: &'static str)
    ensures
        r@ == spec_role_name(),
{
    "r_literpc"
}

/// Startup self-check query: counts the rows of `pg_roles` naming the
/// mandatory role.
pub open spec fn spec_role_check_statement() -> Seq<char> {
    "SELECT 1 FROM pg_roles WHERE rolname='"@ + spec_role_name() + "'"@
}

pub fn role_check_statement() -> (r: String)
    ensures
        r@ == spec_role_check_statement(),
{
    let mut s = String::from_str("SELECT 1 FROM pg_roles WHERE rolname='");
    s.append(role_name());
    s.append("'");
    s
}

/// The deployment self-check passes exactly when the role query found a row.
pub fn role_exists(row_count: u64) -> (r: bool)
    ensures
        r == (row_count != 0),
{
    row_count != 0
}

pub open spec fn spec_create_schema_statement(epoch: u64) -> Seq<char> {
    "CREATE SCHEMA "@ + spec_schema_name(epoch)
}

pub fn create_schema_statement(epoch: u64) -> (r: String)
    ensures
        r@ == spec_create_schema_statement(epoch),
{
    let mut s = String::from_str("CREATE SCHEMA ");
    s.append(build_schema_name(epoch).as_str());
    s
}

/// Grants the minimal privileges on a freshly created partition schema to
/// the application role.
pub open spec fn spec_assign_permissions_statements(epoch: u64) -> Seq<char> {
    "GRANT USAGE ON SCHEMA "@ + spec_schema_name(epoch) + " TO "@ + spec_role_name() + "; GRANT ALL ON ALL TABLES IN SCHEMA "@ + spec_schema_name(epoch) + " TO "@ + spec_role_name() + "; ALTER DEFAULT PRIVILEGES IN SCHEMA "@ + spec_schema_name(epoch) + " GRANT ALL ON TABLES TO "@ + spec_role_name() + ";"@
}

pub fn assign_permissions_statements(epoch: u64) -> (r: String)
    ensures
        r@ == spec_assign_permissions_statements(epoch),
{
    let schema = build_schema_name(epoch);
    let mut s = String::from_str("GRANT USAGE ON SCHEMA ");
    s.append(schema.as_str());
    s.append(" TO ");
    s.append(role_name());
    s.append("; GRANT ALL ON ALL TABLES IN SCHEMA ");
    s.append(schema.as_str());
    s.append(" TO ");
    s.append(role_name());
    s.append("; ALTER DEFAULT PRIVILEGES IN SCHEMA ");
    s.append(schema.as_str());
    s.append(" GRANT ALL ON TABLES TO ");
    s.append(role_name());
    s.append(";");
    s
}

pub open spec fn spec_create_blocks_table_statement(epoch: u64) -> Seq<char> {
    "CREATE TABLE "@ + spec_schema_name(epoch) + ".blocks (slot BIGINT NOT NULL, blockhash TEXT NOT NULL, block_height BIGINT NOT NULL, parent_slot BIGINT NOT NULL, block_time BIGINT NOT NULL, previous_blockhash TEXT NOT NULL, rewards TEXT, leader_id TEXT, CONSTRAINT pk_block_slot PRIMARY KEY (slot))"@
}

pub fn create_blocks_table_statement(epoch: u64) -> (r: String)
    ensures
        r@ == spec_create_blocks_table_statement(epoch),
{
    let mut s = String::from_str("CREATE TABLE ");
    s.append(build_schema_name(epoch).as_str());
    s.append(
        ".blocks (slot BIGINT NOT NULL, blockhash TEXT NOT NULL, block_height BIGINT NOT NULL, parent_slot BIGINT NOT NULL, block_time BIGINT NOT NULL, previous_blockhash TEXT NOT NULL, rewards TEXT, leader_id TEXT, CONSTRAINT pk_block_slot PRIMARY KEY (slot))",
    );
    s
}

pub open spec fn spec_create_transactions_table_statement(epoch: u64) -> Seq<char> {
    "CREATE TABLE "@ + spec_schema_name(epoch) + ".transactions (signature TEXT NOT NULL, slot BIGINT NOT NULL, is_vote BOOL NOT NULL, error TEXT, cu_requested BIGINT, cu_consumed BIGINT, prioritization_fees BIGINT, recent_blockhash TEXT NOT NULL, message TEXT NOT NULL)"@
}

pub fn create_transactions_table_statement(epoch: u64) -> (r: String)
    ensures
        r@ == spec_create_transactions_table_statement(epoch),
{
    let mut s = String::from_str("CREATE TABLE ");
    s.append(build_schema_name(epoch).as_str());
    s.append(
        ".transactions (signature TEXT NOT NULL, slot BIGINT NOT NULL, is_vote BOOL NOT NULL, error TEXT, cu_requested BIGINT, cu_consumed BIGINT, prioritization_fees BIGINT, recent_blockhash TEXT NOT NULL, message TEXT NOT NULL)",
    );
    s
}

/// Binds each transaction row to the block row it belongs to, within the
/// same partition.
pub open spec fn spec_foreign_key_statement(epoch: u64) -> Seq<char> {
    "ALTER TABLE "@ + spec_schema_name(epoch) + ".transactions ADD CONSTRAINT fk_transactions_slot FOREIGN KEY (slot) REFERENCES "@ + spec_schema_name(epoch) + ".blocks (slot)"@
}

pub fn foreign_key_statement(epoch: u64) -> (r: String)
    ensures
        r@ == spec_foreign_key_statement(epoch),
{
    let schema = build_schema_name(epoch);
    let mut s = String::from_str("ALTER TABLE ");
    s.append(schema.as_str());
    s.append(
        ".transactions ADD CONSTRAINT fk_transactions_slot FOREIGN KEY (slot) REFERENCES ",
    );
    s.append(schema.as_str());
    s.append(".blocks (slot)");
    s
}

pub open spec fn spec_query_block_statement(epoch: u64, slot: u64) -> Seq<char> {
    "SELECT slot, blockhash, block_height, parent_slot, block_time, previous_blockhash, rewards, leader_id FROM "@ + spec_schema_name(epoch) + ".blocks WHERE slot = "@ + dec_digits(slot as nat)
}

pub fn query_block_statement(epoch: u64, slot: u64) -> (r: String)
    ensures
        r@ == spec_query_block_statement(epoch, slot),
{
    let mut s = String::from_str(
        "SELECT slot, blockhash, block_height, parent_slot, block_time, previous_blockhash, rewards, leader_id FROM ",
    );
    s.append(build_schema_name(epoch).as_str());
    s.append(".blocks WHERE slot = ");
    s.append(u64_to_dec(slot).as_str());
    s
}

/// Non-locking statistics refresh on a partition's blocks table.
pub open spec fn spec_analyze_statement(epoch: u64) -> Seq<char> {
    "ANALYZE (SKIP_LOCKED) "@ + spec_schema_name(epoch) + ".blocks"@
}

pub fn analyze_statement(epoch: u64) -> (r: String)
    ensures
        r@ == spec_analyze_statement(epoch),
{
    let mut s = String::from_str("ANALYZE (SKIP_LOCKED) ");
    s.append(build_schema_name(epoch).as_str());
    s.append(".blocks");
    s
}

/// Enumerates the schemas whose names match the epoch partition pattern.
pub open spec fn spec_schemata_query() -> Seq<char> {
    "SELECT schema_name FROM information_schema.schemata WHERE schema_name ~ '^"@ + spec_schema_prefix() + "[0-9]+$'"@
}

pub fn schemata_query() -> (r: String)
    ensures
        r@ == spec_schemata_query(),
{
    let mut s = String::from_str(
        "SELECT schema_name FROM information_schema.schemata WHERE schema_name ~ '^",
    );
    s.append(schema_prefix());
    s.append("[0-9]+$'");
    s
}

/// One branch of the range aggregation: every slot of one partition, tagged
/// with its epoch.
pub open spec fn spec_slots_select(epoch: u64) -> Seq<char> {
    "SELECT slot,"@ + dec_digits(epoch as nat) + "::bigint as epoch FROM "@ + spec_schema_name(epoch) + ".blocks"@
}

pub fn slots_select(epoch: u64) -> (r: String)
    ensures
        r@ == spec_slots_select(epoch),
{
    let mut s = String::from_str("SELECT slot,");
    s.append(u64_to_dec(epoch).as_str());
    s.append("::bigint as epoch FROM ");
    s.append(build_schema_name(epoch).as_str());
    s.append(".blocks");
    s
}

/// Concatenation of a sequence of strings with a separator between
/// consecutive items.
pub open spec fn spec_join(parts: Seq<Seq<char>>, sep: Seq<char>) -> Seq<char>
    decreases parts.len(),
{
    if parts.len() == 0 {
        Seq::empty()
    } else if parts.len() == 1 {
        parts[0]
    } else {
        spec_join(parts.drop_last(), sep) + sep + parts.last()
    }
}

/// Relies on itertools' `Itertools::join`: combines the iterator's items
/// into one string, separated by `sep`.
#[verifier::external_body]
fn join_strings(parts: &Vec<String>, sep: &str) -> (r: String)
    ensures
        r@ == spec_join(parts@.map(|i: int, p: String| p@), sep@),
{
    itertools::Itertools::join(&mut parts.iter(), sep)
}

/// The single aggregate query of the range index: unions every partition's
/// tagged slots and reduces them to one (min, max) row per epoch.
pub open spec fn spec_range_aggregate_query(epochs: Seq<u64>) -> Seq<char> {
    "SELECT epoch, min(slot) as slot_min, max(slot) as slot_max FROM ("@ + spec_join(
        epochs.map(|i: int, e: u64| spec_slots_select(e)),
        " UNION ALL "@,
    ) + ") AS all_slots GROUP BY epoch"@
}

pub fn range_aggregate_query(epochs: &Vec<u64>) -> (r: String)
    ensures
        r@ == spec_range_aggregate_query(epochs@),
{
    let mut selects: Vec<String> = Vec::new();
    let mut i: usize = 0;
    while i < epochs.len()
        invariant
            0 <= i <= epochs@.len(),
            selects@.len() == i,
            forall|j: int| 0 <= j < i ==> selects@[j]@ == spec_slots_select(epochs@[j]),
        decreases epochs@.len() - i,
    {
        selects.push(slots_select(epochs[i]));
        i = i + 1;
    }
    let joined = join_strings(&selects, " UNION ALL ");
    proof {
        assert(selects@.map(|j: int, p: String| p@) =~= epochs@.map(
            |j: int, e: u64| spec_slots_select(e),
        ));
    }
    let mut s = String::from_str(
        "SELECT epoch, min(slot) as slot_min, max(slot) as slot_max FROM (",
    );
    s.append(joined.as_str());
    s.append(") AS all_slots GROUP BY epoch");
    s
}

} // verus!
