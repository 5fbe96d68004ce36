//! The mathematical model of the store: bucket records, the operation log and
//! the operations that the server sends, with the effect of each of them.
use vstd::prelude::*;
use crate::checksum::{combine, wrap32};

verus! {

/// The kind of a log entry, as persisted.
#[derive(Clone, Copy, PartialEq, Eq, Debug, Structural)]
pub enum EntryKind {
    Move,
    Put,
    Remove,
}

/// The kind of an operation sent by the server.
#[derive(Clone, Copy, PartialEq, Eq, Debug, Structural)]
pub enum OpKind {
    Put,
    Remove,
    Move,
    Clear,
    /// A kind this engine does not know; such an operation only counts for
    /// the range of operation ids of its batch.
    Other,
}

/// One operation of a batch.
pub struct OperationModel {
    pub op_id: i64,
    pub op: OpKind,
    pub object_type: Option<Seq<char>>,
    pub object_id: Option<Seq<char>>,
    pub checksum: i32,
    pub data: Option<Seq<char>>,
    pub subkey: Option<Seq<char>>,
    /// The horizon that the payload of a MOVE announces, if it announces one.
    pub target: Option<i64>,
}

/// The operations that a batch carries for one bucket.
pub struct PacketModel {
    pub bucket: Seq<char>,
    pub operations: Seq<OperationModel>,
}

/// One entry of the operation log.
pub struct EntryModel {
    pub bucket: Seq<char>,
    pub op_id: i64,
    pub kind: EntryKind,
    pub key: Option<Seq<char>>,
    pub row_type: Option<Seq<char>>,
    pub row_id: Option<Seq<char>>,
    pub data: Option<Seq<char>>,
    pub hash: i32,
    pub superseded: bool,
}

/// The record kept for one bucket.
pub struct BucketModel {
    pub name: Seq<char>,
    pub last_op: i64,
    pub last_applied_op: i64,
    pub target_op: i64,
    pub add_checksum: i32,
    pub pending_delete: bool,
}

/// One row of a typed user table.
pub struct RowModel {
    pub id: Seq<char>,
    pub data: Seq<char>,
}

/// A typed user table.
pub struct TableModel {
    pub name: Seq<char>,
    pub rows: Seq<RowModel>,
}

/// One row of the generic table that takes the rows of types without a table
/// of their own.
pub struct UntypedRowModel {
    pub row_type: Seq<char>,
    pub id: Seq<char>,
    pub data: Seq<char>,
}

/// The whole store.
#[verifier::ext_equal]
pub struct StoreModel {
    pub buckets: Seq<BucketModel>,
    pub oplog: Seq<EntryModel>,
    pub tables: Seq<TableModel>,
    pub untyped: Seq<UntypedRowModel>,
    /// Local writes that wait for upload.
    pub crud: Seq<Seq<char>>,
    pub last_synced_at: Option<Seq<char>>,
}

impl EntryKind {
    /// The code under which the kind is persisted.
    pub open spec fn code(self) -> int {
        match self {
            EntryKind::Move => 2,
            EntryKind::Put => 3,
            EntryKind::Remove => 4,
        }
    }

    /// The code under which the kind is persisted.
    pub fn to_code(&self) -> (code: i32)
        ensures
            code == self.code(),
    {
        match self {
            EntryKind::Move => 2,
            EntryKind::Put => 3,
            EntryKind::Remove => 4,
        }
    }

    /// The kind that a persisted code stands for.
    pub fn from_code(code: i32) -> (kind: Option<EntryKind>)
        ensures
            match kind {
                Some(k) => k.code() == code,
                None => code != 2 && code != 3 && code != 4,
            },
    {
        if code == 2 {
            Some(EntryKind::Move)
        } else if code == 3 {
            Some(EntryKind::Put)
        } else if code == 4 {
            Some(EntryKind::Remove)
        } else {
            None
        }
    }
}

// ---------------------------------------------------------------------------
// Well-formedness
// ---------------------------------------------------------------------------

/// No two bucket records have the same name.
pub open spec fn distinct_buckets(buckets: Seq<BucketModel>) -> bool {
    forall|i: int, j: int|
        0 <= i < j < buckets.len() ==> (#[trigger] buckets[i]).name != (#[trigger] buckets[j]).name
}

/// Whether two entries are live entries of one bucket under one key.
pub open spec fn rivals(a: EntryModel, b: EntryModel) -> bool {
    !a.superseded && !b.superseded && a.bucket == b.bucket && a.key is Some && a.key == b.key
}

/// For every bucket and key, at most one entry is live.
pub open spec fn one_live_per_key(oplog: Seq<EntryModel>) -> bool {
    forall|i: int, j: int|
        0 <= i < j < oplog.len() ==> !rivals(#[trigger] oplog[i], #[trigger] oplog[j])
}

/// Every entry belongs to a recorded bucket.
pub open spec fn entries_owned(buckets: Seq<BucketModel>, oplog: Seq<EntryModel>) -> bool {
    forall|i: int| 0 <= i < oplog.len() ==> has_bucket(buckets, (#[trigger] oplog[i]).bucket)
}

/// A MOVE entry has no key and is inert.
pub open spec fn moves_inert(oplog: Seq<EntryModel>) -> bool {
    forall|i: int|
        0 <= i < oplog.len() && (#[trigger] oplog[i]).kind == EntryKind::Move ==> oplog[i].key
            is None && oplog[i].superseded
}

/// No MOVE entry is in the log: each leaves with the compaction of its own
/// batch.
pub open spec fn no_moves(oplog: Seq<EntryModel>) -> bool {
    forall|i: int| 0 <= i < oplog.len() ==> (#[trigger] oplog[i]).kind != EntryKind::Move
}

/// What holds of the store at every step, within a batch too.
pub open spec fn coherent(s: StoreModel) -> bool {
    &&& distinct_buckets(s.buckets)
    &&& one_live_per_key(s.oplog)
    &&& entries_owned(s.buckets, s.oplog)
    &&& moves_inert(s.oplog)
}

/// No two tables have the same name.
pub open spec fn distinct_tables(tables: Seq<TableModel>) -> bool {
    forall|i: int, j: int|
        0 <= i < j < tables.len() ==> (#[trigger] tables[i]).name != (#[trigger] tables[j]).name
}

/// No two rows of a table have the same id.
pub open spec fn distinct_rows(rows: Seq<RowModel>) -> bool {
    forall|i: int, j: int|
        0 <= i < j < rows.len() ==> (#[trigger] rows[i]).id != (#[trigger] rows[j]).id
}

/// Whether two rows of the generic table are rows of one type with one id.
pub open spec fn same_untyped(a: UntypedRowModel, b: UntypedRowModel) -> bool {
    a.row_type == b.row_type && a.id == b.id
}

/// No two rows of the generic table have the same type and id.
pub open spec fn distinct_untyped(rows: Seq<UntypedRowModel>) -> bool {
    forall|i: int, j: int|
        0 <= i < j < rows.len() ==> !same_untyped(#[trigger] rows[i], #[trigger] rows[j])
}

/// The user tables respect their keys: table names are distinct, and so
/// are the ids within each table and the pairs of type and id in the
/// generic table.
pub open spec fn rows_keyed(s: StoreModel) -> bool {
    &&& distinct_tables(s.tables)
    &&& forall|i: int| 0 <= i < s.tables.len() ==> distinct_rows((#[trigger] s.tables[i]).rows)
    &&& distinct_untyped(s.untyped)
}

/// What holds of the store between the calls of the entry points.
pub open spec fn well_formed(s: StoreModel) -> bool {
    coherent(s) && no_moves(s.oplog) && rows_keyed(s)
}

// ---------------------------------------------------------------------------
// Bucket records
// ---------------------------------------------------------------------------

/// The record of a bucket that is referenced for the first time.
pub open spec fn fresh_bucket(name: Seq<char>) -> BucketModel {
    BucketModel {
        name,
        last_op: 0,
        last_applied_op: 0,
        target_op: 0,
        add_checksum: 0,
        pending_delete: false,
    }
}

/// Whether a bucket of that name is recorded.
pub open spec fn has_bucket(buckets: Seq<BucketModel>, name: Seq<char>) -> bool {
    exists|i: int| 0 <= i < buckets.len() && (#[trigger] buckets[i]).name == name
}

/// The records with one for `name` added unless there is one.
pub open spec fn ensure_bucket(buckets: Seq<BucketModel>, name: Seq<char>) -> Seq<BucketModel> {
    if has_bucket(buckets, name) {
        buckets
    } else {
        buckets.push(fresh_bucket(name))
    }
}

/// The record with its target raised, where it is that of `name`.
pub open spec fn raise_target_of(b: BucketModel, name: Seq<char>, target: i64) -> BucketModel {
    if b.name == name && target > b.target_op {
        BucketModel { target_op: target, ..b }
    } else {
        b
    }
}

/// `target_op` of the bucket `name` raised to `target` where it was below.
pub open spec fn raise_target(buckets: Seq<BucketModel>, name: Seq<char>, target: i64) -> Seq<
    BucketModel,
> {
    buckets.map_values(|b: BucketModel| raise_target_of(b, name, target))
}

/// The record set back, where it is that of `name`.
pub open spec fn reset_of(b: BucketModel, name: Seq<char>, checksum: i32) -> BucketModel {
    if b.name == name {
        BucketModel { last_applied_op: 0, add_checksum: checksum, ..b }
    } else {
        b
    }
}

/// The bucket `name` set back to the state that a CLEAR leaves.
pub open spec fn reset_bucket(buckets: Seq<BucketModel>, name: Seq<char>, checksum: i32) -> Seq<
    BucketModel,
> {
    buckets.map_values(|b: BucketModel| reset_of(b, name, checksum))
}

/// The record with `last_op` set, where it is that of `name`.
pub open spec fn last_op_of(b: BucketModel, name: Seq<char>, last: i64) -> BucketModel {
    if b.name == name {
        BucketModel { last_op: last, ..b }
    } else {
        b
    }
}

/// `last_op` of the bucket `name` set to `last`.
pub open spec fn set_last_op(buckets: Seq<BucketModel>, name: Seq<char>, last: i64) -> Seq<
    BucketModel,
> {
    buckets.map_values(|b: BucketModel| last_op_of(b, name, last))
}

/// The record with `weight` added into `add_checksum`, where it is that
/// of `name`.
pub open spec fn absorb_of(b: BucketModel, name: Seq<char>, weight: i32) -> BucketModel {
    if b.name == name {
        BucketModel { add_checksum: combine(b.add_checksum, weight), ..b }
    } else {
        b
    }
}

/// `weight` added into `add_checksum` of the bucket `name`.
pub open spec fn absorb(buckets: Seq<BucketModel>, name: Seq<char>, weight: i32) -> Seq<
    BucketModel,
> {
    buckets.map_values(|b: BucketModel| absorb_of(b, name, weight))
}

// ---------------------------------------------------------------------------
// Log entries
// ---------------------------------------------------------------------------

/// The sum of the hashes of the entries that `sel` selects, as an unbounded
/// integer.
pub open spec fn hash_total(entries: Seq<EntryModel>, sel: spec_fn(EntryModel) -> bool) -> int
    decreases entries.len(),
{
    if entries.len() == 0 {
        0
    } else {
        hash_total(entries.drop_last(), sel) + if sel(entries.last()) {
            entries.last().hash as int
        } else {
            0
        }
    }
}

/// The key under which a PUT or REMOVE finds the earlier entry for its row:
/// type, id and subkey joined by slashes, an absent subkey written `null`.
/// An operation that lacks type or id has no key.
pub open spec fn composed_key(op: OperationModel) -> Option<Seq<char>> {
    if op.object_type is Some && op.object_id is Some {
        Some(
            op.object_type->0 + "/"@ + op.object_id->0 + "/"@ + match op.subkey {
                Some(sub) => sub,
                None => "null"@,
            },
        )
    } else {
        None
    }
}

/// The entry made inert, where it is the live entry of `bucket` under
/// `key`: it becomes a REMOVE without payload and keeps its hash.
pub open spec fn supersede_entry(e: EntryModel, bucket: Seq<char>, key: Seq<char>) -> EntryModel {
    if !e.superseded && e.bucket == bucket && e.key == Some(key) {
        EntryModel { superseded: true, kind: EntryKind::Remove, data: None, ..e }
    } else {
        e
    }
}

/// The log with the live entry of `bucket` under `key` made inert.
pub open spec fn supersede(oplog: Seq<EntryModel>, bucket: Seq<char>, key: Seq<char>) -> Seq<
    EntryModel,
> {
    oplog.map_values(|e: EntryModel| supersede_entry(e, bucket, key))
}

/// The entry rewritten to a REMOVE without payload and without weight,
/// where it is a PUT or REMOVE of `bucket`.
pub open spec fn clear_entry(e: EntryModel, bucket: Seq<char>) -> EntryModel {
    if e.bucket == bucket && e.kind != EntryKind::Move {
        EntryModel { kind: EntryKind::Remove, data: None, hash: 0, ..e }
    } else {
        e
    }
}

/// The log with every PUT and REMOVE entry of `bucket` rewritten to a REMOVE
/// without payload and without weight.
pub open spec fn clear_entries(oplog: Seq<EntryModel>, bucket: Seq<char>) -> Seq<EntryModel> {
    oplog.map_values(|e: EntryModel| clear_entry(e, bucket))
}

/// The entry that a PUT or REMOVE adds to the log.
pub open spec fn row_entry(bucket: Seq<char>, op: OperationModel) -> EntryModel {
    let keyed = op.object_type is Some && op.object_id is Some;
    EntryModel {
        bucket,
        op_id: op.op_id,
        kind: if op.op == OpKind::Put {
            EntryKind::Put
        } else {
            EntryKind::Remove
        },
        key: composed_key(op),
        row_type: if keyed {
            op.object_type
        } else {
            None
        },
        row_id: if keyed {
            op.object_id
        } else {
            None
        },
        data: if op.op == OpKind::Put {
            op.data
        } else {
            None
        },
        hash: op.checksum,
        superseded: false,
    }
}

/// The entry that a MOVE adds to the log: it names no row and is inert from
/// the start.
pub open spec fn move_entry(bucket: Seq<char>, op: OperationModel) -> EntryModel {
    EntryModel {
        bucket,
        op_id: op.op_id,
        kind: EntryKind::Move,
        key: None,
        row_type: None,
        row_id: None,
        data: None,
        hash: op.checksum,
        superseded: true,
    }
}

// ---------------------------------------------------------------------------
// Ingestion
// ---------------------------------------------------------------------------

/// The store after one operation of a batch for `bucket`.
pub open spec fn apply_op(s: StoreModel, bucket: Seq<char>, op: OperationModel) -> StoreModel {
    match op.op {
        OpKind::Put | OpKind::Remove => {
            let log = match composed_key(op) {
                Some(key) => supersede(s.oplog, bucket, key),
                None => s.oplog,
            };
            StoreModel { oplog: log.push(row_entry(bucket, op)), ..s }
        },
        OpKind::Move => StoreModel {
            oplog: s.oplog.push(move_entry(bucket, op)),
            buckets: match op.target {
                Some(target) => raise_target(s.buckets, bucket, target),
                None => s.buckets,
            },
            ..s
        },
        OpKind::Clear => StoreModel {
            oplog: clear_entries(s.oplog, bucket),
            buckets: reset_bucket(s.buckets, bucket, op.checksum),
            ..s
        },
        OpKind::Other => s,
    }
}

/// The store after the operations of a batch, in their order.
pub open spec fn apply_ops(s: StoreModel, bucket: Seq<char>, ops: Seq<OperationModel>) -> StoreModel
    decreases ops.len(),
{
    if ops.len() == 0 {
        s
    } else {
        apply_op(apply_ops(s, bucket, ops.drop_last()), bucket, ops.last())
    }
}

/// The least operation id of a batch that is not empty.
pub open spec fn min_op_id(ops: Seq<OperationModel>) -> i64
    decreases ops.len(),
{
    if ops.len() <= 1 {
        ops.last().op_id
    } else {
        let rest = min_op_id(ops.drop_last());
        if ops.last().op_id < rest {
            ops.last().op_id
        } else {
            rest
        }
    }
}

/// The greatest operation id of a batch that is not empty.
pub open spec fn max_op_id(ops: Seq<OperationModel>) -> i64
    decreases ops.len(),
{
    if ops.len() <= 1 {
        ops.last().op_id
    } else {
        let rest = max_op_id(ops.drop_last());
        if ops.last().op_id > rest {
            ops.last().op_id
        } else {
            rest
        }
    }
}

/// Whether compaction of `bucket` over the ids `first..=last` removes `e`.
pub open spec fn compactable(e: EntryModel, bucket: Seq<char>, first: i64, last: i64) -> bool {
    e.superseded && e.bucket == bucket && first <= e.op_id <= last
}

/// The entries that compaction of `bucket` over `first..=last` removes.
pub open spec fn compacted(bucket: Seq<char>, first: i64, last: i64) -> spec_fn(EntryModel) -> bool {
    |e: EntryModel| compactable(e, bucket, first, last)
}

/// The entries that compaction of `bucket` over `first..=last` keeps.
pub open spec fn retained(bucket: Seq<char>, first: i64, last: i64) -> spec_fn(EntryModel) -> bool {
    |e: EntryModel| !compactable(e, bucket, first, last)
}

/// The store after compaction: the inert entries of `bucket` with an id in
/// `first..=last` leave the log and their weight moves into `add_checksum`.
pub open spec fn compact(s: StoreModel, bucket: Seq<char>, first: i64, last: i64) -> StoreModel {
    let weight = hash_total(s.oplog, compacted(bucket, first, last));
    StoreModel {
        oplog: s.oplog.filter(retained(bucket, first, last)),
        buckets: absorb(s.buckets, bucket, wrap32(weight)),
        ..s
    }
}

/// The store after a whole batch for `bucket`: the bucket is recorded, the
/// operations are applied in order, and where there was any the bucket's
/// `last_op` becomes the greatest id seen and the log is compacted over the
/// ids seen.
pub open spec fn ingest(s: StoreModel, bucket: Seq<char>, ops: Seq<OperationModel>) -> StoreModel {
    let named = StoreModel { buckets: ensure_bucket(s.buckets, bucket), ..s };
    let applied = apply_ops(named, bucket, ops);
    if ops.len() == 0 {
        applied
    } else {
        let marked = StoreModel {
            buckets: set_last_op(applied.buckets, bucket, max_op_id(ops)),
            ..applied
        };
        compact(marked, bucket, min_op_id(ops), max_op_id(ops))
    }
}

/// The store after the packets of a batch, each ingested for its bucket, in
/// their order.
pub open spec fn ingest_all(s: StoreModel, packets: Seq<PacketModel>) -> StoreModel
    decreases packets.len(),
{
    if packets.len() == 0 {
        s
    } else {
        ingest(
            ingest_all(s, packets.drop_last()),
            packets.last().bucket,
            packets.last().operations,
        )
    }
}

/// The store after a row of batches for `bucket`, each ingested in its
/// turn.
pub open spec fn ingest_each(s: StoreModel, bucket: Seq<char>, batches: Seq<Seq<OperationModel>>) -> StoreModel
    decreases batches.len(),
{
    if batches.len() == 0 {
        s
    } else {
        ingest(ingest_each(s, bucket, batches.drop_last()), bucket, batches.last())
    }
}

/// The operations of a row of batches, in the order in which they were
/// sent.
pub open spec fn all_sent(batches: Seq<Seq<OperationModel>>) -> Seq<OperationModel>
    decreases batches.len(),
{
    if batches.len() == 0 {
        Seq::empty()
    } else {
        all_sent(batches.drop_last()) + batches.last()
    }
}

/// The live entries of `bucket` under `key`.
pub open spec fn live_under(bucket: Seq<char>, key: Seq<char>) -> spec_fn(EntryModel) -> bool {
    |e: EntryModel| !e.superseded && e.bucket == bucket && e.key == Some(key)
}

// ---------------------------------------------------------------------------
// Checksums
// ---------------------------------------------------------------------------

/// The record of the bucket `name`, if there is one.
pub open spec fn find_bucket(buckets: Seq<BucketModel>, name: Seq<char>) -> Option<BucketModel>
    decreases buckets.len(),
{
    if buckets.len() == 0 {
        None
    } else if buckets.last().name == name {
        Some(buckets.last())
    } else {
        find_bucket(buckets.drop_last(), name)
    }
}

/// `add_checksum` of the bucket `name`, 0 where it is not recorded.
pub open spec fn absorbed(buckets: Seq<BucketModel>, name: Seq<char>) -> int {
    match find_bucket(buckets, name) {
        Some(b) => b.add_checksum as int,
        None => 0,
    }
}

/// The entries of the bucket `name`.
pub open spec fn in_bucket(name: Seq<char>) -> spec_fn(EntryModel) -> bool {
    |e: EntryModel| e.bucket == name
}

/// The live entries of the bucket `name`.
pub open spec fn live_in(name: Seq<char>) -> spec_fn(EntryModel) -> bool {
    |e: EntryModel| e.bucket == name && !e.superseded
}

/// The inert entries of the bucket `name`.
pub open spec fn inert_in(name: Seq<char>) -> spec_fn(EntryModel) -> bool {
    |e: EntryModel| e.bucket == name && e.superseded
}

/// The MOVE entries of the bucket `name`.
pub open spec fn moves_in(name: Seq<char>) -> spec_fn(EntryModel) -> bool {
    |e: EntryModel| e.bucket == name && e.kind == EntryKind::Move
}

/// The weight that the store holds for a bucket, unbounded: `add_checksum`
/// and the hashes of all entries of the bucket in the log.
pub open spec fn gross_weight(s: StoreModel, name: Seq<char>) -> int {
    absorbed(s.buckets, name) + hash_total(s.oplog, in_bucket(name))
}

/// The checksum that the store holds for a bucket: `add_checksum` and the
/// hashes of all entries of the bucket in the log, added with wrap-around.
pub open spec fn bucket_checksum(s: StoreModel, name: Seq<char>) -> i32 {
    wrap32(gross_weight(s, name))
}

/// The checksum over `add_checksum` and the live entries of a bucket only.
pub open spec fn live_checksum(s: StoreModel, name: Seq<char>) -> i32 {
    wrap32(absorbed(s.buckets, name) + hash_total(s.oplog, live_in(name)))
}

/// The checksum of a bucket on the server after it has sent `ops`, given
/// the one before: a CLEAR starts over from its own checksum, and every
/// PUT, REMOVE and MOVE adds its own.
pub open spec fn server_checksum(before: i32, ops: Seq<OperationModel>) -> i32
    decreases ops.len(),
{
    if ops.len() == 0 {
        before
    } else {
        let prev = server_checksum(before, ops.drop_last());
        match ops.last().op {
            OpKind::Put | OpKind::Remove | OpKind::Move => combine(prev, ops.last().checksum),
            OpKind::Clear => ops.last().checksum,
            OpKind::Other => prev,
        }
    }
}

/// The sum of the checksums of the MOVE operations of a batch.
pub open spec fn move_total(ops: Seq<OperationModel>) -> int
    decreases ops.len(),
{
    if ops.len() == 0 {
        0
    } else {
        move_total(ops.drop_last()) + if ops.last().op == OpKind::Move {
            ops.last().checksum as int
        } else {
            0
        }
    }
}

/// The sum of the checksums of the MOVE operations that precede the last
/// CLEAR of a batch. Their entries are still in the log when the CLEAR
/// resets the bucket, and their weight is absorbed after it.
pub open spec fn carried_moves(ops: Seq<OperationModel>) -> int
    decreases ops.len(),
{
    if ops.len() == 0 {
        0
    } else if ops.last().op == OpKind::Clear {
        move_total(ops.drop_last())
    } else {
        carried_moves(ops.drop_last())
    }
}

// ---------------------------------------------------------------------------
// Bucket life cycle
// ---------------------------------------------------------------------------

/// Whether a bucket that waits for deletion is drained: all of its log is
/// applied and the log has reached the target.
pub open spec fn reapable(b: BucketModel) -> bool {
    b.pending_delete && b.last_applied_op == b.last_op && b.last_op >= b.target_op
}

/// Whether `name` is the name of a drained bucket.
pub open spec fn reaped_name(buckets: Seq<BucketModel>, name: Seq<char>) -> bool {
    exists|i: int| 0 <= i < buckets.len() && (#[trigger] buckets[i]).name == name && reapable(buckets[i])
}

/// The buckets that are not drained.
pub open spec fn surviving() -> spec_fn(BucketModel) -> bool {
    |b: BucketModel| !reapable(b)
}

/// The entries outside the drained buckets among `buckets`.
pub open spec fn outside_reaped(buckets: Seq<BucketModel>) -> spec_fn(EntryModel) -> bool {
    |e: EntryModel| !reaped_name(buckets, e.bucket)
}

/// The store without the drained buckets and their entries.
pub open spec fn reap(s: StoreModel) -> StoreModel {
    StoreModel {
        oplog: s.oplog.filter(outside_reaped(s.buckets)),
        buckets: s.buckets.filter(surviving()),
        ..s
    }
}

/// Whether garbage collection of `bucket` up to the id `upto` removes `e`:
/// it is inert or no PUT, and its id is not above `upto`.
pub open spec fn collectable(e: EntryModel, bucket: Seq<char>, upto: i64) -> bool {
    (e.superseded || e.kind != EntryKind::Put) && e.bucket == bucket && e.op_id <= upto
}

/// The entries that garbage collection of `bucket` up to `upto` removes.
pub open spec fn collected(bucket: Seq<char>, upto: i64) -> spec_fn(EntryModel) -> bool {
    |e: EntryModel| collectable(e, bucket, upto)
}

/// The entries that garbage collection of `bucket` up to `upto` keeps.
pub open spec fn uncollected(bucket: Seq<char>, upto: i64) -> spec_fn(EntryModel) -> bool {
    |e: EntryModel| !collectable(e, bucket, upto)
}

/// The store after garbage collection of one bucket: the collectable entries
/// leave the log and their weight moves into `add_checksum`.
pub open spec fn collect_bucket(s: StoreModel, bucket: Seq<char>, upto: i64) -> StoreModel {
    let weight = hash_total(s.oplog, collected(bucket, upto));
    StoreModel {
        oplog: s.oplog.filter(uncollected(bucket, upto)),
        buckets: absorb(s.buckets, bucket, wrap32(weight)),
        ..s
    }
}

/// The store after garbage collection of the first `n` buckets: each bucket
/// that does not wait for deletion is collected up to its `last_applied_op`.
pub open spec fn collect_buckets(s: StoreModel, n: int) -> StoreModel
    decreases n,
{
    if n <= 0 {
        s
    } else {
        let prev = collect_buckets(s, n - 1);
        let b = prev.buckets[n - 1];
        if b.pending_delete {
            prev
        } else {
            collect_bucket(prev, b.name, b.last_applied_op)
        }
    }
}

/// The store after garbage collection of all buckets.
pub open spec fn collect_all(s: StoreModel) -> StoreModel {
    collect_buckets(s, s.buckets.len() as int)
}

/// What deletion of the bucket `name` under the name `sentinel` makes of an
/// entry: an entry of the bucket moves to the sentinel, and a live PUT among
/// them becomes a live REMOVE without payload.
pub open spec fn retire_entry(e: EntryModel, name: Seq<char>, sentinel: Seq<char>) -> EntryModel {
    if e.bucket == name {
        if e.kind == EntryKind::Put && !e.superseded {
            EntryModel { bucket: sentinel, kind: EntryKind::Remove, data: None, ..e }
        } else {
            EntryModel { bucket: sentinel, ..e }
        }
    } else {
        e
    }
}

/// The log after deletion of the bucket `name` under the name `sentinel`.
pub open spec fn retire_entries(oplog: Seq<EntryModel>, name: Seq<char>, sentinel: Seq<char>) -> Seq<
    EntryModel,
> {
    oplog.map_values(|e: EntryModel| retire_entry(e, name, sentinel))
}

/// The buckets with another name than `name`.
pub open spec fn named_otherwise(name: Seq<char>) -> spec_fn(BucketModel) -> bool {
    |b: BucketModel| b.name != name
}

/// The greatest id among the entries of `bucket`, if it has any.
pub open spec fn greatest_id(oplog: Seq<EntryModel>, bucket: Seq<char>) -> Option<i64>
    decreases oplog.len(),
{
    if oplog.len() == 0 {
        None
    } else {
        let rest = greatest_id(oplog.drop_last(), bucket);
        let e = oplog.last();
        if e.bucket == bucket && (rest is None || e.op_id > rest->0) {
            Some(e.op_id)
        } else {
            rest
        }
    }
}

/// The record of a sentinel bucket: it waits for deletion, and its log ends
/// at the greatest id among its entries, at 0 where it has none.
pub open spec fn sentinel_bucket(oplog: Seq<EntryModel>, sentinel: Seq<char>) -> BucketModel {
    BucketModel {
        name: sentinel,
        last_op: match greatest_id(oplog, sentinel) {
            Some(id) => id,
            None => 0,
        },
        last_applied_op: 0,
        target_op: 0,
        add_checksum: 0,
        pending_delete: true,
    }
}

/// Whether another bucket than `name` has the name `sentinel`.
pub open spec fn sentinel_taken(s: StoreModel, name: Seq<char>, sentinel: Seq<char>) -> bool {
    exists|i: int|
        0 <= i < s.buckets.len() && (#[trigger] s.buckets[i]).name == sentinel && s.buckets[i].name
            != name
}

/// The store after deletion of the bucket `name` under the name `sentinel`.
pub open spec fn retire(s: StoreModel, name: Seq<char>, sentinel: Seq<char>) -> StoreModel {
    let oplog = retire_entries(s.oplog, name, sentinel);
    StoreModel {
        oplog,
        buckets: s.buckets.filter(named_otherwise(name)).push(sentinel_bucket(oplog, sentinel)),
        ..s
    }
}

/// The name under which the bucket `name` waits for deletion, given the
/// text of a fresh identifier.
pub open spec fn sentinel_name(name: Seq<char>, id: Seq<char>) -> Seq<char> {
    "$delete_"@ + name + "_"@ + id
}

// ---------------------------------------------------------------------------
// Materialization
// ---------------------------------------------------------------------------

/// Whether a bucket holds the local apply back: it is no local bucket, does
/// not wait for deletion, and its log has not reached the target.
pub open spec fn lagging(b: BucketModel) -> bool {
    b.name != "$local"@ && !b.pending_delete && b.target_op > b.last_op
}

/// Whether a local apply is safe: no bucket lags and no local write waits
/// for upload.
pub open spec fn can_apply(s: StoreModel) -> bool {
    (forall|i: int| 0 <= i < s.buckets.len() ==> !lagging(#[trigger] s.buckets[i])) && s.crud.len()
        == 0
}

/// The name of the table that holds the rows of a type.
pub open spec fn table_name(row_type: Seq<char>) -> Seq<char> {
    "ps_data__"@ + row_type
}

/// Whether a table of that name exists.
pub open spec fn has_table(tables: Seq<TableModel>, name: Seq<char>) -> bool {
    exists|i: int| 0 <= i < tables.len() && (#[trigger] tables[i]).name == name
}

/// The table of the name `name`, if there is one.
pub open spec fn find_table(tables: Seq<TableModel>, name: Seq<char>) -> Option<TableModel>
    decreases tables.len(),
{
    if tables.len() == 0 {
        None
    } else if tables.last().name == name {
        Some(tables.last())
    } else {
        find_table(tables.drop_last(), name)
    }
}

/// The payload of the row with the id `id` among the rows of a table.
pub open spec fn find_row(rows: Seq<RowModel>, id: Seq<char>) -> Option<Seq<char>>
    decreases rows.len(),
{
    if rows.len() == 0 {
        None
    } else if rows.last().id == id {
        Some(rows.last().data)
    } else {
        find_row(rows.drop_last(), id)
    }
}

/// The payload of the row of `row_type` with the id `id` among the rows of
/// the generic table.
pub open spec fn find_untyped(rows: Seq<UntypedRowModel>, row_type: Seq<char>, id: Seq<char>) -> Option<
    Seq<char>,
>
    decreases rows.len(),
{
    if rows.len() == 0 {
        None
    } else if rows.last().row_type == row_type && rows.last().id == id {
        Some(rows.last().data)
    } else {
        find_untyped(rows.drop_last(), row_type, id)
    }
}

/// The payload of a row as the user tables hold it: in the table of its
/// type, or in the generic table where the type has no table.
pub open spec fn stored_row(s: StoreModel, row_type: Seq<char>, id: Seq<char>) -> Option<Seq<char>> {
    match find_table(s.tables, table_name(row_type)) {
        Some(t) => find_row(t.rows, id),
        None => find_untyped(s.untyped, row_type, id),
    }
}

/// The store with an empty table for the rows of `row_type`, unless there
/// is a table for them.
pub open spec fn with_table(s: StoreModel, row_type: Seq<char>) -> StoreModel {
    if has_table(s.tables, table_name(row_type)) {
        s
    } else {
        StoreModel {
            tables: s.tables.push(TableModel { name: table_name(row_type), rows: Seq::empty() }),
            ..s
        }
    }
}

/// The store without anything in it.
pub open spec fn empty_store() -> StoreModel {
    StoreModel {
        buckets: Seq::empty(),
        oplog: Seq::empty(),
        tables: Seq::empty(),
        untyped: Seq::empty(),
        crud: Seq::empty(),
        last_synced_at: None,
    }
}

/// Whether the entry is not applied yet: its id is above `last_applied_op`
/// of its bucket.
pub open spec fn unapplied(buckets: Seq<BucketModel>, e: EntryModel) -> bool {
    exists|i: int|
        0 <= i < buckets.len() && (#[trigger] buckets[i]).name == e.bucket && e.op_id
            > buckets[i].last_applied_op
}

/// Whether the entry calls for its row to be settled: it is live, names a
/// row, and is not applied yet.
pub open spec fn calls_for_row(s: StoreModel, e: EntryModel) -> bool {
    !e.superseded && e.row_type is Some && e.row_id is Some && unapplied(s.buckets, e)
}

/// Whether the entry asserts that the row exists: it is a live PUT for it.
pub open spec fn asserts_row(e: EntryModel, row_type: Seq<char>, row_id: Seq<char>) -> bool {
    !e.superseded && e.kind == EntryKind::Put && e.row_type == Some(row_type) && e.row_id == Some(
        row_id,
    )
}

/// Among the entries of all buckets that assert the row, the one with the
/// greatest id, the later in the log where two have the same.
pub open spec fn newest_put(oplog: Seq<EntryModel>, row_type: Seq<char>, row_id: Seq<char>) -> Option<
    EntryModel,
>
    decreases oplog.len(),
{
    if oplog.len() == 0 {
        None
    } else {
        let rest = newest_put(oplog.drop_last(), row_type, row_id);
        let e = oplog.last();
        if asserts_row(e, row_type, row_id) && (rest is None || e.op_id >= rest->0.op_id) {
            Some(e)
        } else {
            rest
        }
    }
}

/// The rows of a table with another id than `id`.
pub open spec fn other_rows(id: Seq<char>) -> spec_fn(RowModel) -> bool {
    |r: RowModel| r.id != id
}

/// The rows of the generic table for another row than that of `row_type`
/// with `id`.
pub open spec fn other_untyped(row_type: Seq<char>, id: Seq<char>) -> spec_fn(
    UntypedRowModel,
) -> bool {
    |r: UntypedRowModel| !(r.row_type == row_type && r.id == id)
}

/// The table without the row of the id `id`, where it is the table
/// `name`.
pub open spec fn table_without(t: TableModel, name: Seq<char>, id: Seq<char>) -> TableModel {
    if t.name == name {
        TableModel { rows: t.rows.filter(other_rows(id)), ..t }
    } else {
        t
    }
}

/// The table with the row of the id `id` set to `data`, where it is the
/// table `name`.
pub open spec fn table_with(t: TableModel, name: Seq<char>, id: Seq<char>, data: Seq<char>) -> TableModel {
    if t.name == name {
        TableModel { rows: t.rows.filter(other_rows(id)).push(RowModel { id, data }), ..t }
    } else {
        t
    }
}

/// The store without the row: it leaves the table of its type, or the
/// generic table where the type has no table.
pub open spec fn delete_row(s: StoreModel, row_type: Seq<char>, id: Seq<char>) -> StoreModel {
    if has_table(s.tables, table_name(row_type)) {
        StoreModel {
            tables: s.tables.map_values(|t: TableModel| table_without(t, table_name(row_type), id)),
            ..s
        }
    } else {
        StoreModel { untyped: s.untyped.filter(other_untyped(row_type, id)), ..s }
    }
}

/// The store with the row set to `data`: it replaces the row of that id in
/// the table of its type, or in the generic table where the type has no
/// table.
pub open spec fn upsert_row(s: StoreModel, row_type: Seq<char>, id: Seq<char>, data: Seq<char>) -> StoreModel {
    if has_table(s.tables, table_name(row_type)) {
        StoreModel {
            tables: s.tables.map_values(
                |t: TableModel| table_with(t, table_name(row_type), id, data),
            ),
            ..s
        }
    } else {
        StoreModel {
            untyped: s.untyped.filter(other_untyped(row_type, id)).push(
                UntypedRowModel { row_type, id, data },
            ),
            ..s
        }
    }
}

/// Whether the row can be settled: no entry asserts it, or the newest that
/// does carries a payload.
pub open spec fn row_ready(oplog: Seq<EntryModel>, row_type: Seq<char>, row_id: Seq<char>) -> bool {
    match newest_put(oplog, row_type, row_id) {
        Some(e) => e.data is Some,
        None => true,
    }
}

/// The store with the row settled: deleted where no bucket asserts it, else
/// set to the payload of the newest entry that asserts it.
pub open spec fn settle_row(s: StoreModel, row_type: Seq<char>, row_id: Seq<char>) -> StoreModel {
    match newest_put(s.oplog, row_type, row_id) {
        Some(e) => upsert_row(s, row_type, row_id, e.data->0),
        None => delete_row(s, row_type, row_id),
    }
}

/// The store with the rows settled that the first `n` entries of the log
/// call for.
pub open spec fn settle_rows(s: StoreModel, n: int) -> StoreModel
    decreases n,
{
    if n <= 0 {
        s
    } else {
        let prev = settle_rows(s, n - 1);
        let e = s.oplog[n - 1];
        if calls_for_row(s, e) {
            settle_row(prev, e.row_type->0, e.row_id->0)
        } else {
            prev
        }
    }
}

/// Whether every row that the log calls for can be settled.
pub open spec fn materializable(s: StoreModel) -> bool {
    forall|i: int|
        0 <= i < s.oplog.len() && calls_for_row(s, #[trigger] s.oplog[i]) ==> row_ready(
            s.oplog,
            s.oplog[i].row_type->0,
            s.oplog[i].row_id->0,
        )
}

/// Whether `c` can stand at the place `i` of a time of the form
/// `YYYY-MM-DD HH:MM:SS`.
pub open spec fn fits_timestamp(i: int, c: char) -> bool {
    if i == 4 || i == 7 {
        c == '-'
    } else if i == 10 {
        c == ' '
    } else if i == 13 || i == 16 {
        c == ':'
    } else {
        '0' <= c <= '9'
    }
}

/// Whether the text is a time of the form `YYYY-MM-DD HH:MM:SS`.
pub open spec fn is_timestamp(text: Seq<char>) -> bool {
    text.len() == 19 && forall|i: int| 0 <= i < 19 ==> fits_timestamp(i, #[trigger] text[i])
}

/// The record of a bucket that is applied up to its `last_op`.
pub open spec fn applied_of(b: BucketModel) -> BucketModel {
    BucketModel { last_applied_op: b.last_op, ..b }
}

/// The store after a local apply at the time `timestamp`: the rows that the
/// log calls for are settled, every bucket is applied up to its `last_op`,
/// and the time is recorded.
pub open spec fn materialize(s: StoreModel, timestamp: Seq<char>) -> StoreModel {
    let settled = settle_rows(s, s.oplog.len() as int);
    StoreModel {
        buckets: s.buckets.map_values(|b: BucketModel| applied_of(b)),
        last_synced_at: Some(timestamp),
        ..settled
    }
}

} // verus!
