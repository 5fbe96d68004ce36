//! The entry points keep the store well-formed.
use vstd::prelude::*;
use crate::model::{
    apply_op, apply_ops, calls_for_row, coherent, collect_bucket, collect_buckets, compact,
    compactable, composed_key, delete_row, distinct_buckets, distinct_rows, distinct_untyped,
    ensure_bucket, entries_owned, has_bucket, has_table, ingest, ingest_all, materialize, max_op_id,
    min_op_id, moves_inert, named_otherwise, newest_put, no_moves, one_live_per_key, other_rows,
    other_untyped, outside_reaped, reap, reapable, reaped_name, retained, retire, rivals,
    rows_keyed, same_untyped, sentinel_taken, set_last_op, settle_rows, supersede, surviving,
    table_name, uncollected, upsert_row, well_formed, BucketModel, EntryKind, EntryModel,
    OperationModel, OpKind, PacketModel, RowModel, StoreModel, UntypedRowModel,
};
use crate::seq_facts::{lemma_filter_keeps, lemma_filter_source, lemma_filter_sources};

verus! {

/// Whether two lists of records name the same buckets at the same places.
pub open spec fn same_names(a: Seq<BucketModel>, b: Seq<BucketModel>) -> bool {
    a.len() == b.len() && forall|i: int| 0 <= i < a.len() ==> (#[trigger] a[i]).name == b[i].name
}

/// Records that name the same buckets own the same entries and are as
/// distinct.
pub proof fn lemma_same_names(a: Seq<BucketModel>, b: Seq<BucketModel>, oplog: Seq<EntryModel>)
    requires
        same_names(a, b),
    ensures
        forall|name: Seq<char>| has_bucket(a, name) == has_bucket(b, name),
        distinct_buckets(a) == distinct_buckets(b),
        entries_owned(a, oplog) == entries_owned(b, oplog),
{
    assert forall|name: Seq<char>| has_bucket(a, name) == has_bucket(b, name) by {
        if has_bucket(a, name) {
            let i = choose|i: int| 0 <= i < a.len() && (#[trigger] a[i]).name == name;
            assert(b[i].name == name);
        }
        if has_bucket(b, name) {
            let i = choose|i: int| 0 <= i < b.len() && (#[trigger] b[i]).name == name;
            assert(a[i].name == name);
        }
    }
    if distinct_buckets(a) {
        assert forall|i: int, j: int| 0 <= i < j < b.len() implies (#[trigger] b[i]).name != (
        #[trigger] b[j]).name by {
            assert(a[i].name != a[j].name);
        }
    }
    if distinct_buckets(b) {
        assert forall|i: int, j: int| 0 <= i < j < a.len() implies (#[trigger] a[i]).name != (
        #[trigger] a[j]).name by {
            assert(b[i].name != b[j].name);
        }
    }
}

/// A filtered log is as well-formed as the log it was taken from.
pub proof fn lemma_filtered_log(
    buckets: Seq<BucketModel>,
    oplog: Seq<EntryModel>,
    keep: spec_fn(EntryModel) -> bool,
)
    ensures
        one_live_per_key(oplog) ==> one_live_per_key(oplog.filter(keep)),
        entries_owned(buckets, oplog) ==> entries_owned(buckets, oplog.filter(keep)),
        moves_inert(oplog) ==> moves_inert(oplog.filter(keep)),
        no_moves(oplog) ==> no_moves(oplog.filter(keep)),
{
    let kept = oplog.filter(keep);
    if one_live_per_key(oplog) {
        assert forall|i: int, j: int| 0 <= i < j < kept.len() implies !rivals(
            #[trigger] kept[i],
            #[trigger] kept[j],
        ) by {
            let (a, b) = lemma_filter_sources(oplog, keep, i, j);
            assert(!rivals(oplog[a], oplog[b]));
        }
    }
    assert forall|i: int| 0 <= i < kept.len() implies (entries_owned(buckets, oplog)
        ==> has_bucket(buckets, (#[trigger] kept[i]).bucket)) && (moves_inert(oplog) && kept[i].kind
        == EntryKind::Move ==> kept[i].key is None && kept[i].superseded) && (no_moves(oplog)
        ==> kept[i].kind != EntryKind::Move) by {
        let a = lemma_filter_source(oplog, keep, i);
        assert(oplog[a] == kept[i]);
    }
}

/// One operation of a batch keeps the store coherent, and the batch's
/// bucket recorded.
pub proof fn lemma_apply_op_coherent(s: StoreModel, bucket: Seq<char>, op: OperationModel)
    requires
        coherent(s),
        has_bucket(s.buckets, bucket),
    ensures
        coherent(apply_op(s, bucket, op)),
        has_bucket(apply_op(s, bucket, op).buckets, bucket),
{
    let t = apply_op(s, bucket, op);
    match op.op {
        OpKind::Put | OpKind::Remove => {
            let log = match composed_key(op) {
                Some(key) => supersede(s.oplog, bucket, key),
                None => s.oplog,
            };
            assert forall|i: int, j: int| 0 <= i < j < t.oplog.len() implies !rivals(
                #[trigger] t.oplog[i],
                #[trigger] t.oplog[j],
            ) by {
                if j < log.len() {
                    assert(!rivals(s.oplog[i], s.oplog[j]));
                }
            }
            assert forall|i: int| 0 <= i < t.oplog.len() implies has_bucket(
                t.buckets,
                (#[trigger] t.oplog[i]).bucket,
            ) by {
                if i < log.len() {
                    assert(s.oplog[i].bucket == t.oplog[i].bucket);
                }
            }
            assert forall|i: int|
                0 <= i < t.oplog.len() && (#[trigger] t.oplog[i]).kind
                    == EntryKind::Move implies t.oplog[i].key is None && t.oplog[i].superseded by {
                if i < log.len() {
                    assert(s.oplog[i].kind == EntryKind::Move);
                }
            }
        },
        OpKind::Move => {
            lemma_same_names(s.buckets, t.buckets, t.oplog);
            assert forall|i: int, j: int| 0 <= i < j < t.oplog.len() implies !rivals(
                #[trigger] t.oplog[i],
                #[trigger] t.oplog[j],
            ) by {
                if j < s.oplog.len() {
                    assert(!rivals(s.oplog[i], s.oplog[j]));
                }
            }
            assert forall|i: int| 0 <= i < t.oplog.len() implies has_bucket(
                s.buckets,
                (#[trigger] t.oplog[i]).bucket,
            ) by {
                if i < s.oplog.len() {
                    assert(s.oplog[i].bucket == t.oplog[i].bucket);
                }
            }
            assert forall|i: int|
                0 <= i < t.oplog.len() && (#[trigger] t.oplog[i]).kind
                    == EntryKind::Move implies t.oplog[i].key is None && t.oplog[i].superseded by {
                if i < s.oplog.len() {
                    assert(s.oplog[i].kind == EntryKind::Move);
                }
            }
        },
        OpKind::Clear => {
            lemma_same_names(s.buckets, t.buckets, t.oplog);
            assert forall|i: int, j: int| 0 <= i < j < t.oplog.len() implies !rivals(
                #[trigger] t.oplog[i],
                #[trigger] t.oplog[j],
            ) by {
                assert(!rivals(s.oplog[i], s.oplog[j]));
            }
            assert forall|i: int| 0 <= i < t.oplog.len() implies has_bucket(
                s.buckets,
                (#[trigger] t.oplog[i]).bucket,
            ) by {
                assert(s.oplog[i].bucket == t.oplog[i].bucket);
            }
            assert forall|i: int|
                0 <= i < t.oplog.len() && (#[trigger] t.oplog[i]).kind
                    == EntryKind::Move implies t.oplog[i].key is None && t.oplog[i].superseded by {
                assert(s.oplog[i].kind == EntryKind::Move);
            }
        },
        OpKind::Other => {},
    }
}

/// The operations of a batch keep the store coherent, and the batch's
/// bucket recorded.
pub proof fn lemma_apply_ops_coherent(s: StoreModel, bucket: Seq<char>, ops: Seq<OperationModel>)
    requires
        coherent(s),
        has_bucket(s.buckets, bucket),
    ensures
        coherent(apply_ops(s, bucket, ops)),
        has_bucket(apply_ops(s, bucket, ops).buckets, bucket),
    decreases ops.len(),
{
    if ops.len() > 0 {
        lemma_apply_ops_coherent(s, bucket, ops.drop_last());
        lemma_apply_op_coherent(apply_ops(s, bucket, ops.drop_last()), bucket, ops.last());
    }
}

/// Every id of a batch lies between the least and the greatest.
pub proof fn lemma_id_range(ops: Seq<OperationModel>, k: int)
    requires
        0 <= k < ops.len(),
    ensures
        min_op_id(ops) <= ops[k].op_id <= max_op_id(ops),
    decreases ops.len(),
{
    if ops.len() > 1 {
        if k < ops.len() - 1 {
            lemma_id_range(ops.drop_last(), k);
        } else {
            lemma_id_range(ops.drop_last(), 0);
        }
    }
}

/// Whether the entry is a MOVE entry that the batch `ops` for `bucket`
/// added.
pub open spec fn move_of_batch(e: EntryModel, bucket: Seq<char>, ops: Seq<OperationModel>) -> bool {
    e.superseded && e.bucket == bucket && exists|k: int|
        0 <= k < ops.len() && (#[trigger] ops[k]).op_id == e.op_id
}

/// In a log that held no MOVE entry before a batch, every MOVE entry is one
/// that the batch added.
pub proof fn lemma_apply_ops_moves(s: StoreModel, bucket: Seq<char>, ops: Seq<OperationModel>)
    requires
        no_moves(s.oplog),
    ensures
        forall|i: int|
            0 <= i < apply_ops(s, bucket, ops).oplog.len() && (#[trigger] apply_ops(
                s,
                bucket,
                ops,
            ).oplog[i]).kind == EntryKind::Move ==> move_of_batch(
                apply_ops(s, bucket, ops).oplog[i],
                bucket,
                ops,
            ),
    decreases ops.len(),
{
    if ops.len() > 0 {
        let front = ops.drop_last();
        let op = ops.last();
        let prev = apply_ops(s, bucket, front);
        let t = apply_ops(s, bucket, ops);
        lemma_apply_ops_moves(s, bucket, front);
        assert forall|i: int|
            0 <= i < t.oplog.len() && (#[trigger] t.oplog[i]).kind
                == EntryKind::Move implies move_of_batch(t.oplog[i], bucket, ops) by {
            if i < prev.oplog.len() && op.op != OpKind::Other {
                assert(prev.oplog[i].kind == EntryKind::Move);
                assert(t.oplog[i] == prev.oplog[i]);
            }
            if i < prev.oplog.len() {
                assert(move_of_batch(prev.oplog[i], bucket, front));
                let k = choose|k: int|
                    0 <= k < front.len() && (#[trigger] front[k]).op_id == prev.oplog[i].op_id;
                assert(ops[k].op_id == t.oplog[i].op_id);
            } else {
                assert(ops[ops.len() - 1].op_id == t.oplog[i].op_id);
            }
        }
    }
}

/// The operations of a batch touch neither the user tables nor the queue
/// of local writes nor the time of the last apply.
pub proof fn lemma_apply_ops_frame(s: StoreModel, bucket: Seq<char>, ops: Seq<OperationModel>)
    ensures
        apply_ops(s, bucket, ops).tables == s.tables,
        apply_ops(s, bucket, ops).untyped == s.untyped,
        apply_ops(s, bucket, ops).crud == s.crud,
        apply_ops(s, bucket, ops).last_synced_at == s.last_synced_at,
    decreases ops.len(),
{
    if ops.len() > 0 {
        lemma_apply_ops_frame(s, bucket, ops.drop_last());
    }
}

/// Ingestion of a batch touches neither the user tables nor the queue of
/// local writes nor the time of the last apply.
pub proof fn lemma_ingest_frame(s: StoreModel, bucket: Seq<char>, ops: Seq<OperationModel>)
    ensures
        ingest(s, bucket, ops).tables == s.tables,
        ingest(s, bucket, ops).untyped == s.untyped,
        ingest(s, bucket, ops).crud == s.crud,
        ingest(s, bucket, ops).last_synced_at == s.last_synced_at,
{
    let named = StoreModel { buckets: ensure_bucket(s.buckets, bucket), ..s };
    lemma_apply_ops_frame(named, bucket, ops);
}

/// Recording the bucket of a batch keeps the store coherent.
pub proof fn lemma_ensure_bucket_coherent(s: StoreModel, bucket: Seq<char>)
    requires
        coherent(s),
    ensures
        coherent(StoreModel { buckets: ensure_bucket(s.buckets, bucket), ..s }),
        has_bucket(ensure_bucket(s.buckets, bucket), bucket),
{
    let named = StoreModel { buckets: ensure_bucket(s.buckets, bucket), ..s };
    assert(has_bucket(named.buckets, bucket)) by {
        if !has_bucket(s.buckets, bucket) {
            assert(named.buckets[s.buckets.len() as int].name == bucket);
        }
    }
    assert(entries_owned(named.buckets, named.oplog)) by {
        assert forall|i: int| 0 <= i < s.oplog.len() implies has_bucket(
            named.buckets,
            (#[trigger] s.oplog[i]).bucket,
        ) by {
            let k = choose|k: int|
                0 <= k < s.buckets.len() && (#[trigger] s.buckets[k]).name == s.oplog[i].bucket;
            assert(named.buckets[k].name == s.oplog[i].bucket);
        }
    }
    assert(distinct_buckets(named.buckets));
}

/// Ingestion of a batch keeps the store well-formed.
pub proof fn lemma_ingest_well_formed(s: StoreModel, bucket: Seq<char>, ops: Seq<OperationModel>)
    requires
        well_formed(s),
    ensures
        well_formed(ingest(s, bucket, ops)),
        has_bucket(ingest(s, bucket, ops).buckets, bucket),
{
    let named = StoreModel { buckets: ensure_bucket(s.buckets, bucket), ..s };
    lemma_ensure_bucket_coherent(s, bucket);
    lemma_ingest_frame(s, bucket, ops);
    lemma_apply_ops_coherent(named, bucket, ops);
    lemma_apply_ops_moves(named, bucket, ops);
    let applied = apply_ops(named, bucket, ops);
    if ops.len() > 0 {
        let first = min_op_id(ops);
        let last = max_op_id(ops);
        let marked = StoreModel { buckets: set_last_op(applied.buckets, bucket, last), ..applied };
        let t = compact(marked, bucket, first, last);
        lemma_same_names(applied.buckets, t.buckets, applied.oplog);
        lemma_filtered_log(applied.buckets, applied.oplog, retained(bucket, first, last));
        lemma_same_names(applied.buckets, t.buckets, t.oplog);
        assert forall|i: int| 0 <= i < t.oplog.len() implies (#[trigger] t.oplog[i]).kind
            != EntryKind::Move by {
            let a = lemma_filter_source(applied.oplog, retained(bucket, first, last), i);
            if applied.oplog[a].kind == EntryKind::Move {
                assert(move_of_batch(applied.oplog[a], bucket, ops));
                let k = choose|k: int|
                    0 <= k < ops.len() && (#[trigger] ops[k]).op_id == applied.oplog[a].op_id;
                lemma_id_range(ops, k);
                assert(compactable(applied.oplog[a], bucket, first, last));
            }
        }
    } else {
        assert(applied == named);
    }
}

/// Ingestion of the packets of a batch keeps the store well-formed.
pub proof fn lemma_ingest_all_well_formed(s: StoreModel, packets: Seq<PacketModel>)
    requires
        well_formed(s),
    ensures
        well_formed(ingest_all(s, packets)),
    decreases packets.len(),
{
    if packets.len() > 0 {
        lemma_ingest_all_well_formed(s, packets.drop_last());
        lemma_ingest_well_formed(
            ingest_all(s, packets.drop_last()),
            packets.last().bucket,
            packets.last().operations,
        );
    }
}

/// Deletion of the drained buckets keeps the store well-formed, and leaves
/// no drained bucket behind.
pub proof fn lemma_reap_well_formed(s: StoreModel)
    requires
        well_formed(s),
    ensures
        well_formed(reap(s)),
        forall|i: int| 0 <= i < reap(s).buckets.len() ==> !reapable(#[trigger] reap(s).buckets[i]),
{
    let t = reap(s);
    lemma_filtered_log(s.buckets, s.oplog, outside_reaped(s.buckets));
    assert forall|i: int, j: int| 0 <= i < j < t.buckets.len() implies (#[trigger] t.buckets[i]).name
        != (#[trigger] t.buckets[j]).name by {
        let (a, b) = lemma_filter_sources(s.buckets, surviving(), i, j);
        assert(s.buckets[a].name != s.buckets[b].name);
    }
    assert forall|i: int| 0 <= i < t.buckets.len() implies !reapable(#[trigger] t.buckets[i]) by {
        let a = lemma_filter_source(s.buckets, surviving(), i);
    }
    assert forall|i: int| 0 <= i < t.oplog.len() implies has_bucket(
        t.buckets,
        (#[trigger] t.oplog[i]).bucket,
    ) by {
        let a = lemma_filter_source(s.oplog, outside_reaped(s.buckets), i);
        let name = s.oplog[a].bucket;
        assert(has_bucket(s.buckets, name));
        let k = choose|k: int| 0 <= k < s.buckets.len() && (#[trigger] s.buckets[k]).name == name;
        assert(!reaped_name(s.buckets, name));
        assert(!reapable(s.buckets[k]));
        let m = lemma_filter_keeps(s.buckets, surviving(), k);
        assert(t.buckets[m].name == name);
    }
}

/// Garbage collection of one bucket keeps the store well-formed.
pub proof fn lemma_collect_bucket_well_formed(s: StoreModel, bucket: Seq<char>, upto: i64)
    requires
        well_formed(s),
    ensures
        well_formed(collect_bucket(s, bucket, upto)),
        same_names(s.buckets, collect_bucket(s, bucket, upto).buckets),
{
    let t = collect_bucket(s, bucket, upto);
    lemma_filtered_log(s.buckets, s.oplog, uncollected(bucket, upto));
    lemma_same_names(s.buckets, t.buckets, t.oplog);
}

/// Garbage collection of the first `n` buckets keeps the store well-formed.
pub proof fn lemma_collect_buckets_well_formed(s: StoreModel, n: int)
    requires
        well_formed(s),
    ensures
        well_formed(collect_buckets(s, n)),
        same_names(s.buckets, collect_buckets(s, n).buckets),
    decreases n,
{
    if n > 0 {
        lemma_collect_buckets_well_formed(s, n - 1);
        let prev = collect_buckets(s, n - 1);
        let b = prev.buckets[n - 1];
        if !b.pending_delete {
            lemma_collect_bucket_well_formed(prev, b.name, b.last_applied_op);
        }
    }
}

/// Deletion of a bucket under a sentinel name that no other bucket has
/// keeps the store well-formed.
pub proof fn lemma_retire_well_formed(s: StoreModel, name: Seq<char>, sentinel: Seq<char>)
    requires
        well_formed(s),
        !sentinel_taken(s, name, sentinel),
    ensures
        well_formed(retire(s, name, sentinel)),
{
    let t = retire(s, name, sentinel);
    let left = s.buckets.filter(named_otherwise(name));
    assert forall|i: int| 0 <= i < s.oplog.len() && name != sentinel implies (
    #[trigger] s.oplog[i]).bucket != sentinel by {
        if s.oplog[i].bucket == sentinel {
            let k = choose|k: int|
                0 <= k < s.buckets.len() && (#[trigger] s.buckets[k]).name == s.oplog[i].bucket;
            assert(s.buckets[k].name == sentinel && s.buckets[k].name != name);
        }
    }
    assert forall|i: int, j: int| 0 <= i < j < t.oplog.len() implies !rivals(
        #[trigger] t.oplog[i],
        #[trigger] t.oplog[j],
    ) by {
        assert(!rivals(s.oplog[i], s.oplog[j]));
        assert(s.oplog[i].bucket != sentinel || name == sentinel);
        assert(s.oplog[j].bucket != sentinel || name == sentinel);
    }
    assert forall|i: int| 0 <= i < left.len() implies (#[trigger] left[i]).name != sentinel
        && left[i].name != name by {
        let a = lemma_filter_source(s.buckets, named_otherwise(name), i);
        assert(s.buckets[a].name != name);
    }
    assert forall|i: int, j: int| 0 <= i < j < t.buckets.len() implies (#[trigger] t.buckets[i]).name
        != (#[trigger] t.buckets[j]).name by {
        if j < left.len() {
            let (a, b) = lemma_filter_sources(s.buckets, named_otherwise(name), i, j);
            assert(s.buckets[a].name != s.buckets[b].name);
        } else {
            assert(t.buckets[i] == left[i]);
        }
    }
    assert forall|i: int| 0 <= i < t.oplog.len() implies has_bucket(
        t.buckets,
        (#[trigger] t.oplog[i]).bucket,
    ) by {
        if s.oplog[i].bucket == name {
            assert(t.buckets[left.len() as int].name == sentinel);
        } else {
            let k = choose|k: int|
                0 <= k < s.buckets.len() && (#[trigger] s.buckets[k]).name == s.oplog[i].bucket;
            let m = lemma_filter_keeps(s.buckets, named_otherwise(name), k);
            assert(t.buckets[m].name == s.oplog[i].bucket);
        }
    }
    assert forall|i: int| 0 <= i < t.oplog.len() implies (#[trigger] t.oplog[i]).kind
        != EntryKind::Move by {
        assert(s.oplog[i].kind != EntryKind::Move);
    }
}

/// Settling rows changes neither the bucket records nor the log.
pub proof fn lemma_settle_rows_frame(s: StoreModel, n: int)
    ensures
        settle_rows(s, n).buckets == s.buckets,
        settle_rows(s, n).oplog == s.oplog,
        settle_rows(s, n).crud == s.crud,
    decreases n,
{
    if n > 0 {
        lemma_settle_rows_frame(s, n - 1);
    }
}

/// The rows of a table without one id, and with a row of that id added,
/// have distinct ids as the rows before.
pub proof fn lemma_rows_replaced(rows: Seq<RowModel>, id: Seq<char>, data: Seq<char>)
    requires
        distinct_rows(rows),
    ensures
        distinct_rows(rows.filter(other_rows(id))),
        distinct_rows(rows.filter(other_rows(id)).push(RowModel { id, data })),
{
    let kept = rows.filter(other_rows(id));
    assert forall|i: int, j: int| 0 <= i < j < kept.len() implies (#[trigger] kept[i]).id != (
    #[trigger] kept[j]).id by {
        let (a, b) = lemma_filter_sources(rows, other_rows(id), i, j);
        assert(rows[a].id != rows[b].id);
    }
    let more = kept.push(RowModel { id, data });
    assert forall|i: int, j: int| 0 <= i < j < more.len() implies (#[trigger] more[i]).id != (
    #[trigger] more[j]).id by {
        if j < kept.len() {
            assert(kept[i].id != kept[j].id);
        } else {
            let a = lemma_filter_source(rows, other_rows(id), i);
        }
    }
}

/// The rows of the generic table without one row, and with that row added,
/// are distinct as the rows before.
pub proof fn lemma_untyped_replaced(
    rows: Seq<UntypedRowModel>,
    row_type: Seq<char>,
    id: Seq<char>,
    data: Seq<char>,
)
    requires
        distinct_untyped(rows),
    ensures
        distinct_untyped(rows.filter(other_untyped(row_type, id))),
        distinct_untyped(
            rows.filter(other_untyped(row_type, id)).push(UntypedRowModel { row_type, id, data }),
        ),
{
    let keep = other_untyped(row_type, id);
    let kept = rows.filter(keep);
    assert forall|i: int, j: int| 0 <= i < j < kept.len() implies !same_untyped(
        #[trigger] kept[i],
        #[trigger] kept[j],
    ) by {
        let (a, b) = lemma_filter_sources(rows, keep, i, j);
        assert(!same_untyped(rows[a], rows[b]));
    }
    let more = kept.push(UntypedRowModel { row_type, id, data });
    assert forall|i: int, j: int| 0 <= i < j < more.len() implies !same_untyped(
        #[trigger] more[i],
        #[trigger] more[j],
    ) by {
        if j < kept.len() {
            assert(!same_untyped(kept[i], kept[j]));
        } else {
            let a = lemma_filter_source(rows, keep, i);
        }
    }
}

/// Setting or deleting a row keeps the keys of the user tables.
pub proof fn lemma_write_row_keyed(s: StoreModel, row_type: Seq<char>, id: Seq<char>, data: Seq<char>)
    requires
        rows_keyed(s),
    ensures
        rows_keyed(upsert_row(s, row_type, id, data)),
        rows_keyed(delete_row(s, row_type, id)),
{
    let set = upsert_row(s, row_type, id, data);
    let gone = delete_row(s, row_type, id);
    if has_table(s.tables, table_name(row_type)) {
        assert forall|i: int| 0 <= i < s.tables.len() implies distinct_rows(
            (#[trigger] set.tables[i]).rows,
        ) && distinct_rows(gone.tables[i].rows) by {
            assert(distinct_rows(s.tables[i].rows));
            lemma_rows_replaced(s.tables[i].rows, id, data);
        }
        assert forall|i: int, j: int| 0 <= i < j < s.tables.len() implies (
        #[trigger] set.tables[i]).name != (#[trigger] set.tables[j]).name by {
            assert(s.tables[i].name != s.tables[j].name);
        }
        assert forall|i: int, j: int| 0 <= i < j < s.tables.len() implies (
        #[trigger] gone.tables[i]).name != (#[trigger] gone.tables[j]).name by {
            assert(s.tables[i].name != s.tables[j].name);
        }
        assert forall|i: int| 0 <= i < gone.tables.len() implies distinct_rows(
            (#[trigger] gone.tables[i]).rows,
        ) by {
            assert(distinct_rows(set.tables[i].rows));
        }
    } else {
        lemma_untyped_replaced(s.untyped, row_type, id, data);
    }
}

/// Settling rows keeps the keys of the user tables.
pub proof fn lemma_settle_rows_keyed(s: StoreModel, n: int)
    requires
        rows_keyed(s),
    ensures
        rows_keyed(settle_rows(s, n)),
    decreases n,
{
    if n > 0 {
        lemma_settle_rows_keyed(s, n - 1);
        let prev = settle_rows(s, n - 1);
        let e = s.oplog[n - 1];
        if calls_for_row(s, e) {
            let data = match newest_put(prev.oplog, e.row_type->0, e.row_id->0) {
                Some(put) => put.data->0,
                None => Seq::empty(),
            };
            lemma_write_row_keyed(prev, e.row_type->0, e.row_id->0, data);
        }
    }
}

/// A local apply keeps the store well-formed, and leaves every bucket
/// applied up to its `last_op`.
pub proof fn lemma_materialize_well_formed(s: StoreModel, timestamp: Seq<char>)
    requires
        well_formed(s),
    ensures
        well_formed(materialize(s, timestamp)),
        forall|i: int|
            0 <= i < materialize(s, timestamp).buckets.len() ==> (#[trigger] materialize(
                s,
                timestamp,
            ).buckets[i]).last_applied_op == materialize(s, timestamp).buckets[i].last_op,
{
    let t = materialize(s, timestamp);
    lemma_settle_rows_frame(s, s.oplog.len() as int);
    lemma_settle_rows_keyed(s, s.oplog.len() as int);
    lemma_same_names(s.buckets, t.buckets, s.oplog);
}

} // verus!
