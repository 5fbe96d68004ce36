//! Ingestion of operation batches into the log, and the life cycle of
//! buckets.
use vstd::prelude::*;
use vstd::string::StringExecFns;
use crate::checksum::{checksum_add, lemma_wrap32_absorb, lemma_wrap32_fits, wrap32};
use crate::decode::{decode_batch, decode_envelope, decoded_batch, decoded_envelope};
use crate::error::{SyncError, CONSTRAINT};
use crate::invariants::{
    lemma_collect_buckets_well_formed, lemma_ingest_well_formed, lemma_reap_well_formed,
    lemma_retire_well_formed,
};
use crate::json::{is_json, json_parse};
use crate::model::{
    absorb, absorb_of, apply_op, apply_ops, clear_entries, clear_entry, collect_all, collect_bucket,
    collect_buckets, collected, compact, compacted, composed_key, ensure_bucket, fresh_bucket,
    greatest_id, has_bucket, hash_total, ingest, ingest_all, last_op_of, max_op_id, min_op_id,
    move_entry, named_otherwise, outside_reaped, raise_target, raise_target_of, reap, reapable,
    reaped_name, reset_bucket, reset_of, retained, retire, retire_entries, retire_entry, row_entry,
    sentinel_bucket, sentinel_name, sentinel_taken, set_last_op, supersede, supersede_entry,
    surviving, uncollected, BucketModel, EntryKind, EntryModel, OperationModel, OpKind, PacketModel,
};
use crate::seq_facts::{lemma_filter_next, lemma_filter_none};
use crate::store::{
    buckets_view, copy_bucket, copy_entry, copy_text, entries_view, operations_view, packets_view,
    same_text, text_view, Bucket, BucketPacket, Operation, OplogEntry, Store,
};

verus! {

/// A change to the record of one bucket.
enum Change {
    RaiseTarget(i64),
    Reset(i32),
    LastOp(i64),
    Absorb(i32),
}

/// What `change` makes of the records where it is meant for `name`.
spec fn changed(buckets: Seq<BucketModel>, name: Seq<char>, change: Change) -> Seq<BucketModel> {
    match change {
        Change::RaiseTarget(target) => raise_target(buckets, name, target),
        Change::Reset(checksum) => reset_bucket(buckets, name, checksum),
        Change::LastOp(last) => set_last_op(buckets, name, last),
        Change::Absorb(weight) => absorb(buckets, name, weight),
    }
}

/// What `change` makes of one record.
spec fn changed_of(b: BucketModel, name: Seq<char>, change: Change) -> BucketModel {
    match change {
        Change::RaiseTarget(target) => raise_target_of(b, name, target),
        Change::Reset(checksum) => reset_of(b, name, checksum),
        Change::LastOp(last) => last_op_of(b, name, last),
        Change::Absorb(weight) => absorb_of(b, name, weight),
    }
}

/// Changes the record of the bucket `name`.
fn change_bucket(buckets: &mut Vec<Bucket>, name: &String, change: Change)
    ensures
        buckets_view(final(buckets)@) == changed(buckets_view(old(buckets)@), name@, change),
{
    let mut i: usize = 0;
    while i < buckets.len()
        invariant
            buckets@.len() == old(buckets)@.len(),
            0 <= i <= buckets@.len(),
            forall|j: int|
                0 <= j < i ==> (#[trigger] buckets@[j])@ == changed_of(
                    old(buckets)@[j]@,
                    name@,
                    change,
                ),
            forall|j: int| i <= j < buckets@.len() ==> buckets@[j] == old(buckets)@[j],
        decreases buckets@.len() - i,
    {
        if buckets[i].name == *name {
            match change {
                Change::RaiseTarget(target) => {
                    if target > buckets[i].target_op {
                        buckets[i].target_op = target;
                    }
                },
                Change::Reset(checksum) => {
                    buckets[i].last_applied_op = 0;
                    buckets[i].add_checksum = checksum;
                },
                Change::LastOp(last) => {
                    buckets[i].last_op = last;
                },
                Change::Absorb(weight) => {
                    buckets[i].add_checksum = checksum_add(buckets[i].add_checksum, weight);
                },
            }
        }
        i += 1;
    }
    assert(buckets_view(buckets@) =~= changed(buckets_view(old(buckets)@), name@, change));
}

/// Records the bucket `name` unless it is recorded.
fn ensure_bucket_record(buckets: &mut Vec<Bucket>, name: &String)
    ensures
        buckets_view(final(buckets)@) == ensure_bucket(buckets_view(old(buckets)@), name@),
{
    let mut i: usize = 0;
    let mut found = false;
    while i < buckets.len()
        invariant
            buckets@ == old(buckets)@,
            0 <= i <= buckets@.len(),
            found == exists|j: int| 0 <= j < i && (#[trigger] buckets@[j]).name@ == name@,
        decreases buckets@.len() - i,
    {
        if buckets[i].name == *name {
            found = true;
        }
        i += 1;
    }
    proof {
        let models = buckets_view(old(buckets)@);
        if found {
            let j = choose|j: int| 0 <= j < i && (#[trigger] buckets@[j]).name@ == name@;
            assert(models[j].name == name@);
        }
        if has_bucket(models, name@) {
            let j = choose|j: int| 0 <= j < models.len() && (#[trigger] models[j]).name == name@;
            assert(buckets@[j].name@ == name@);
        }
    }
    if !found {
        buckets.push(
            Bucket {
                name: name.clone(),
                last_op: 0,
                last_applied_op: 0,
                target_op: 0,
                add_checksum: 0,
                pending_delete: false,
            },
        );
        assert(buckets_view(buckets@) =~= buckets_view(old(buckets)@).push(fresh_bucket(name@)));
    }
}

/// Makes the live entry of `bucket` under `key` inert.
fn supersede_entries(oplog: &mut Vec<OplogEntry>, bucket: &String, key: &String)
    ensures
        entries_view(final(oplog)@) == supersede(entries_view(old(oplog)@), bucket@, key@),
{
    let mut i: usize = 0;
    while i < oplog.len()
        invariant
            oplog@.len() == old(oplog)@.len(),
            0 <= i <= oplog@.len(),
            forall|j: int|
                0 <= j < i ==> (#[trigger] oplog@[j])@ == supersede_entry(
                    old(oplog)@[j]@,
                    bucket@,
                    key@,
                ),
            forall|j: int| i <= j < oplog@.len() ==> oplog@[j] == old(oplog)@[j],
        decreases oplog@.len() - i,
    {
        if !oplog[i].superseded && oplog[i].bucket == *bucket && same_text(&oplog[i].key, key) {
            oplog[i].superseded = true;
            oplog[i].kind = EntryKind::Remove;
            oplog[i].data = None;
        }
        i += 1;
    }
    assert(entries_view(oplog@) =~= supersede(entries_view(old(oplog)@), bucket@, key@));
}

/// Rewrites the PUT and REMOVE entries of `bucket` to bare REMOVE entries.
fn clear_bucket_entries(oplog: &mut Vec<OplogEntry>, bucket: &String)
    ensures
        entries_view(final(oplog)@) == clear_entries(entries_view(old(oplog)@), bucket@),
{
    let mut i: usize = 0;
    while i < oplog.len()
        invariant
            oplog@.len() == old(oplog)@.len(),
            0 <= i <= oplog@.len(),
            forall|j: int|
                0 <= j < i ==> (#[trigger] oplog@[j])@ == clear_entry(old(oplog)@[j]@, bucket@),
            forall|j: int| i <= j < oplog@.len() ==> oplog@[j] == old(oplog)@[j],
        decreases oplog@.len() - i,
    {
        if oplog[i].bucket == *bucket && oplog[i].kind != EntryKind::Move {
            oplog[i].kind = EntryKind::Remove;
            oplog[i].data = None;
            oplog[i].hash = 0;
        }
        i += 1;
    }
    assert(entries_view(oplog@) =~= clear_entries(entries_view(old(oplog)@), bucket@));
}

/// The key of the row that a PUT or REMOVE speaks of.
pub fn compose_key(op: &Operation) -> (key: Option<String>)
    ensures
        text_view(key) == composed_key(op@),
{
    match (&op.object_type, &op.object_id) {
        (Some(object_type), Some(object_id)) => {
            let mut key = object_type.clone();
            key.append("/");
            key.append(object_id.as_str());
            key.append("/");
            match &op.subkey {
                Some(subkey) => key.append(subkey.as_str()),
                None => key.append("null"),
            }
            Some(key)
        },
        _ => None,
    }
}

/// Applies one operation of a batch for `bucket`.
fn apply_operation(store: &mut Store, bucket: &String, op: &Operation)
    ensures
        final(store)@ == apply_op(old(store)@, bucket@, op@),
{
    match op.op {
        OpKind::Put | OpKind::Remove => {
            let key = compose_key(op);
            match &key {
                Some(k) => supersede_entries(&mut store.oplog, bucket, k),
                None => {},
            }
            let keyed = op.object_type.is_some() && op.object_id.is_some();
            let is_put = op.op == OpKind::Put;
            let entry = OplogEntry {
                bucket: bucket.clone(),
                op_id: op.op_id,
                kind: if is_put {
                    EntryKind::Put
                } else {
                    EntryKind::Remove
                },
                key,
                row_type: if keyed {
                    copy_text(&op.object_type)
                } else {
                    None
                },
                row_id: if keyed {
                    copy_text(&op.object_id)
                } else {
                    None
                },
                data: if is_put {
                    copy_text(&op.data)
                } else {
                    None
                },
                hash: op.checksum,
                superseded: false,
            };
            assert(entry@ == row_entry(bucket@, op@));
            store.oplog.push(entry);
            assert(store@.oplog =~= apply_op(old(store)@, bucket@, op@).oplog);
        },
        OpKind::Move => {
            let entry = OplogEntry {
                bucket: bucket.clone(),
                op_id: op.op_id,
                kind: EntryKind::Move,
                key: None,
                row_type: None,
                row_id: None,
                data: None,
                hash: op.checksum,
                superseded: true,
            };
            assert(entry@ == move_entry(bucket@, op@));
            store.oplog.push(entry);
            match op.target {
                Some(target) => change_bucket(&mut store.buckets, bucket, Change::RaiseTarget(target)),
                None => {},
            }
            assert(store@.oplog =~= apply_op(old(store)@, bucket@, op@).oplog);
        },
        OpKind::Clear => {
            clear_bucket_entries(&mut store.oplog, bucket);
            change_bucket(&mut store.buckets, bucket, Change::Reset(op.checksum));
        },
        OpKind::Other => {},
    }
}

/// Removes the inert entries of `bucket` with an id in `first..=last` from
/// the log and moves their weight into the bucket's `add_checksum`.
fn compact_bucket(store: &mut Store, bucket: &String, first: i64, last: i64)
    ensures
        final(store)@ == compact(old(store)@, bucket@, first, last),
{
    let ghost log = entries_view(store.oplog@);
    let mut kept: Vec<OplogEntry> = Vec::new();
    let mut weight: i32 = 0;
    let mut i: usize = 0;
    proof {
        lemma_wrap32_fits(0);
        assert(log.take(0) =~= Seq::<EntryModel>::empty());
        lemma_filter_none(log, retained(bucket@, first, last));
    }
    while i < store.oplog.len()
        invariant
            *store == *old(store),
            log == entries_view(store.oplog@),
            0 <= i <= store.oplog@.len(),
            entries_view(kept@) == log.take(i as int).filter(retained(bucket@, first, last)),
            weight == wrap32(hash_total(log.take(i as int), compacted(bucket@, first, last))),
        decreases store.oplog@.len() - i,
    {
        let e = &store.oplog[i];
        proof {
            let next = log.take(i + 1);
            assert(next.drop_last() =~= log.take(i as int));
            assert(next.last() == e@);
            lemma_filter_next(log, retained(bucket@, first, last), i as int);
            lemma_wrap32_absorb(
                hash_total(log.take(i as int), compacted(bucket@, first, last)),
                e.hash as int,
            );
        }
        if e.superseded && e.bucket == *bucket && first <= e.op_id && e.op_id <= last {
            weight = checksum_add(weight, e.hash);
        } else {
            let ghost before = entries_view(kept@);
            kept.push(copy_entry(e));
            assert(entries_view(kept@) =~= before.push(e@));
        }
        i += 1;
    }
    assert(log.take(i as int) =~= log);
    store.oplog = kept;
    change_bucket(&mut store.buckets, bucket, Change::Absorb(weight));
}

/// The least and the greatest operation id of a batch that is not empty.
fn id_range(ops: &Vec<Operation>) -> (r: (i64, i64))
    requires
        ops@.len() > 0,
    ensures
        r.0 == min_op_id(operations_view(ops@)),
        r.1 == max_op_id(operations_view(ops@)),
{
    let ghost models = operations_view(ops@);
    let mut first: i64 = ops[0].op_id;
    let mut last: i64 = ops[0].op_id;
    let mut i: usize = 1;
    assert(models.take(1).last() == models[0]);
    while i < ops.len()
        invariant
            models == operations_view(ops@),
            1 <= i <= ops@.len(),
            first == min_op_id(models.take(i as int)),
            last == max_op_id(models.take(i as int)),
        decreases ops@.len() - i,
    {
        proof {
            let next = models.take(i + 1);
            assert(next.drop_last() =~= models.take(i as int));
            assert(next.last() == ops@[i as int]@);
        }
        let id: i64 = ops[i].op_id;
        if id < first {
            first = id;
        }
        if id > last {
            last = id;
        }
        i += 1;
    }
    assert(models.take(i as int) =~= models);
    (first, last)
}

/// Ingests one batch of decoded operations for `bucket`: records the bucket,
/// applies the operations in their order, and where there was any sets the
/// bucket's `last_op` to the greatest id seen and compacts the log over the
/// ids seen.
pub fn ingest_operations(store: &mut Store, bucket: &str, ops: &Vec<Operation>)
    requires
        old(store).wf(),
    ensures
        final(store)@ == ingest(old(store)@, bucket@, operations_view(ops@)),
        final(store).wf(),
{
    proof {
        lemma_ingest_well_formed(old(store)@, bucket@, operations_view(ops@));
    }
    let name = bucket.to_owned();
    let ghost models = operations_view(ops@);
    ensure_bucket_record(&mut store.buckets, &name);
    let ghost named = store@;
    let mut i: usize = 0;
    assert(models.take(0) =~= Seq::<OperationModel>::empty());
    while i < ops.len()
        invariant
            models == operations_view(ops@),
            name@ == bucket@,
            0 <= i <= ops@.len(),
            store@ == apply_ops(named, bucket@, models.take(i as int)),
        decreases ops@.len() - i,
    {
        proof {
            let next = models.take(i + 1);
            assert(next.drop_last() =~= models.take(i as int));
            assert(next.last() == ops@[i as int]@);
        }
        apply_operation(store, &name, &ops[i]);
        i += 1;
    }
    assert(models.take(i as int) =~= models);
    if ops.len() > 0 {
        let (first, last) = id_range(ops);
        change_bucket(&mut store.buckets, &name, Change::LastOp(last));
        compact_bucket(store, &name, first, last);
    }
}

/// Ingests one batch for `bucket` from the text of a JSON array of
/// operations, as `ingest_operations` does once they are decoded. Where the
/// text is no such array, nothing changes and the input is reported as
/// malformed.
pub fn insert_bucket_operations(store: &mut Store, bucket: &str, data: &str) -> (r: Result<
    (),
    SyncError,
>)
    requires
        old(store).wf(),
    ensures
        final(store).wf(),
        match decoded_batch(data@) {
            Some(ops) => r is Ok && final(store)@ == ingest(old(store)@, bucket@, ops),
            None => r == Err::<(), SyncError>(SyncError::MalformedInput) && final(store)@
                == old(store)@,
        },
{
    match decode_batch(data) {
        Ok(ops) => {
            ingest_operations(store, bucket, &ops);
            Ok(())
        },
        Err(e) => Err(e),
    }
}

/// Ingests the packets of a batch, each for its bucket, in their order.
pub fn ingest_packets(store: &mut Store, packets: &Vec<BucketPacket>)
    requires
        old(store).wf(),
    ensures
        final(store)@ == ingest_all(old(store)@, packets_view(packets@)),
        final(store).wf(),
{
    let ghost models = packets_view(packets@);
    let mut i: usize = 0;
    assert(models.take(0) =~= Seq::<PacketModel>::empty());
    while i < packets.len()
        invariant
            models == packets_view(packets@),
            0 <= i <= packets@.len(),
            store.wf(),
            store@ == ingest_all(old(store)@, models.take(i as int)),
        decreases packets@.len() - i,
    {
        proof {
            let next = models.take(i + 1);
            assert(next.drop_last() =~= models.take(i as int));
            assert(next.last() == packets@[i as int]@);
        }
        ingest_operations(store, packets[i].bucket.as_str(), &packets[i].operations);
        i += 1;
    }
    assert(models.take(i as int) =~= models);
}

/// Ingests a batch envelope: a JSON object whose member `buckets` lists the
/// packets, each with the name of its bucket and its operations. Where the
/// text is no such envelope, nothing changes and the input is reported as
/// malformed.
pub fn insert_operation(store: &mut Store, data: &str) -> (r: Result<(), SyncError>)
    requires
        old(store).wf(),
    ensures
        final(store).wf(),
        match decoded_envelope(data@) {
            Some(packets) => r is Ok && final(store)@ == ingest_all(old(store)@, packets),
            None => r == Err::<(), SyncError>(SyncError::MalformedInput) && final(store)@
                == old(store)@,
        },
{
    match decode_envelope(data) {
        Ok(packets) => {
            ingest_packets(store, &packets);
            Ok(())
        },
        Err(e) => Err(e),
    }
}

/// Checks a line of the sync stream: it must be a well-formed JSON
/// document. Nothing is done with it.
pub fn stream_operation(data: &str) -> (r: Result<(), SyncError>)
    ensures
        r == if json_parse(data@) is Some {
            Ok::<(), SyncError>(())
        } else {
            Err::<(), SyncError>(SyncError::MalformedInput)
        },
{
    if is_json(data) {
        Ok(())
    } else {
        Err(SyncError::MalformedInput)
    }
}

/// Whether the record is that of a bucket that waits for deletion and is
/// drained.
fn is_reapable(b: &Bucket) -> (r: bool)
    ensures
        r == reapable(b@),
{
    b.pending_delete && b.last_applied_op == b.last_op && b.last_op >= b.target_op
}

/// Whether `name` is the name of a drained bucket.
fn is_reaped_name(buckets: &Vec<Bucket>, name: &String) -> (r: bool)
    ensures
        r == reaped_name(buckets_view(buckets@), name@),
{
    let ghost models = buckets_view(buckets@);
    let mut i: usize = 0;
    while i < buckets.len()
        invariant
            models == buckets_view(buckets@),
            0 <= i <= buckets@.len(),
            forall|j: int|
                0 <= j < i ==> !((#[trigger] models[j]).name == name@ && reapable(models[j])),
        decreases buckets@.len() - i,
    {
        if buckets[i].name == *name && is_reapable(&buckets[i]) {
            assert(models[i as int].name == name@ && reapable(models[i as int]));
            return true;
        }
        i += 1;
    }
    false
}

/// Removes every bucket that waits for deletion and is drained, together
/// with its log entries.
pub fn delete_pending_buckets(store: &mut Store) -> (r: Result<(), SyncError>)
    requires
        old(store).wf(),
    ensures
        r is Ok,
        final(store)@ == reap(old(store)@),
        final(store).wf(),
        forall|i: int|
            0 <= i < final(store)@.buckets.len() ==> !reapable(#[trigger] final(store)@.buckets[i]),
{
    proof {
        lemma_reap_well_formed(old(store)@);
    }
    let ghost log = entries_view(store.oplog@);
    let ghost records = buckets_view(store.buckets@);
    let mut kept: Vec<OplogEntry> = Vec::new();
    let mut i: usize = 0;
    proof {
        lemma_filter_none(log, outside_reaped(records));
    }
    while i < store.oplog.len()
        invariant
            *store == *old(store),
            log == entries_view(store.oplog@),
            records == buckets_view(store.buckets@),
            0 <= i <= store.oplog@.len(),
            entries_view(kept@) == log.take(i as int).filter(outside_reaped(records)),
        decreases store.oplog@.len() - i,
    {
        proof {
            lemma_filter_next(log, outside_reaped(records), i as int);
        }
        if !is_reaped_name(&store.buckets, &store.oplog[i].bucket) {
            let ghost before = entries_view(kept@);
            kept.push(copy_entry(&store.oplog[i]));
            assert(entries_view(kept@) =~= before.push(store.oplog@[i as int]@));
        }
        i += 1;
    }
    assert(log.take(i as int) =~= log);
    let mut left: Vec<Bucket> = Vec::new();
    let mut k: usize = 0;
    proof {
        lemma_filter_none(records, surviving());
    }
    while k < store.buckets.len()
        invariant
            *store == *old(store),
            records == buckets_view(store.buckets@),
            0 <= k <= store.buckets@.len(),
            buckets_view(left@) == records.take(k as int).filter(surviving()),
        decreases store.buckets@.len() - k,
    {
        proof {
            lemma_filter_next(records, surviving(), k as int);
        }
        if !is_reapable(&store.buckets[k]) {
            let ghost before = buckets_view(left@);
            left.push(copy_bucket(&store.buckets[k]));
            assert(buckets_view(left@) =~= before.push(store.buckets@[k as int]@));
        }
        k += 1;
    }
    assert(records.take(k as int) =~= records);
    store.oplog = kept;
    store.buckets = left;
    Ok(())
}

/// Collects the garbage of one bucket: the entries that are inert or no
/// PUT, with an id up to `upto`, leave the log and their weight moves into
/// the bucket's `add_checksum`.
fn collect_bucket_entries(store: &mut Store, bucket: &String, upto: i64)
    ensures
        final(store)@ == collect_bucket(old(store)@, bucket@, upto),
{
    let ghost log = entries_view(store.oplog@);
    let mut kept: Vec<OplogEntry> = Vec::new();
    let mut weight: i32 = 0;
    let mut i: usize = 0;
    proof {
        lemma_wrap32_fits(0);
        assert(log.take(0) =~= Seq::<EntryModel>::empty());
        lemma_filter_none(log, uncollected(bucket@, upto));
    }
    while i < store.oplog.len()
        invariant
            *store == *old(store),
            log == entries_view(store.oplog@),
            0 <= i <= store.oplog@.len(),
            entries_view(kept@) == log.take(i as int).filter(uncollected(bucket@, upto)),
            weight == wrap32(hash_total(log.take(i as int), collected(bucket@, upto))),
        decreases store.oplog@.len() - i,
    {
        let e = &store.oplog[i];
        proof {
            let next = log.take(i + 1);
            assert(next.drop_last() =~= log.take(i as int));
            assert(next.last() == e@);
            lemma_filter_next(log, uncollected(bucket@, upto), i as int);
            lemma_wrap32_absorb(
                hash_total(log.take(i as int), collected(bucket@, upto)),
                e.hash as int,
            );
        }
        if (e.superseded || e.kind != EntryKind::Put) && e.bucket == *bucket && e.op_id <= upto {
            weight = checksum_add(weight, e.hash);
        } else {
            let ghost before = entries_view(kept@);
            kept.push(copy_entry(e));
            assert(entries_view(kept@) =~= before.push(e@));
        }
        i += 1;
    }
    assert(log.take(i as int) =~= log);
    store.oplog = kept;
    change_bucket(&mut store.buckets, bucket, Change::Absorb(weight));
}

/// Collects the garbage of every bucket that does not wait for deletion:
/// the entries that are inert or no PUT and are applied already leave the
/// log, and their weight moves into the bucket's `add_checksum`.
pub fn clear_remove_ops(store: &mut Store) -> (r: Result<(), SyncError>)
    requires
        old(store).wf(),
    ensures
        r is Ok,
        final(store)@ == collect_all(old(store)@),
        final(store).wf(),
{
    proof {
        lemma_collect_buckets_well_formed(old(store)@, old(store)@.buckets.len() as int);
    }
    let ghost s = store@;
    let n = store.buckets.len();
    let mut i: usize = 0;
    while i < n
        invariant
            s == old(store)@,
            n == s.buckets.len(),
            store.buckets@.len() == n,
            0 <= i <= n,
            store@ == collect_buckets(s, i as int),
        decreases n - i,
    {
        if !store.buckets[i].pending_delete {
            let name = store.buckets[i].name.clone();
            let upto: i64 = store.buckets[i].last_applied_op;
            collect_bucket_entries(store, &name, upto);
            assert(store@.buckets.len() == store.buckets@.len());
        }
        i += 1;
    }
    Ok(())
}

/// Moves the entries of the bucket `name` to `sentinel`, turning the live
/// PUT entries among them into live REMOVE entries.
fn retire_bucket_entries(oplog: &mut Vec<OplogEntry>, name: &String, sentinel: &String)
    ensures
        entries_view(final(oplog)@) == retire_entries(entries_view(old(oplog)@), name@, sentinel@),
{
    let mut i: usize = 0;
    while i < oplog.len()
        invariant
            oplog@.len() == old(oplog)@.len(),
            0 <= i <= oplog@.len(),
            forall|j: int|
                0 <= j < i ==> (#[trigger] oplog@[j])@ == retire_entry(
                    old(oplog)@[j]@,
                    name@,
                    sentinel@,
                ),
            forall|j: int| i <= j < oplog@.len() ==> oplog@[j] == old(oplog)@[j],
        decreases oplog@.len() - i,
    {
        if oplog[i].bucket == *name {
            if oplog[i].kind == EntryKind::Put && !oplog[i].superseded {
                oplog[i].kind = EntryKind::Remove;
                oplog[i].data = None;
            }
            oplog[i].bucket = sentinel.clone();
        }
        i += 1;
    }
    assert(entries_view(oplog@) =~= retire_entries(entries_view(old(oplog)@), name@, sentinel@));
}

/// The greatest id among the entries of `bucket`.
fn find_greatest_id(oplog: &Vec<OplogEntry>, bucket: &String) -> (r: Option<i64>)
    ensures
        r == greatest_id(entries_view(oplog@), bucket@),
{
    let ghost log = entries_view(oplog@);
    let mut best: Option<i64> = None;
    let mut i: usize = 0;
    assert(log.take(0) =~= Seq::<EntryModel>::empty());
    while i < oplog.len()
        invariant
            log == entries_view(oplog@),
            0 <= i <= oplog@.len(),
            best == greatest_id(log.take(i as int), bucket@),
        decreases oplog@.len() - i,
    {
        proof {
            let next = log.take(i + 1);
            assert(next.drop_last() =~= log.take(i as int));
            assert(next.last() == log[i as int]);
        }
        if oplog[i].bucket == *bucket {
            let id: i64 = oplog[i].op_id;
            let greater = match best {
                Some(b) => id > b,
                None => true,
            };
            if greater {
                best = Some(id);
            }
        }
        i += 1;
    }
    assert(log.take(i as int) =~= log);
    best
}

/// Whether another bucket than `name` has the name `sentinel`.
fn is_sentinel_taken(buckets: &Vec<Bucket>, name: &String, sentinel: &String) -> (r: bool)
    ensures
        r == exists|i: int|
            0 <= i < buckets@.len() && (#[trigger] buckets_view(buckets@)[i]).name == sentinel@
                && buckets_view(buckets@)[i].name != name@,
{
    let ghost models = buckets_view(buckets@);
    let mut i: usize = 0;
    while i < buckets.len()
        invariant
            models == buckets_view(buckets@),
            0 <= i <= buckets@.len(),
            forall|j: int|
                0 <= j < i ==> !((#[trigger] models[j]).name == sentinel@ && models[j].name
                    != name@),
        decreases buckets@.len() - i,
    {
        if buckets[i].name == *sentinel && !(buckets[i].name == *name) {
            assert(models[i as int].name == sentinel@);
            return true;
        }
        i += 1;
    }
    false
}

/// Deletes the bucket `name` under the sentinel name `sentinel`.
///
/// The entries of the bucket move to the sentinel, the live PUT entries
/// among them as live REMOVE entries, so that the next local apply deletes
/// their rows. The record of `name` goes, and the sentinel is recorded as a
/// bucket that waits for deletion, with the greatest id among its entries
/// as `last_op`. Where another bucket already has the sentinel's name,
/// nothing changes and the result is the storage layer's constraint error.
pub fn delete_bucket_as(store: &mut Store, name: &str, sentinel: &str) -> (r: Result<
    (),
    SyncError,
>)
    requires
        old(store).wf(),
    ensures
        final(store).wf(),
        sentinel_taken(old(store)@, name@, sentinel@) ==> r == Err::<(), SyncError>(
            SyncError::StorageError { code: CONSTRAINT },
        ) && final(store)@ == old(store)@,
        !sentinel_taken(old(store)@, name@, sentinel@) ==> r is Ok && final(store)@ == retire(
            old(store)@,
            name@,
            sentinel@,
        ),
{
    let name = name.to_owned();
    let sentinel = sentinel.to_owned();
    if is_sentinel_taken(&store.buckets, &name, &sentinel) {
        return Err(SyncError::StorageError { code: CONSTRAINT });
    }
    proof {
        lemma_retire_well_formed(old(store)@, name@, sentinel@);
    }
    retire_bucket_entries(&mut store.oplog, &name, &sentinel);
    let ghost records = buckets_view(store.buckets@);
    let mut left: Vec<Bucket> = Vec::new();
    let mut k: usize = 0;
    proof {
        lemma_filter_none(records, named_otherwise(name@));
    }
    while k < store.buckets.len()
        invariant
            store.buckets == old(store).buckets,
            store.tables == old(store).tables,
            store.untyped == old(store).untyped,
            store.crud == old(store).crud,
            store.last_synced_at == old(store).last_synced_at,
            entries_view(store.oplog@) == retire_entries(
                entries_view(old(store).oplog@),
                name@,
                sentinel@,
            ),
            records == buckets_view(store.buckets@),
            0 <= k <= store.buckets@.len(),
            buckets_view(left@) == records.take(k as int).filter(named_otherwise(name@)),
        decreases store.buckets@.len() - k,
    {
        proof {
            lemma_filter_next(records, named_otherwise(name@), k as int);
        }
        if !(store.buckets[k].name == name) {
            let ghost before = buckets_view(left@);
            left.push(copy_bucket(&store.buckets[k]));
            assert(buckets_view(left@) =~= before.push(store.buckets@[k as int]@));
        }
        k += 1;
    }
    assert(records.take(k as int) =~= records);
    let last_op: i64 = match find_greatest_id(&store.oplog, &sentinel) {
        Some(id) => id,
        None => 0,
    };
    let ghost before = buckets_view(left@);
    left.push(
        Bucket {
            name: sentinel,
            last_op,
            last_applied_op: 0,
            target_op: 0,
            add_checksum: 0,
            pending_delete: true,
        },
    );
    assert(buckets_view(left@) =~= before.push(
        sentinel_bucket(entries_view(store.oplog@), sentinel@),
    ));
    store.buckets = left;
    Ok(())
}

/// `Uuid::new_v4`, written in the hyphenated form: a random identifier,
/// of which nothing is claimed but the length of its text.
#[verifier::external_body]
fn fresh_identifier() -> (id: String)
    ensures
        id@.len() == 36,
{
    uuid::Uuid::new_v4().hyphenated().to_string()
}

/// Deletes the bucket `name`: its entries move to a sentinel bucket with a
/// fresh name, as `delete_bucket_as` says, so that the name can be used
/// again at once.
pub fn delete_bucket(store: &mut Store, name: &str) -> (r: Result<(), SyncError>)
    requires
        old(store).wf(),
    ensures
        final(store).wf(),
        exists|id: Seq<char>|
            id.len() == 36 && {
                let sentinel = #[trigger] sentinel_name(name@, id);
                if sentinel_taken(old(store)@, name@, sentinel) {
                    r == Err::<(), SyncError>(SyncError::StorageError { code: CONSTRAINT })
                        && final(store)@ == old(store)@
                } else {
                    r is Ok && final(store)@ == retire(old(store)@, name@, sentinel)
                }
            },
{
    let id = fresh_identifier();
    let mut sentinel = "$delete_".to_owned();
    sentinel.append(name);
    sentinel.append("_");
    sentinel.append(id.as_str());
    assert(sentinel@ == sentinel_name(name@, id@));
    delete_bucket_as(store, name, sentinel.as_str())
}

} // verus!
