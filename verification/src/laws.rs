//! The laws of the engine: what holds of the store across the calls of its
//! entry points.
use vstd::prelude::*;
use crate::accounting::{
    lemma_absorbed_ensure, lemma_apply_ops_elsewhere, lemma_apply_ops_weight, lemma_find_has,
    lemma_find_pair, lemma_total_none, lemma_total_removed, lemma_total_same, lemma_total_split,
    lemma_total_zero, lemma_weight_follows_server,
};
use crate::checksum::{combine, lemma_wrap32_absorb, lemma_wrap32_fits, wrap32};
use crate::invariants::{
    lemma_apply_ops_coherent, lemma_collect_buckets_well_formed, lemma_ensure_bucket_coherent,
    lemma_ingest_well_formed, lemma_same_names, lemma_settle_rows_frame,
};
use crate::model::{
    absorb, absorbed, all_sent, apply_op, apply_ops, bucket_checksum, carried_moves, clear_entry,
    collect_all, collect_bucket, collect_buckets, collected, compact, compacted, empty_store,
    ensure_bucket, find_bucket, gross_weight, has_bucket, hash_total, in_bucket, inert_in, ingest,
    ingest_each, live_checksum, live_in, live_under, materialize, max_op_id, min_op_id, moves_in,
    named_otherwise, one_live_per_key, outside_reaped, reap, reapable, reaped_name, retained,
    retire, rivals, server_checksum, set_last_op, surviving, uncollected, well_formed, BucketModel,
    EntryKind, EntryModel, OperationModel, OpKind, StoreModel,
};
use crate::seq_facts::{
    lemma_filter_all, lemma_filter_empty, lemma_filter_keeps, lemma_filter_push,
    lemma_filter_source, lemma_filter_sources,
};

verus! {

/// A sweep of the log: the entries that `gone` selects, all of `bucket`,
/// leave the log, and their weight moves into the bucket's `add_checksum`.
/// It changes the checksum of no bucket.
pub proof fn lemma_sweep_keeps_checksums(
    s: StoreModel,
    t: StoreModel,
    bucket: Seq<char>,
    keep: spec_fn(EntryModel) -> bool,
    gone: spec_fn(EntryModel) -> bool,
    name: Seq<char>,
)
    requires
        has_bucket(s.buckets, bucket),
        forall|i: int|
            0 <= i < s.oplog.len() ==> gone(#[trigger] s.oplog[i]) == !keep(s.oplog[i]) && (gone(
                s.oplog[i],
            ) ==> s.oplog[i].bucket == bucket),
        t.oplog == s.oplog.filter(keep),
        t.buckets == absorb(s.buckets, bucket, wrap32(hash_total(s.oplog, gone))),
    ensures
        bucket_checksum(t, name) == bucket_checksum(s, name),
{
    let i = lemma_find_pair(s.buckets, t.buckets, name);
    if name == bucket {
        lemma_find_has(s.buckets, bucket);
        lemma_total_removed(s.oplog, keep, in_bucket(bucket), gone);
        let a = absorbed(s.buckets, bucket);
        let h = hash_total(s.oplog, in_bucket(bucket));
        let x = hash_total(s.oplog, gone);
        assert(absorbed(t.buckets, bucket) == combine(a as i32, wrap32(x)));
        lemma_wrap32_absorb(a + wrap32(x), h - x);
        lemma_wrap32_absorb(x, a + h - x);
        assert(wrap32(x) + (a + h - x) == a + wrap32(x) + (h - x));
    } else {
        let never = |e: EntryModel| false;
        lemma_total_removed(s.oplog, keep, in_bucket(name), never);
        lemma_total_none(s.oplog, never);
    }
}

/// The checksum of a bucket across a batch. The checksum that the store
/// holds for the bucket of the batch, over `add_checksum` and all of its
/// entries, becomes the server's checksum after the batch, computed from the
/// one that the store held before, and the weight of the MOVE operations
/// that precede the last CLEAR of the batch.
pub proof fn lemma_ingest_checksum(s: StoreModel, bucket: Seq<char>, ops: Seq<OperationModel>)
    requires
        well_formed(s),
    ensures
        bucket_checksum(ingest(s, bucket, ops), bucket) == wrap32(
            server_checksum(bucket_checksum(s, bucket), ops) + carried_moves(ops),
        ),
{
    let named = StoreModel { buckets: ensure_bucket(s.buckets, bucket), ..s };
    lemma_ensure_bucket_coherent(s, bucket);
    lemma_absorbed_ensure(s.buckets, bucket, bucket);
    lemma_total_none(s.oplog, moves_in(bucket));
    lemma_apply_ops_weight(named, bucket, ops);
    lemma_apply_ops_coherent(named, bucket, ops);
    lemma_weight_follows_server(gross_weight(s, bucket), ops);
    let applied = apply_ops(named, bucket, ops);
    if ops.len() > 0 {
        let first = min_op_id(ops);
        let last = max_op_id(ops);
        let marked = StoreModel { buckets: set_last_op(applied.buckets, bucket, last), ..applied };
        let i = lemma_find_pair(applied.buckets, marked.buckets, bucket);
        lemma_same_names(applied.buckets, marked.buckets, applied.oplog);
        lemma_sweep_keeps_checksums(
            marked,
            compact(marked, bucket, first, last),
            bucket,
            retained(bucket, first, last),
            compacted(bucket, first, last),
            bucket,
        );
    }
}

/// The server's checksum after two rows of operations is the one after the
/// second, computed from the one after the first.
pub proof fn lemma_server_checksum_joined(
    before: i32,
    first: Seq<OperationModel>,
    second: Seq<OperationModel>,
)
    ensures
        server_checksum(before, first + second) == server_checksum(
            server_checksum(before, first),
            second,
        ),
    decreases second.len(),
{
    if second.len() == 0 {
        assert(first + second =~= first);
    } else {
        lemma_server_checksum_joined(before, first, second.drop_last());
        assert((first + second).drop_last() =~= first + second.drop_last());
        assert((first + second).last() == second.last());
    }
}

/// The checksum of a bucket at every point between batches. After any
/// row of batches, in none of which a MOVE with weight precedes the last
/// CLEAR, the store is well-formed and the checksum that it holds for the
/// bucket is the server's checksum after all that was sent, computed from
/// the one that the store held before.
pub proof fn lemma_checksum_follows_server(
    s: StoreModel,
    bucket: Seq<char>,
    batches: Seq<Seq<OperationModel>>,
)
    requires
        well_formed(s),
        forall|i: int| 0 <= i < batches.len() ==> wrap32(carried_moves(#[trigger] batches[i])) == 0,
    ensures
        well_formed(ingest_each(s, bucket, batches)),
        bucket_checksum(ingest_each(s, bucket, batches), bucket) == server_checksum(
            bucket_checksum(s, bucket),
            all_sent(batches),
        ),
    decreases batches.len(),
{
    if batches.len() > 0 {
        let front = batches.drop_last();
        let last = batches.last();
        assert forall|i: int| 0 <= i < front.len() implies wrap32(
            carried_moves(#[trigger] front[i]),
        ) == 0 by {
            assert(front[i] == batches[i]);
        }
        lemma_checksum_follows_server(s, bucket, front);
        let prev = ingest_each(s, bucket, front);
        lemma_ingest_well_formed(prev, bucket, last);
        lemma_ingest_checksum(prev, bucket, last);
        assert(wrap32(carried_moves(batches[batches.len() - 1])) == 0);
        let server = server_checksum(bucket_checksum(prev, bucket), last);
        lemma_wrap32_absorb(carried_moves(last), server as int);
        lemma_wrap32_fits(server as int);
        lemma_server_checksum_joined(bucket_checksum(s, bucket), all_sent(front), last);
    }
}

/// The checksum of a bucket that the store has seen from its beginning: it
/// is the server's checksum after all that was sent, computed from 0.
pub proof fn lemma_checksum_from_empty(bucket: Seq<char>, batches: Seq<Seq<OperationModel>>)
    requires
        forall|i: int| 0 <= i < batches.len() ==> wrap32(carried_moves(#[trigger] batches[i])) == 0,
    ensures
        bucket_checksum(ingest_each(empty_store(), bucket, batches), bucket) == server_checksum(
            0,
            all_sent(batches),
        ),
{
    lemma_wrap32_fits(0);
    lemma_checksum_follows_server(empty_store(), bucket, batches);
}

/// At most one entry is live for every bucket and key.
pub proof fn lemma_one_live_entry(s: StoreModel, bucket: Seq<char>, key: Seq<char>)
    requires
        well_formed(s),
    ensures
        s.oplog.filter(live_under(bucket, key)).len() <= 1,
{
    let found = s.oplog.filter(live_under(bucket, key));
    if found.len() > 1 {
        let (a, b) = lemma_filter_sources(s.oplog, live_under(bucket, key), 0, 1);
        let i = lemma_filter_source(s.oplog, live_under(bucket, key), 0);
        assert(live_under(bucket, key)(found[0]) && live_under(bucket, key)(found[1])) by {
            let j = lemma_filter_source(s.oplog, live_under(bucket, key), 1);
        }
        assert(rivals(s.oplog[a], s.oplog[b]));
    }
}

/// A batch for one bucket changes the checksum of no other bucket.
pub proof fn lemma_ingest_checksum_elsewhere(
    s: StoreModel,
    bucket: Seq<char>,
    ops: Seq<OperationModel>,
    other: Seq<char>,
)
    requires
        well_formed(s),
        other != bucket,
    ensures
        bucket_checksum(ingest(s, bucket, ops), other) == bucket_checksum(s, other),
{
    let named = StoreModel { buckets: ensure_bucket(s.buckets, bucket), ..s };
    lemma_ensure_bucket_coherent(s, bucket);
    lemma_absorbed_ensure(s.buckets, bucket, other);
    lemma_apply_ops_elsewhere(named, bucket, ops, other);
    lemma_apply_ops_coherent(named, bucket, ops);
    let applied = apply_ops(named, bucket, ops);
    if ops.len() > 0 {
        let first = min_op_id(ops);
        let last = max_op_id(ops);
        let marked = StoreModel { buckets: set_last_op(applied.buckets, bucket, last), ..applied };
        let i = lemma_find_pair(applied.buckets, marked.buckets, other);
        lemma_same_names(applied.buckets, marked.buckets, applied.oplog);
        lemma_sweep_keeps_checksums(
            marked,
            compact(marked, bucket, first, last),
            bucket,
            retained(bucket, first, last),
            compacted(bucket, first, last),
            other,
        );
    }
}

/// Where the inert entries of a bucket weigh nothing, the checksum over
/// `add_checksum` and the live entries is the checksum over all entries.
pub proof fn lemma_live_checksum(s: StoreModel, name: Seq<char>)
    requires
        wrap32(hash_total(s.oplog, inert_in(name))) == 0,
    ensures
        live_checksum(s, name) == bucket_checksum(s, name),
{
    lemma_total_split(s.oplog, in_bucket(name), live_in(name), inert_in(name));
    let live = absorbed(s.buckets, name) + hash_total(s.oplog, live_in(name));
    lemma_wrap32_absorb(hash_total(s.oplog, inert_in(name)), live);
}

/// The checksum over the live entries across a batch. Where the inert
/// entries of the bucket weigh nothing before and after the batch, and no
/// MOVE with weight precedes the last CLEAR of the batch, `add_checksum` and
/// the hashes of the live entries add up to the server's checksum after the
/// batch, computed from what they added up to before.
pub proof fn lemma_ingest_live_checksum(s: StoreModel, bucket: Seq<char>, ops: Seq<OperationModel>)
    requires
        well_formed(s),
        wrap32(carried_moves(ops)) == 0,
        wrap32(hash_total(s.oplog, inert_in(bucket))) == 0,
        wrap32(hash_total(ingest(s, bucket, ops).oplog, inert_in(bucket))) == 0,
    ensures
        live_checksum(ingest(s, bucket, ops), bucket) == server_checksum(
            live_checksum(s, bucket),
            ops,
        ),
{
    lemma_live_checksum(s, bucket);
    lemma_live_checksum(ingest(s, bucket, ops), bucket);
    lemma_ingest_checksum(s, bucket, ops);
    let server = server_checksum(bucket_checksum(s, bucket), ops);
    lemma_wrap32_absorb(carried_moves(ops), server as int);
    lemma_wrap32_fits(server as int);
}

/// Garbage collection of one bucket changes the checksum of no bucket.
pub proof fn lemma_collect_bucket_checksum(
    s: StoreModel,
    bucket: Seq<char>,
    upto: i64,
    name: Seq<char>,
)
    requires
        has_bucket(s.buckets, bucket),
    ensures
        bucket_checksum(collect_bucket(s, bucket, upto), name) == bucket_checksum(s, name),
{
    lemma_sweep_keeps_checksums(
        s,
        collect_bucket(s, bucket, upto),
        bucket,
        uncollected(bucket, upto),
        collected(bucket, upto),
        name,
    );
}

/// Garbage collection of the first `n` buckets changes the checksum of no
/// bucket.
pub proof fn lemma_collect_buckets_checksum(s: StoreModel, n: int, name: Seq<char>)
    requires
        well_formed(s),
        n <= s.buckets.len(),
    ensures
        bucket_checksum(collect_buckets(s, n), name) == bucket_checksum(s, name),
    decreases n,
{
    if n > 0 {
        lemma_collect_buckets_checksum(s, n - 1, name);
        lemma_collect_buckets_well_formed(s, n - 1);
        let prev = collect_buckets(s, n - 1);
        let b = prev.buckets[n - 1];
        if !b.pending_delete {
            lemma_collect_bucket_checksum(prev, b.name, b.last_applied_op, name);
        }
    }
}

/// Garbage collection changes the checksum of no bucket.
pub proof fn lemma_collect_all_checksum(s: StoreModel, name: Seq<char>)
    requires
        well_formed(s),
    ensures
        bucket_checksum(collect_all(s), name) == bucket_checksum(s, name),
{
    lemma_collect_buckets_checksum(s, s.buckets.len() as int, name);
}

/// A local apply changes the checksum of no bucket.
pub proof fn lemma_materialize_checksum(s: StoreModel, timestamp: Seq<char>, name: Seq<char>)
    ensures
        bucket_checksum(materialize(s, timestamp), name) == bucket_checksum(s, name),
{
    lemma_settle_rows_frame(s, s.oplog.len() as int);
    let i = lemma_find_pair(s.buckets, materialize(s, timestamp).buckets, name);
}

/// Among the records that a filter keeps, a record that it keeps is found
/// as before, and no record is found where none was.
pub proof fn lemma_find_filtered(
    buckets: Seq<BucketModel>,
    keep: spec_fn(BucketModel) -> bool,
    name: Seq<char>,
)
    ensures
        find_bucket(buckets, name) is None ==> find_bucket(buckets.filter(keep), name) is None,
        find_bucket(buckets, name) is Some && keep(find_bucket(buckets, name)->0) ==> find_bucket(
            buckets.filter(keep),
            name,
        ) == find_bucket(buckets, name),
    decreases buckets.len(),
{
    if buckets.len() > 0 {
        let front = buckets.drop_last();
        lemma_find_filtered(front, keep, name);
        assert(front.push(buckets.last()) =~= buckets);
        lemma_filter_push(front, buckets.last(), keep);
        if keep(buckets.last()) {
            assert(front.filter(keep).push(buckets.last()).drop_last() =~= front.filter(keep));
        }
    } else {
        lemma_filter_empty(buckets, keep);
    }
}

/// Deletion of the drained buckets changes the checksum of no bucket that
/// is not among them.
pub proof fn lemma_reap_checksum(s: StoreModel, name: Seq<char>)
    requires
        !reaped_name(s.buckets, name),
    ensures
        bucket_checksum(reap(s), name) == bucket_checksum(s, name),
{
    let i = lemma_find_pair(s.buckets, s.buckets, name);
    lemma_find_filtered(s.buckets, surviving(), name);
    let never = |e: EntryModel| false;
    lemma_total_removed(s.oplog, outside_reaped(s.buckets), in_bucket(name), never);
    lemma_total_none(s.oplog, never);
}

/// Deletion of a bucket changes the checksum of no bucket but the deleted
/// one and its sentinel.
pub proof fn lemma_retire_checksum(
    s: StoreModel,
    name: Seq<char>,
    sentinel: Seq<char>,
    other: Seq<char>,
)
    requires
        other != name,
        other != sentinel,
    ensures
        bucket_checksum(retire(s, name, sentinel), other) == bucket_checksum(s, other),
{
    let t = retire(s, name, sentinel);
    let left = s.buckets.filter(named_otherwise(name));
    let i = lemma_find_pair(s.buckets, s.buckets, other);
    lemma_find_filtered(s.buckets, named_otherwise(name), other);
    assert(t.buckets.drop_last() =~= left);
    lemma_total_same(s.oplog, t.oplog, in_bucket(other));
}

/// What the operations of a batch do to the bucket records: none comes or
/// goes, no target falls, a bucket is applied up to where it was or not at
/// all, and the record of another bucket than that of the batch stays as it
/// is.
pub proof fn lemma_apply_ops_records(s: StoreModel, bucket: Seq<char>, ops: Seq<OperationModel>)
    ensures
        apply_ops(s, bucket, ops).buckets.len() == s.buckets.len(),
        forall|i: int|
            0 <= i < s.buckets.len() ==> {
                let after = #[trigger] apply_ops(s, bucket, ops).buckets[i];
                let before = s.buckets[i];
                &&& after.name == before.name
                &&& after.target_op >= before.target_op
                &&& after.last_applied_op == before.last_applied_op || after.last_applied_op == 0
                &&& before.name != bucket ==> after == before
            },
    decreases ops.len(),
{
    if ops.len() > 0 {
        lemma_apply_ops_records(s, bucket, ops.drop_last());
    }
}

/// Targets never fall: after a batch, every bucket that was recorded is
/// recorded at its place, with a target that is not below the one before.
pub proof fn lemma_ingest_targets(s: StoreModel, bucket: Seq<char>, ops: Seq<OperationModel>, i: int)
    requires
        0 <= i < s.buckets.len(),
    ensures
        i < ingest(s, bucket, ops).buckets.len(),
        ingest(s, bucket, ops).buckets[i].name == s.buckets[i].name,
        ingest(s, bucket, ops).buckets[i].target_op >= s.buckets[i].target_op,
{
    let named = StoreModel { buckets: ensure_bucket(s.buckets, bucket), ..s };
    lemma_apply_ops_records(named, bucket, ops);
    assert(named.buckets[i] == s.buckets[i]);
}

/// A batch for one bucket changes the record of no other bucket.
pub proof fn lemma_ingest_other_records(
    s: StoreModel,
    bucket: Seq<char>,
    ops: Seq<OperationModel>,
    i: int,
)
    requires
        0 <= i < s.buckets.len(),
        s.buckets[i].name != bucket,
    ensures
        i < ingest(s, bucket, ops).buckets.len(),
        ingest(s, bucket, ops).buckets[i] == s.buckets[i],
{
    let named = StoreModel { buckets: ensure_bucket(s.buckets, bucket), ..s };
    lemma_apply_ops_records(named, bucket, ops);
    assert(named.buckets[i] == s.buckets[i]);
}

/// A bucket is never applied beyond its log: after a batch whose greatest
/// id is neither negative nor below what the bucket is applied up to, the
/// bucket of the batch is applied up to its `last_op` at most.
pub proof fn lemma_ingest_applied_bound(
    s: StoreModel,
    bucket: Seq<char>,
    ops: Seq<OperationModel>,
    i: int,
)
    requires
        ops.len() > 0,
        max_op_id(ops) >= 0,
        forall|k: int|
            0 <= k < s.buckets.len() && (#[trigger] s.buckets[k]).name == bucket
                ==> s.buckets[k].last_applied_op <= max_op_id(ops),
        0 <= i < ingest(s, bucket, ops).buckets.len(),
        ingest(s, bucket, ops).buckets[i].name == bucket,
    ensures
        ingest(s, bucket, ops).buckets[i].last_applied_op <= ingest(s, bucket, ops).buckets[i].last_op,
{
    let named = StoreModel { buckets: ensure_bucket(s.buckets, bucket), ..s };
    lemma_apply_ops_records(named, bucket, ops);
    if i < s.buckets.len() {
        assert(named.buckets[i] == s.buckets[i]);
    }
}

/// A bucket is reaped only when it is drained: every other bucket stays
/// recorded.
pub proof fn lemma_reap_only_drained(s: StoreModel, i: int)
    requires
        0 <= i < s.buckets.len(),
        !reapable(s.buckets[i]),
    ensures
        has_bucket(reap(s).buckets, s.buckets[i].name),
{
    let k = lemma_filter_keeps(s.buckets, surviving(), i);
    assert(reap(s).buckets[k].name == s.buckets[i].name);
}

/// A CLEAR repeated changes nothing: the store after two CLEAR operations
/// with the same checksum is the store after one.
pub proof fn lemma_clear_twice(s: StoreModel, bucket: Seq<char>, op: OperationModel)
    requires
        op.op == OpKind::Clear,
    ensures
        apply_op(apply_op(s, bucket, op), bucket, op) == apply_op(s, bucket, op),
{
    let once = apply_op(s, bucket, op);
    let twice = apply_op(once, bucket, op);
    assert(twice.oplog =~= once.oplog);
    assert(twice.buckets =~= once.buckets);
}

/// The operations of a batch of one are that one operation.
pub proof fn lemma_apply_single(s: StoreModel, bucket: Seq<char>, op: OperationModel)
    ensures
        apply_ops(s, bucket, seq![op]) == apply_op(s, bucket, op),
{
    reveal_with_fuel(apply_ops, 2);
    assert(seq![op].drop_last() =~= Seq::<OperationModel>::empty());
}

/// A batch of one CLEAR delivered twice leaves the store as it is after the
/// first delivery.
pub proof fn lemma_clear_batch_twice(s: StoreModel, bucket: Seq<char>, op: OperationModel)
    requires
        well_formed(s),
        op.op == OpKind::Clear,
    ensures
        ingest(ingest(s, bucket, seq![op]), bucket, seq![op]) == ingest(s, bucket, seq![op]),
{
    let ops = seq![op];
    let id = op.op_id;
    assert(ops.drop_last() =~= Seq::<OperationModel>::empty());
    assert(ops.last() == op);
    let once = ingest(s, bucket, ops);
    lemma_ingest_well_formed(s, bucket, ops);
    lemma_wrap32_fits(0);
    // The first delivery.
    let named = StoreModel { buckets: ensure_bucket(s.buckets, bucket), ..s };
    let applied = apply_op(named, bucket, op);
    lemma_apply_single(named, bucket, op);
    assert forall|k: int| 0 <= k < applied.oplog.len() && compacted(bucket, id, id)(
        #[trigger] applied.oplog[k],
    ) implies applied.oplog[k].hash == 0 by {
        assert(s.oplog[k].kind != EntryKind::Move);
    }
    lemma_total_zero(applied.oplog, compacted(bucket, id, id));
    let marked = set_last_op(applied.buckets, bucket, id);
    assert forall|k: int| 0 <= k < marked.len() implies (#[trigger] marked[k]).add_checksum
        == combine(marked[k].add_checksum, 0) by {
        lemma_wrap32_fits(marked[k].add_checksum as int);
    }
    assert(once.buckets =~= marked);
    assert(once.oplog == applied.oplog.filter(retained(bucket, id, id)));
    // The second delivery.
    assert(ensure_bucket(once.buckets, bucket) == once.buckets);
    let again = apply_op(once, bucket, op);
    lemma_apply_single(once, bucket, op);
    assert forall|k: int| 0 <= k < once.oplog.len() implies clear_entry(
        #[trigger] once.oplog[k],
        bucket,
    ) == once.oplog[k] && retained(bucket, id, id)(once.oplog[k]) by {
        let a = lemma_filter_source(applied.oplog, retained(bucket, id, id), k);
        assert(applied.oplog[a] == clear_entry(s.oplog[a], bucket));
    }
    assert(again.oplog =~= once.oplog);
    assert(again.buckets =~= once.buckets);
    lemma_filter_all(once.oplog, retained(bucket, id, id));
    lemma_total_none(once.oplog, compacted(bucket, id, id));
    let marked_again = set_last_op(again.buckets, bucket, id);
    assert(marked_again =~= once.buckets);
    assert forall|k: int| 0 <= k < once.buckets.len() implies (
    #[trigger] once.buckets[k]).add_checksum == combine(once.buckets[k].add_checksum, 0) by {
        lemma_wrap32_fits(once.buckets[k].add_checksum as int);
    }
    let twice = ingest(once, bucket, ops);
    assert(twice.buckets =~= once.buckets);
    assert(twice.oplog =~= once.oplog);
    assert(twice =~= once);
}

/// A suffix of a batch delivered again keeps the invariants. After the
/// batch `ops` and then its part from `from` on once more, the store is
/// well-formed, so that every key of a bucket still has at most one live
/// entry, the checksum of the bucket has followed the server's over the
/// second delivery as over any batch, and the checksum of every other
/// bucket is as it was before both.
pub proof fn lemma_redelivery_keeps_invariants(
    s: StoreModel,
    bucket: Seq<char>,
    ops: Seq<OperationModel>,
    from: int,
    other: Seq<char>,
)
    requires
        well_formed(s),
        0 <= from <= ops.len(),
        other != bucket,
    ensures
        well_formed(ingest(ingest(s, bucket, ops), bucket, ops.skip(from))),
        one_live_per_key(ingest(ingest(s, bucket, ops), bucket, ops.skip(from)).oplog),
        bucket_checksum(ingest(ingest(s, bucket, ops), bucket, ops.skip(from)), bucket) == wrap32(
            server_checksum(bucket_checksum(ingest(s, bucket, ops), bucket), ops.skip(from))
                + carried_moves(ops.skip(from)),
        ),
        bucket_checksum(ingest(ingest(s, bucket, ops), bucket, ops.skip(from)), other)
            == bucket_checksum(s, other),
{
    let once = ingest(s, bucket, ops);
    lemma_ingest_well_formed(s, bucket, ops);
    lemma_ingest_well_formed(once, bucket, ops.skip(from));
    lemma_ingest_checksum(once, bucket, ops.skip(from));
    lemma_ingest_checksum_elsewhere(s, bucket, ops, other);
    lemma_ingest_checksum_elsewhere(once, bucket, ops.skip(from), other);
}

} // verus!
