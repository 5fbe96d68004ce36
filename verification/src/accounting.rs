//! The checksum that the store holds for a bucket follows the checksum on
//! the server.
use vstd::prelude::*;
use crate::checksum::{lemma_wrap32_absorb, wrap32};
use crate::invariants::{lemma_apply_ops_coherent, same_names};
use crate::model::{
    absorbed, apply_op, apply_ops, carried_moves, clear_entry, coherent, composed_key,
    ensure_bucket, find_bucket, gross_weight, has_bucket, hash_total, in_bucket, move_total,
    moves_in, server_checksum, supersede, BucketModel, EntryKind, EntryModel, OperationModel,
    OpKind, StoreModel,
};

verus! {

// ---------------------------------------------------------------------------
// Sums of hashes
// ---------------------------------------------------------------------------

/// An entry added to the log adds its hash to the sums that select it.
pub proof fn lemma_total_push(log: Seq<EntryModel>, e: EntryModel, sel: spec_fn(EntryModel) -> bool)
    ensures
        hash_total(log.push(e), sel) == hash_total(log, sel) + if sel(e) {
            e.hash as int
        } else {
            0
        },
{
    assert(log.push(e).drop_last() =~= log);
}

/// A sum that selects no entry of the log is 0.
pub proof fn lemma_total_none(log: Seq<EntryModel>, sel: spec_fn(EntryModel) -> bool)
    requires
        forall|i: int| 0 <= i < log.len() ==> !sel(#[trigger] log[i]),
    ensures
        hash_total(log, sel) == 0,
    decreases log.len(),
{
    if log.len() > 0 {
        assert forall|i: int| 0 <= i < log.drop_last().len() implies !sel(
            #[trigger] log.drop_last()[i],
        ) by {
            assert(log.drop_last()[i] == log[i]);
        }
        lemma_total_none(log.drop_last(), sel);
    }
}

/// Two logs of which each entry is selected as the other's and weighs the
/// same where it is selected have the same sum.
pub proof fn lemma_total_same(
    a: Seq<EntryModel>,
    b: Seq<EntryModel>,
    sel: spec_fn(EntryModel) -> bool,
)
    requires
        a.len() == b.len(),
        forall|i: int|
            0 <= i < a.len() ==> sel(#[trigger] a[i]) == sel(b[i]) && (sel(a[i]) ==> a[i].hash
                == b[i].hash),
    ensures
        hash_total(a, sel) == hash_total(b, sel),
    decreases a.len(),
{
    if a.len() > 0 {
        assert forall|i: int| 0 <= i < a.drop_last().len() implies sel(
            #[trigger] a.drop_last()[i],
        ) == sel(b.drop_last()[i]) && (sel(a.drop_last()[i]) ==> a.drop_last()[i].hash
            == b.drop_last()[i].hash) by {
            assert(a.drop_last()[i] == a[i]);
        }
        lemma_total_same(a.drop_last(), b.drop_last(), sel);
        assert(sel(a[a.len() - 1]) == sel(b[a.len() - 1]));
    }
}

/// A sum over a log splits into the sums over two parts that share no
/// entry and together select what it selects.
pub proof fn lemma_total_split(
    log: Seq<EntryModel>,
    whole: spec_fn(EntryModel) -> bool,
    left: spec_fn(EntryModel) -> bool,
    right: spec_fn(EntryModel) -> bool,
)
    requires
        forall|i: int|
            0 <= i < log.len() ==> (whole(#[trigger] log[i]) == (left(log[i]) || right(log[i])))
                && !(left(log[i]) && right(log[i])),
    ensures
        hash_total(log, whole) == hash_total(log, left) + hash_total(log, right),
    decreases log.len(),
{
    if log.len() > 0 {
        assert forall|i: int| 0 <= i < log.drop_last().len() implies (whole(
            #[trigger] log.drop_last()[i],
        ) == (left(log.drop_last()[i]) || right(log.drop_last()[i]))) && !(left(
            log.drop_last()[i],
        ) && right(log.drop_last()[i])) by {
            assert(log.drop_last()[i] == log[i]);
        }
        lemma_total_split(log.drop_last(), whole, left, right);
        assert(whole(log[log.len() - 1]) == (left(log[log.len() - 1]) || right(
            log[log.len() - 1],
        )));
    }
}

/// The sum over what a filter keeps is the sum over the kept entries of
/// the log.
pub proof fn lemma_total_filtered(
    log: Seq<EntryModel>,
    keep: spec_fn(EntryModel) -> bool,
    sel: spec_fn(EntryModel) -> bool,
    both: spec_fn(EntryModel) -> bool,
)
    requires
        forall|i: int|
            0 <= i < log.len() ==> both(#[trigger] log[i]) == (sel(log[i]) && keep(log[i])),
    ensures
        hash_total(log.filter(keep), sel) == hash_total(log, both),
    decreases log.len(),
{
    reveal(Seq::filter);
    if log.len() > 0 {
        assert forall|i: int| 0 <= i < log.drop_last().len() implies both(
            #[trigger] log.drop_last()[i],
        ) == (sel(log.drop_last()[i]) && keep(log.drop_last()[i])) by {
            assert(log.drop_last()[i] == log[i]);
        }
        lemma_total_filtered(log.drop_last(), keep, sel, both);
        assert(both(log[log.len() - 1]) == (sel(log[log.len() - 1]) && keep(log[log.len() - 1])));
        if keep(log.last()) {
            lemma_total_push(log.drop_last().filter(keep), log.last(), sel);
        }
    }
}

/// What a filter removes from a sum is the sum over the removed entries.
pub proof fn lemma_total_removed(
    log: Seq<EntryModel>,
    keep: spec_fn(EntryModel) -> bool,
    sel: spec_fn(EntryModel) -> bool,
    lost: spec_fn(EntryModel) -> bool,
)
    requires
        forall|i: int|
            0 <= i < log.len() ==> lost(#[trigger] log[i]) == (sel(log[i]) && !keep(log[i])),
    ensures
        hash_total(log.filter(keep), sel) == hash_total(log, sel) - hash_total(log, lost),
{
    let both = |e: EntryModel| sel(e) && keep(e);
    lemma_total_filtered(log, keep, sel, both);
    lemma_total_split(log, sel, both, lost);
}

// ---------------------------------------------------------------------------
// Bucket records
// ---------------------------------------------------------------------------

/// A bucket is recorded exactly where a record is found for it.
pub proof fn lemma_find_has(buckets: Seq<BucketModel>, name: Seq<char>)
    ensures
        has_bucket(buckets, name) == find_bucket(buckets, name) is Some,
        find_bucket(buckets, name) is Some ==> find_bucket(buckets, name)->0.name == name,
    decreases buckets.len(),
{
    if buckets.len() > 0 {
        lemma_find_has(buckets.drop_last(), name);
        if has_bucket(buckets.drop_last(), name) {
            let i = choose|i: int|
                0 <= i < buckets.drop_last().len() && (#[trigger] buckets.drop_last()[i]).name
                    == name;
            assert(buckets[i].name == name);
        }
        if has_bucket(buckets, name) && buckets.last().name != name {
            let i = choose|i: int| 0 <= i < buckets.len() && (#[trigger] buckets[i]).name == name;
            assert(buckets.drop_last()[i].name == name);
        }
        if buckets.last().name == name {
            assert(buckets[buckets.len() - 1].name == name);
        }
    }
}

/// In two lists of records that name the same buckets at the same places,
/// the records found for a name stand at the same place.
pub proof fn lemma_find_pair(a: Seq<BucketModel>, b: Seq<BucketModel>, name: Seq<char>) -> (i: int)
    requires
        same_names(a, b),
    ensures
        find_bucket(a, name) is Some == find_bucket(b, name) is Some,
        find_bucket(a, name) is Some ==> 0 <= i < a.len() && find_bucket(a, name) == Some(a[i])
            && find_bucket(b, name) == Some(b[i]) && a[i].name == name,
    decreases a.len(),
{
    if a.len() == 0 {
        0
    } else {
        assert(a[a.len() - 1].name == b[a.len() - 1].name);
        if a.last().name == name {
            a.len() - 1
        } else {
            assert forall|k: int| 0 <= k < a.drop_last().len() implies (
            #[trigger] a.drop_last()[k]).name == b.drop_last()[k].name by {
                assert(a[k].name == b[k].name);
            }
            lemma_find_pair(a.drop_last(), b.drop_last(), name)
        }
    }
}

/// Recording a bucket changes no `add_checksum`.
pub proof fn lemma_absorbed_ensure(buckets: Seq<BucketModel>, bucket: Seq<char>, name: Seq<char>)
    ensures
        absorbed(ensure_bucket(buckets, bucket), name) == absorbed(buckets, name),
{
    if !has_bucket(buckets, bucket) {
        lemma_find_has(buckets, bucket);
        assert(ensure_bucket(buckets, bucket).drop_last() =~= buckets);
    }
}

// ---------------------------------------------------------------------------
// Operations
// ---------------------------------------------------------------------------

/// What one operation of a batch does to the weight of its bucket and to
/// the weight of the MOVE entries of its bucket.
pub proof fn lemma_apply_op_weight(s: StoreModel, bucket: Seq<char>, op: OperationModel)
    requires
        coherent(s),
        has_bucket(s.buckets, bucket),
    ensures
        hash_total(apply_op(s, bucket, op).oplog, moves_in(bucket)) == hash_total(
            s.oplog,
            moves_in(bucket),
        ) + if op.op == OpKind::Move {
            op.checksum as int
        } else {
            0
        },
        gross_weight(apply_op(s, bucket, op), bucket) == match op.op {
            OpKind::Put | OpKind::Remove | OpKind::Move => gross_weight(s, bucket) + op.checksum,
            OpKind::Clear => op.checksum + hash_total(s.oplog, moves_in(bucket)),
            OpKind::Other => gross_weight(s, bucket),
        },
{
    let t = apply_op(s, bucket, op);
    match op.op {
        OpKind::Put | OpKind::Remove => {
            let log = match composed_key(op) {
                Some(key) => supersede(s.oplog, bucket, key),
                None => s.oplog,
            };
            lemma_total_same(s.oplog, log, moves_in(bucket));
            lemma_total_same(s.oplog, log, in_bucket(bucket));
            lemma_total_push(log, t.oplog.last(), moves_in(bucket));
            lemma_total_push(log, t.oplog.last(), in_bucket(bucket));
            assert(t.oplog.drop_last() =~= log);
        },
        OpKind::Move => {
            lemma_total_push(s.oplog, t.oplog.last(), moves_in(bucket));
            lemma_total_push(s.oplog, t.oplog.last(), in_bucket(bucket));
            assert(t.oplog.drop_last() =~= s.oplog);
            let i = lemma_find_pair(s.buckets, t.buckets, bucket);
        },
        OpKind::Clear => {
            lemma_total_same(s.oplog, t.oplog, moves_in(bucket));
            let i = lemma_find_pair(s.buckets, t.buckets, bucket);
            lemma_find_has(s.buckets, bucket);
            assert(absorbed(t.buckets, bucket) == op.checksum);
            lemma_total_same(t.oplog, s.oplog, moves_in(bucket));
            let others = |e: EntryModel| e.bucket == bucket && e.kind != EntryKind::Move;
            lemma_total_split(t.oplog, in_bucket(bucket), moves_in(bucket), others);
            assert forall|k: int| 0 <= k < t.oplog.len() && others(
                #[trigger] t.oplog[k],
            ) implies t.oplog[k].hash == 0 by {
                assert(t.oplog[k] == clear_entry(s.oplog[k], bucket));
            }
            lemma_total_zero(t.oplog, others);
        },
        OpKind::Other => {},
    }
}

/// A sum over entries without weight is 0.
pub proof fn lemma_total_zero(log: Seq<EntryModel>, sel: spec_fn(EntryModel) -> bool)
    requires
        forall|i: int| 0 <= i < log.len() && sel(#[trigger] log[i]) ==> log[i].hash == 0,
    ensures
        hash_total(log, sel) == 0,
    decreases log.len(),
{
    if log.len() > 0 {
        assert forall|i: int|
            0 <= i < log.drop_last().len() && sel(
                #[trigger] log.drop_last()[i],
            ) implies log.drop_last()[i].hash == 0 by {
            assert(log.drop_last()[i] == log[i]);
        }
        lemma_total_zero(log.drop_last(), sel);
        assert(sel(log[log.len() - 1]) ==> log[log.len() - 1].hash == 0);
    }
}

/// One operation of a batch leaves the weight of every other bucket as it
/// was.
pub proof fn lemma_apply_op_elsewhere(
    s: StoreModel,
    bucket: Seq<char>,
    op: OperationModel,
    other: Seq<char>,
)
    requires
        other != bucket,
    ensures
        gross_weight(apply_op(s, bucket, op), other) == gross_weight(s, other),
{
    let t = apply_op(s, bucket, op);
    match op.op {
        OpKind::Put | OpKind::Remove => {
            let log = match composed_key(op) {
                Some(key) => supersede(s.oplog, bucket, key),
                None => s.oplog,
            };
            lemma_total_same(s.oplog, log, in_bucket(other));
            lemma_total_push(log, t.oplog.last(), in_bucket(other));
            assert(t.oplog.drop_last() =~= log);
        },
        OpKind::Move => {
            lemma_total_push(s.oplog, t.oplog.last(), in_bucket(other));
            assert(t.oplog.drop_last() =~= s.oplog);
            let i = lemma_find_pair(s.buckets, t.buckets, other);
        },
        OpKind::Clear => {
            lemma_total_same(s.oplog, t.oplog, in_bucket(other));
            let i = lemma_find_pair(s.buckets, t.buckets, other);
        },
        OpKind::Other => {},
    }
}

/// The weight of a bucket after the operations of a batch, given the one
/// before, unbounded: a CLEAR leaves its own checksum and the weight of the
/// MOVE operations before it in the batch, and every PUT, REMOVE and MOVE
/// adds its own.
pub open spec fn weight_after(before: int, ops: Seq<OperationModel>) -> int
    decreases ops.len(),
{
    if ops.len() == 0 {
        before
    } else {
        let prev = weight_after(before, ops.drop_last());
        match ops.last().op {
            OpKind::Put | OpKind::Remove | OpKind::Move => prev + ops.last().checksum,
            OpKind::Clear => ops.last().checksum + move_total(ops.drop_last()),
            OpKind::Other => prev,
        }
    }
}

/// What the operations of a batch do to the weight of its bucket.
pub proof fn lemma_apply_ops_weight(s: StoreModel, bucket: Seq<char>, ops: Seq<OperationModel>)
    requires
        coherent(s),
        has_bucket(s.buckets, bucket),
        hash_total(s.oplog, moves_in(bucket)) == 0,
    ensures
        hash_total(apply_ops(s, bucket, ops).oplog, moves_in(bucket)) == move_total(ops),
        gross_weight(apply_ops(s, bucket, ops), bucket) == weight_after(
            gross_weight(s, bucket),
            ops,
        ),
    decreases ops.len(),
{
    if ops.len() > 0 {
        lemma_apply_ops_weight(s, bucket, ops.drop_last());
        lemma_apply_ops_coherent(s, bucket, ops.drop_last());
        lemma_apply_op_weight(apply_ops(s, bucket, ops.drop_last()), bucket, ops.last());
    }
}

/// The operations of a batch leave the weight of every other bucket as it
/// was.
pub proof fn lemma_apply_ops_elsewhere(
    s: StoreModel,
    bucket: Seq<char>,
    ops: Seq<OperationModel>,
    other: Seq<char>,
)
    requires
        other != bucket,
    ensures
        gross_weight(apply_ops(s, bucket, ops), other) == gross_weight(s, other),
    decreases ops.len(),
{
    if ops.len() > 0 {
        lemma_apply_ops_elsewhere(s, bucket, ops.drop_last(), other);
        lemma_apply_op_elsewhere(apply_ops(s, bucket, ops.drop_last()), bucket, ops.last(), other);
    }
}

/// Wrapped, the weight after a batch is the server's checksum after it and
/// the weight of the MOVE operations before its last CLEAR.
pub proof fn lemma_weight_follows_server(before: int, ops: Seq<OperationModel>)
    ensures
        wrap32(weight_after(before, ops)) == wrap32(
            server_checksum(wrap32(before), ops) + carried_moves(ops),
        ),
    decreases ops.len(),
{
    if ops.len() == 0 {
        lemma_wrap32_absorb(before, 0);
    } else {
        let front = ops.drop_last();
        let c = ops.last().checksum as int;
        lemma_weight_follows_server(before, front);
        match ops.last().op {
            OpKind::Put | OpKind::Remove | OpKind::Move => {
                let e = weight_after(before, front);
                let sv = server_checksum(wrap32(before), front) as int;
                let cm = carried_moves(front);
                lemma_wrap32_absorb(e, c);
                lemma_wrap32_absorb(sv + cm, c);
                lemma_wrap32_absorb(sv + c, cm);
            },
            OpKind::Clear => {},
            OpKind::Other => {},
        }
    }
}

} // verus!
