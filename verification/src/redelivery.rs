//! The live entries of the log under ingestion, and why a part of a batch
//! that is delivered again does no harm.
use vstd::prelude::*;
use crate::model::{
    apply_op, apply_ops, clear_entries, clear_entry, composed_key, ensure_bucket, ingest, max_op_id,
    min_op_id, move_entry, newest_put, retained, row_entry, supersede, supersede_entry, EntryModel,
    OperationModel, OpKind, StoreModel,
};
use crate::seq_facts::{
    lemma_filter_all, lemma_filter_empty, lemma_filter_push, lemma_filter_same, lemma_filter_source,
    lemma_filter_twice,
};
use crate::visibility::asserted_payload;

verus! {

/// The entries that are live.
pub open spec fn live() -> spec_fn(EntryModel) -> bool {
    |e: EntryModel| !e.superseded
}

/// The live entries of a log, in their order.
pub open spec fn live_entries(log: Seq<EntryModel>) -> Seq<EntryModel> {
    log.filter(live())
}

/// The entries that are not those of `bucket` under `key`.
pub open spec fn not_under(bucket: Seq<char>, key: Seq<char>) -> spec_fn(EntryModel) -> bool {
    |e: EntryModel| !(e.bucket == bucket && e.key == Some(key))
}

/// What one operation of a batch for `bucket` makes of the live entries: a
/// PUT or REMOVE adds its entry, in place of the one under its key; a CLEAR
/// rewrites the entries of the bucket; a MOVE changes nothing.
pub open spec fn live_after_op(lv: Seq<EntryModel>, bucket: Seq<char>, op: OperationModel) -> Seq<
    EntryModel,
> {
    match op.op {
        OpKind::Put | OpKind::Remove => match composed_key(op) {
            Some(key) => lv.filter(not_under(bucket, key)).push(row_entry(bucket, op)),
            None => lv.push(row_entry(bucket, op)),
        },
        OpKind::Clear => clear_entries(lv, bucket),
        OpKind::Move | OpKind::Other => lv,
    }
}

/// What the operations of a batch for `bucket` make of the live entries.
pub open spec fn live_after_ops(lv: Seq<EntryModel>, bucket: Seq<char>, ops: Seq<OperationModel>) -> Seq<
    EntryModel,
>
    decreases ops.len(),
{
    if ops.len() == 0 {
        lv
    } else {
        live_after_op(live_after_ops(lv, bucket, ops.drop_last()), bucket, ops.last())
    }
}

/// Whether a PUT or REMOVE of `ops` has the key of the entry `e` of
/// `bucket`.
pub open spec fn rekeyed(e: EntryModel, bucket: Seq<char>, ops: Seq<OperationModel>) -> bool
    decreases ops.len(),
{
    if ops.len() == 0 {
        false
    } else {
        rekeyed(e, bucket, ops.drop_last()) || (names_row(ops.last()) && e.bucket == bucket && e.key
            == composed_key(ops.last()))
    }
}

/// Whether the operation is a PUT or REMOVE that names its row by type and
/// id.
pub open spec fn names_row(op: OperationModel) -> bool {
    (op.op == OpKind::Put || op.op == OpKind::Remove) && composed_key(op) is Some
}

/// Whether every PUT and REMOVE of `ops` names its row.
pub open spec fn all_name_rows(ops: Seq<OperationModel>) -> bool {
    forall|i: int|
        0 <= i < ops.len() && ((#[trigger] ops[i]).op == OpKind::Put || ops[i].op == OpKind::Remove)
            ==> composed_key(ops[i]) is Some
}

/// The entries whose key no PUT or REMOVE of `ops` has.
pub open spec fn untouched(bucket: Seq<char>, ops: Seq<OperationModel>) -> spec_fn(EntryModel) -> bool {
    |e: EntryModel| !rekeyed(e, bucket, ops)
}

/// Whether a CLEAR is among the operations.
pub open spec fn has_clear(ops: Seq<OperationModel>) -> bool
    decreases ops.len(),
{
    if ops.len() == 0 {
        false
    } else {
        has_clear(ops.drop_last()) || ops.last().op == OpKind::Clear
    }
}

/// What a batch leaves of the entries that were live before it: those whose
/// key no PUT or REMOVE of the batch has, rewritten where the batch holds a
/// CLEAR.
pub open spec fn survivors(lv: Seq<EntryModel>, bucket: Seq<char>, ops: Seq<OperationModel>) -> Seq<
    EntryModel,
> {
    let kept = lv.filter(untouched(bucket, ops));
    if has_clear(ops) {
        clear_entries(kept, bucket)
    } else {
        kept
    }
}

/// The live entries that a batch adds: what it makes of an empty log.
pub open spec fn arrivals(bucket: Seq<char>, ops: Seq<OperationModel>) -> Seq<EntryModel> {
    live_after_ops(Seq::empty(), bucket, ops)
}

// ---------------------------------------------------------------------------
// The live entries under the steps of ingestion
// ---------------------------------------------------------------------------

/// Rewriting the entries of a bucket and filtering by what the rewriting
/// does not change can be done in either order.
pub proof fn lemma_clear_filter(
    log: Seq<EntryModel>,
    bucket: Seq<char>,
    pred: spec_fn(EntryModel) -> bool,
)
    requires
        forall|i: int|
            0 <= i < log.len() ==> pred(clear_entry(#[trigger] log[i], bucket)) == pred(log[i]),
    ensures
        clear_entries(log, bucket).filter(pred) == clear_entries(log.filter(pred), bucket),
    decreases log.len(),
{
    if log.len() > 0 {
        let front = log.drop_last();
        assert forall|i: int| 0 <= i < front.len() implies pred(
            clear_entry(#[trigger] front[i], bucket),
        ) == pred(front[i]) by {
            assert(front[i] == log[i]);
        }
        lemma_clear_filter(front, bucket, pred);
        assert(pred(clear_entry(log[log.len() - 1], bucket)) == pred(log[log.len() - 1]));
        assert(clear_entries(log, bucket) =~= clear_entries(front, bucket).push(
            clear_entry(log.last(), bucket),
        ));
        lemma_filter_push(clear_entries(front, bucket), clear_entry(log.last(), bucket), pred);
        assert(front.push(log.last()) =~= log);
        lemma_filter_push(front, log.last(), pred);
        if pred(log.last()) {
            assert(clear_entries(front.filter(pred).push(log.last()), bucket) =~= clear_entries(
                front.filter(pred),
                bucket,
            ).push(clear_entry(log.last(), bucket)));
        }
    } else {
        lemma_filter_empty(log, pred);
        lemma_filter_empty(clear_entries(log, bucket), pred);
        assert(clear_entries(Seq::<EntryModel>::empty(), bucket) =~= Seq::<EntryModel>::empty());
    }
}

/// The live entries after supersession are the live entries before it
/// without the one under the key.
pub proof fn lemma_live_supersede(log: Seq<EntryModel>, bucket: Seq<char>, key: Seq<char>)
    ensures
        live_entries(supersede(log, bucket, key)) == live_entries(log).filter(
            not_under(bucket, key),
        ),
    decreases log.len(),
{
    if log.len() > 0 {
        let front = log.drop_last();
        let x = log.last();
        lemma_live_supersede(front, bucket, key);
        assert(supersede(log, bucket, key) =~= supersede(front, bucket, key).push(
            supersede_entry(x, bucket, key),
        ));
        lemma_filter_push(supersede(front, bucket, key), supersede_entry(x, bucket, key), live());
        assert(front.push(x) =~= log);
        lemma_filter_push(front, x, live());
        if !x.superseded {
            lemma_filter_push(live_entries(front), x, not_under(bucket, key));
        }
    } else {
        lemma_filter_empty(log, live());
        lemma_filter_empty(supersede(log, bucket, key), live());
        lemma_filter_empty(Seq::<EntryModel>::empty(), not_under(bucket, key));
    }
}

/// The live entries after one operation of a batch.
pub proof fn lemma_live_apply_op(s: StoreModel, bucket: Seq<char>, op: OperationModel)
    ensures
        live_entries(apply_op(s, bucket, op).oplog) == live_after_op(
            live_entries(s.oplog),
            bucket,
            op,
        ),
{
    match op.op {
        OpKind::Put | OpKind::Remove => {
            match composed_key(op) {
                Some(key) => {
                    lemma_live_supersede(s.oplog, bucket, key);
                    lemma_filter_push(
                        supersede(s.oplog, bucket, key),
                        row_entry(bucket, op),
                        live(),
                    );
                },
                None => {
                    lemma_filter_push(s.oplog, row_entry(bucket, op), live());
                },
            }
        },
        OpKind::Move => {
            lemma_filter_push(s.oplog, move_entry(bucket, op), live());
        },
        OpKind::Clear => {
            lemma_clear_filter(s.oplog, bucket, live());
        },
        OpKind::Other => {},
    }
}

/// The live entries after the operations of a batch.
pub proof fn lemma_live_apply_ops(s: StoreModel, bucket: Seq<char>, ops: Seq<OperationModel>)
    ensures
        live_entries(apply_ops(s, bucket, ops).oplog) == live_after_ops(
            live_entries(s.oplog),
            bucket,
            ops,
        ),
    decreases ops.len(),
{
    if ops.len() > 0 {
        lemma_live_apply_ops(s, bucket, ops.drop_last());
        lemma_live_apply_op(apply_ops(s, bucket, ops.drop_last()), bucket, ops.last());
    }
}

/// The live entries across a batch. Compaction removes inert entries
/// only, so the live entries after the batch are what its operations make of
/// the live entries before it.
pub proof fn lemma_ingest_live_entries(s: StoreModel, bucket: Seq<char>, ops: Seq<OperationModel>)
    ensures
        live_entries(ingest(s, bucket, ops).oplog) == live_after_ops(
            live_entries(s.oplog),
            bucket,
            ops,
        ),
{
    let named = StoreModel { buckets: ensure_bucket(s.buckets, bucket), ..s };
    lemma_live_apply_ops(named, bucket, ops);
    if ops.len() > 0 {
        let log = apply_ops(named, bucket, ops).oplog;
        let keep = retained(bucket, min_op_id(ops), max_op_id(ops));
        let both = |e: EntryModel| keep(e) && live()(e);
        lemma_filter_twice(log, keep, live(), both);
        lemma_filter_same(log, live(), both);
    }
}

// ---------------------------------------------------------------------------
// Survivors and arrivals
// ---------------------------------------------------------------------------

/// Whether a key is taken again depends on bucket and key alone.
pub proof fn lemma_rekeyed_by_key(
    a: EntryModel,
    b: EntryModel,
    bucket: Seq<char>,
    ops: Seq<OperationModel>,
)
    requires
        a.bucket == b.bucket,
        a.key == b.key,
    ensures
        rekeyed(a, bucket, ops) == rekeyed(b, bucket, ops),
    decreases ops.len(),
{
    if ops.len() > 0 {
        lemma_rekeyed_by_key(a, b, bucket, ops.drop_last());
    }
}

/// Rewriting entries that are rewritten already changes nothing.
pub proof fn lemma_clear_entries_twice(log: Seq<EntryModel>, bucket: Seq<char>)
    ensures
        clear_entries(clear_entries(log, bucket), bucket) == clear_entries(log, bucket),
{
    assert(clear_entries(clear_entries(log, bucket), bucket) =~= clear_entries(log, bucket));
}

/// Every entry that is left of the entries before a batch has a key that
/// no PUT or REMOVE of the batch has, and is rewritten where the batch
/// holds a CLEAR.
pub proof fn lemma_survivors_settled(
    lv: Seq<EntryModel>,
    bucket: Seq<char>,
    ops: Seq<OperationModel>,
)
    ensures
        survivors(survivors(lv, bucket, ops), bucket, ops) == survivors(lv, bucket, ops),
{
    let kept = lv.filter(untouched(bucket, ops));
    let left = survivors(lv, bucket, ops);
    assert forall|i: int| 0 <= i < left.len() implies untouched(bucket, ops)(#[trigger] left[i]) by {
        let j = lemma_filter_source(lv, untouched(bucket, ops), i);
        lemma_rekeyed_by_key(left[i], kept[i], bucket, ops);
    }
    lemma_filter_all(left, untouched(bucket, ops));
    if has_clear(ops) {
        lemma_clear_entries_twice(kept, bucket);
    }
}

/// What a batch makes of the live entries: what it leaves of them, then
/// what it adds.
pub proof fn lemma_live_after_ops_parts(
    lv: Seq<EntryModel>,
    bucket: Seq<char>,
    ops: Seq<OperationModel>,
)
    ensures
        live_after_ops(lv, bucket, ops) == survivors(lv, bucket, ops) + arrivals(bucket, ops),
    decreases ops.len(),
{
    if ops.len() == 0 {
        lemma_filter_all(lv, untouched(bucket, ops));
        assert(lv + Seq::<EntryModel>::empty() =~= lv);
    } else {
        let front = ops.drop_last();
        let op = ops.last();
        lemma_live_after_ops_parts(lv, bucket, front);
        let left = survivors(lv, bucket, front);
        let kept = lv.filter(untouched(bucket, front));
        let came = arrivals(bucket, front);
        match op.op {
            OpKind::Put | OpKind::Remove => {
                match composed_key(op) {
                    Some(key) => {
                        let nu = not_under(bucket, key);
                        Seq::filter_distributes_over_add(left, came, nu);
                        assert(left.filter(nu).push(row_entry(bucket, op)) + Seq::<
                            EntryModel,
                        >::empty() =~= left.filter(nu).push(row_entry(bucket, op)));
                        assert((left.filter(nu) + came.filter(nu)).push(row_entry(bucket, op))
                            =~= left.filter(nu) + came.filter(nu).push(row_entry(bucket, op)));
                        // What is left after the operation.
                        lemma_filter_twice(lv, untouched(bucket, front), nu, untouched(bucket, ops));
                        if has_clear(front) {
                            assert forall|i: int| 0 <= i < kept.len() implies nu(
                                clear_entry(#[trigger] kept[i], bucket),
                            ) == nu(kept[i]) by {}
                            lemma_clear_filter(kept, bucket, nu);
                        }
                        assert(left.filter(nu) == survivors(lv, bucket, ops));
                    },
                    None => {
                        lemma_filter_same(lv, untouched(bucket, front), untouched(bucket, ops));
                        assert((left + came).push(row_entry(bucket, op)) =~= left + came.push(
                            row_entry(bucket, op),
                        ));
                    },
                }
            },
            OpKind::Clear => {
                lemma_filter_same(lv, untouched(bucket, front), untouched(bucket, ops));
                assert(clear_entries(left + came, bucket) =~= clear_entries(left, bucket)
                    + clear_entries(came, bucket));
                if has_clear(front) {
                    lemma_clear_entries_twice(kept, bucket);
                }
            },
            OpKind::Move | OpKind::Other => {
                lemma_filter_same(lv, untouched(bucket, front), untouched(bucket, ops));
            },
        }
    }
}

/// Every entry that a batch adds has a key that a PUT or REMOVE of the
/// batch has, where each of them names its row.
pub proof fn lemma_arrivals_rekeyed(bucket: Seq<char>, ops: Seq<OperationModel>)
    requires
        all_name_rows(ops),
    ensures
        forall|i: int|
            0 <= i < arrivals(bucket, ops).len() ==> rekeyed(
                #[trigger] arrivals(bucket, ops)[i],
                bucket,
                ops,
            ),
    decreases ops.len(),
{
    if ops.len() > 0 {
        let front = ops.drop_last();
        let op = ops.last();
        assert(all_name_rows(front)) by {
            assert forall|i: int|
                0 <= i < front.len() && ((#[trigger] front[i]).op == OpKind::Put || front[i].op
                    == OpKind::Remove) implies composed_key(front[i]) is Some by {
                assert(front[i] == ops[i]);
            }
        }
        lemma_arrivals_rekeyed(bucket, front);
        let came = arrivals(bucket, front);
        let now = arrivals(bucket, ops);
        assert(ops[ops.len() - 1] == op);
        assert forall|i: int| 0 <= i < now.len() implies rekeyed(#[trigger] now[i], bucket, ops) by {
            match op.op {
                OpKind::Put | OpKind::Remove => {
                    let key = composed_key(op)->0;
                    let kept = came.filter(not_under(bucket, key));
                    if i < kept.len() {
                        let j = lemma_filter_source(came, not_under(bucket, key), i);
                        assert(rekeyed(came[j], bucket, front));
                    }
                },
                OpKind::Clear => {
                    assert(rekeyed(came[i], bucket, front));
                    lemma_rekeyed_by_key(now[i], came[i], bucket, ops);
                },
                OpKind::Move | OpKind::Other => {
                    assert(rekeyed(came[i], bucket, front));
                },
            }
        }
    }
}

/// A batch whose PUT and REMOVE operations all name their rows, applied
/// once more to the live entries it has left, leaves them as they are.
pub proof fn lemma_live_after_ops_twice(
    lv: Seq<EntryModel>,
    bucket: Seq<char>,
    ops: Seq<OperationModel>,
)
    requires
        all_name_rows(ops),
    ensures
        live_after_ops(live_after_ops(lv, bucket, ops), bucket, ops) == live_after_ops(
            lv,
            bucket,
            ops,
        ),
{
    let left = survivors(lv, bucket, ops);
    let came = arrivals(bucket, ops);
    lemma_live_after_ops_parts(lv, bucket, ops);
    lemma_live_after_ops_parts(left + came, bucket, ops);
    lemma_survivors_settled(lv, bucket, ops);
    lemma_arrivals_rekeyed(bucket, ops);
    let keep = untouched(bucket, ops);
    Seq::filter_distributes_over_add(left, came, keep);
    lemma_filter_empty(came, keep);
    assert(left.filter(keep) + Seq::<EntryModel>::empty() =~= left.filter(keep));
    assert(survivors(left + came, bucket, ops) == survivors(left, bucket, ops));
}

/// The operations of two batches in a row are those of the two as one.
pub proof fn lemma_live_after_ops_joined(
    lv: Seq<EntryModel>,
    bucket: Seq<char>,
    first: Seq<OperationModel>,
    second: Seq<OperationModel>,
)
    ensures
        live_after_ops(lv, bucket, first + second) == live_after_ops(
            live_after_ops(lv, bucket, first),
            bucket,
            second,
        ),
    decreases second.len(),
{
    if second.len() == 0 {
        assert(first + second =~= first);
    } else {
        lemma_live_after_ops_joined(lv, bucket, first, second.drop_last());
        assert((first + second).drop_last() =~= first + second.drop_last());
        assert((first + second).last() == second.last());
    }
}

/// The newest live PUT of a row is found among the live entries alone.
pub proof fn lemma_newest_put_live(log: Seq<EntryModel>, row_type: Seq<char>, id: Seq<char>)
    ensures
        newest_put(log, row_type, id) == newest_put(live_entries(log), row_type, id),
    decreases log.len(),
{
    if log.len() > 0 {
        lemma_newest_put_live(log.drop_last(), row_type, id);
        assert(log.drop_last().push(log.last()) =~= log);
        lemma_filter_push(log.drop_last(), log.last(), live());
        if !log.last().superseded {
            assert(live_entries(log).drop_last() =~= live_entries(log.drop_last()));
        }
    } else {
        lemma_filter_empty(log, live());
    }
}

/// A part of a batch delivered again does no harm. After the batch `ops`
/// and then its part from `from` on once more, where every PUT and REMOVE
/// of that part names its row, the live entries of the log are the same, in
/// the same order, as after the batch alone; so every row has the payload
/// that it had.
pub proof fn lemma_redelivery_keeps_rows(
    s: StoreModel,
    bucket: Seq<char>,
    ops: Seq<OperationModel>,
    from: int,
    row_type: Seq<char>,
    id: Seq<char>,
)
    requires
        0 <= from <= ops.len(),
        all_name_rows(ops.skip(from)),
    ensures
        live_entries(ingest(ingest(s, bucket, ops), bucket, ops.skip(from)).oplog) == live_entries(
            ingest(s, bucket, ops).oplog,
        ),
        asserted_payload(ingest(ingest(s, bucket, ops), bucket, ops.skip(from)).oplog, row_type, id)
            == asserted_payload(ingest(s, bucket, ops).oplog, row_type, id),
{
    let once = ingest(s, bucket, ops);
    let twice = ingest(once, bucket, ops.skip(from));
    let lv = live_entries(s.oplog);
    lemma_ingest_live_entries(s, bucket, ops);
    lemma_ingest_live_entries(once, bucket, ops.skip(from));
    assert(ops.take(from) + ops.skip(from) =~= ops);
    lemma_live_after_ops_joined(lv, bucket, ops.take(from), ops.skip(from));
    lemma_live_after_ops_twice(live_after_ops(lv, bucket, ops.take(from)), bucket, ops.skip(from));
    lemma_newest_put_live(once.oplog, row_type, id);
    lemma_newest_put_live(twice.oplog, row_type, id);
}

} // verus!
