//! The local apply: folding the log of all buckets into the user tables.
use vstd::prelude::*;
use vstd::string::StrSliceExecFns;
use crate::error::SyncError;
use crate::invariants::lemma_materialize_well_formed;
use crate::model::{
    applied_of, calls_for_row, can_apply, delete_row, fits_timestamp, is_timestamp, lagging,
    materializable, materialize, newest_put, other_rows, other_untyped, row_ready, settle_rows,
    table_with, table_without, unapplied, upsert_row, BucketModel, EntryKind, EntryModel, RowModel,
    StoreModel, UntypedRowModel,
};
use crate::seq_facts::{lemma_filter_next, lemma_filter_none};
use crate::store::{
    buckets_view, copy_text, entries_view, internal_table_name, rows_view, same_text, table_exists,
    untyped_view, Bucket, OplogEntry, Row, Store, UntypedRow,
};

verus! {

/// Whether a local apply is safe now: no bucket lags behind its target and
/// no local write waits for upload.
pub fn can_update_local(store: &Store) -> (r: Result<bool, SyncError>)
    ensures
        r == Ok::<bool, SyncError>(can_apply(store@)),
{
    let local = "$local".to_owned();
    let mut i: usize = 0;
    while i < store.buckets.len()
        invariant
            0 <= i <= store.buckets@.len(),
            local@ == "$local"@,
            forall|j: int| 0 <= j < i ==> !lagging(#[trigger] store@.buckets[j]),
        decreases store.buckets@.len() - i,
    {
        let b = &store.buckets[i];
        if !(b.name == local) && !b.pending_delete && b.target_op > b.last_op {
            assert(lagging(store@.buckets[i as int]));
            return Ok(false);
        }
        i += 1;
    }
    Ok(store.crud.len() == 0)
}

/// Whether the entry is not applied yet.
fn is_unapplied(buckets: &Vec<Bucket>, e: &OplogEntry) -> (r: bool)
    ensures
        r == unapplied(buckets_view(buckets@), e@),
{
    let ghost models = buckets_view(buckets@);
    let mut i: usize = 0;
    while i < buckets.len()
        invariant
            models == buckets_view(buckets@),
            0 <= i <= buckets@.len(),
            forall|j: int|
                0 <= j < i ==> !((#[trigger] models[j]).name == e@.bucket && e.op_id
                    > models[j].last_applied_op),
        decreases buckets@.len() - i,
    {
        if buckets[i].name == e.bucket && e.op_id > buckets[i].last_applied_op {
            assert(models[i as int].name == e@.bucket);
            return true;
        }
        i += 1;
    }
    false
}

/// Whether the entry calls for its row to be settled.
fn is_calling(buckets: &Vec<Bucket>, e: &OplogEntry) -> (r: bool)
    ensures
        r == (!e.superseded && e@.row_type is Some && e@.row_id is Some && unapplied(
            buckets_view(buckets@),
            e@,
        )),
{
    !e.superseded && e.row_type.is_some() && e.row_id.is_some() && is_unapplied(buckets, e)
}

/// The place in the log of the newest entry that asserts the row.
fn find_newest_put(oplog: &Vec<OplogEntry>, row_type: &String, row_id: &String) -> (r: Option<
    usize,
>)
    ensures
        match r {
            Some(k) => k < oplog@.len() && newest_put(entries_view(oplog@), row_type@, row_id@)
                == Some(oplog@[k as int]@),
            None => newest_put(entries_view(oplog@), row_type@, row_id@) is None,
        },
{
    let ghost log = entries_view(oplog@);
    let mut best: Option<usize> = None;
    let mut i: usize = 0;
    assert(log.take(0) =~= Seq::<EntryModel>::empty());
    while i < oplog.len()
        invariant
            log == entries_view(oplog@),
            0 <= i <= oplog@.len(),
            match best {
                Some(k) => k < i && newest_put(log.take(i as int), row_type@, row_id@) == Some(
                    log[k as int],
                ),
                None => newest_put(log.take(i as int), row_type@, row_id@) is None,
            },
        decreases oplog@.len() - i,
    {
        proof {
            let next = log.take(i + 1);
            assert(next.drop_last() =~= log.take(i as int));
            assert(next.last() == log[i as int]);
        }
        let e = &oplog[i];
        if !e.superseded && e.kind == EntryKind::Put && same_text(&e.row_type, row_type)
            && same_text(&e.row_id, row_id) {
            let newer = match best {
                Some(k) => e.op_id >= oplog[k].op_id,
                None => true,
            };
            if newer {
                best = Some(i);
            }
        }
        i += 1;
    }
    assert(log.take(i as int) =~= log);
    best
}

/// The rows of a table with another id than `id`.
fn rows_without(rows: &Vec<Row>, id: &String) -> (kept: Vec<Row>)
    ensures
        rows_view(kept@) == rows_view(rows@).filter(other_rows(id@)),
{
    let ghost models = rows_view(rows@);
    let mut kept: Vec<Row> = Vec::new();
    let mut i: usize = 0;
    proof {
        lemma_filter_none(models, other_rows(id@));
    }
    while i < rows.len()
        invariant
            models == rows_view(rows@),
            0 <= i <= rows@.len(),
            rows_view(kept@) == models.take(i as int).filter(other_rows(id@)),
        decreases rows@.len() - i,
    {
        proof {
            lemma_filter_next(models, other_rows(id@), i as int);
        }
        if !(rows[i].id == *id) {
            let ghost before = rows_view(kept@);
            kept.push(Row { id: rows[i].id.clone(), data: rows[i].data.clone() });
            assert(rows_view(kept@) =~= before.push(rows@[i as int]@));
        }
        i += 1;
    }
    assert(models.take(i as int) =~= models);
    kept
}

/// The rows of the generic table for another row than that of `row_type`
/// with `id`.
fn untyped_without(rows: &Vec<UntypedRow>, row_type: &String, id: &String) -> (kept: Vec<
    UntypedRow,
>)
    ensures
        untyped_view(kept@) == untyped_view(rows@).filter(other_untyped(row_type@, id@)),
{
    let ghost models = untyped_view(rows@);
    let mut kept: Vec<UntypedRow> = Vec::new();
    let mut i: usize = 0;
    proof {
        lemma_filter_none(models, other_untyped(row_type@, id@));
    }
    while i < rows.len()
        invariant
            models == untyped_view(rows@),
            0 <= i <= rows@.len(),
            untyped_view(kept@) == models.take(i as int).filter(other_untyped(row_type@, id@)),
        decreases rows@.len() - i,
    {
        proof {
            lemma_filter_next(models, other_untyped(row_type@, id@), i as int);
        }
        if !(rows[i].row_type == *row_type && rows[i].id == *id) {
            let ghost before = untyped_view(kept@);
            kept.push(
                UntypedRow {
                    row_type: rows[i].row_type.clone(),
                    id: rows[i].id.clone(),
                    data: rows[i].data.clone(),
                },
            );
            assert(untyped_view(kept@) =~= before.push(rows@[i as int]@));
        }
        i += 1;
    }
    assert(models.take(i as int) =~= models);
    kept
}

/// Sets the row to `data`, or deletes it where there is none.
fn write_row(store: &mut Store, row_type: &String, id: &String, data: Option<&String>)
    ensures
        final(store)@ == match data {
            Some(text) => upsert_row(old(store)@, row_type@, id@, text@),
            None => delete_row(old(store)@, row_type@, id@),
        },
{
    let name = internal_table_name(row_type.as_str());
    if table_exists(&store.tables, &name) {
        let mut i: usize = 0;
        while i < store.tables.len()
            invariant
                store.tables@.len() == old(store).tables@.len(),
                store.buckets == old(store).buckets,
                store.oplog == old(store).oplog,
                store.untyped == old(store).untyped,
                store.crud == old(store).crud,
                store.last_synced_at == old(store).last_synced_at,
                0 <= i <= store.tables@.len(),
                forall|j: int|
                    0 <= j < i ==> (#[trigger] store.tables@[j])@ == match data {
                        Some(text) => table_with(old(store).tables@[j]@, name@, id@, text@),
                        None => table_without(old(store).tables@[j]@, name@, id@),
                    },
                forall|j: int|
                    i <= j < store.tables@.len() ==> store.tables@[j] == old(store).tables@[j],
            decreases store.tables@.len() - i,
        {
            if store.tables[i].name == name {
                let mut rows = rows_without(&store.tables[i].rows, id);
                match data {
                    Some(text) => {
                        let ghost before = rows_view(rows@);
                        rows.push(Row { id: id.clone(), data: text.clone() });
                        assert(rows_view(rows@) =~= before.push(RowModel { id: id@, data: text@ }));
                    },
                    None => {},
                }
                store.tables[i].rows = rows;
            }
            i += 1;
        }
        assert(store@.tables =~= match data {
            Some(text) => upsert_row(old(store)@, row_type@, id@, text@),
            None => delete_row(old(store)@, row_type@, id@),
        }.tables);
    } else {
        let mut rows = untyped_without(&store.untyped, row_type, id);
        match data {
            Some(text) => {
                let ghost before = untyped_view(rows@);
                rows.push(UntypedRow { row_type: row_type.clone(), id: id.clone(), data: text.clone() });
                assert(untyped_view(rows@) =~= before.push(
                    UntypedRowModel { row_type: row_type@, id: id@, data: text@ },
                ));
            },
            None => {},
        }
        store.untyped = rows;
    }
}

/// What a local apply at the time `timestamp` returns: an error for a
/// time that is none, 0 where the apply is not safe, an error where a row
/// cannot be settled, else 1.
pub open spec fn sync_outcome(s: StoreModel, timestamp: Seq<char>) -> Result<i64, SyncError> {
    if !is_timestamp(timestamp) {
        Err(SyncError::MalformedInput)
    } else if !can_apply(s) {
        Ok(0)
    } else if !materializable(s) {
        Err(SyncError::IntegrityAbort)
    } else {
        Ok(1)
    }
}

/// Whether the text is a time of the form `YYYY-MM-DD HH:MM:SS`.
pub fn check_timestamp(text: &str) -> (r: bool)
    ensures
        r == is_timestamp(text@),
{
    if text.unicode_len() != 19 {
        return false;
    }
    let mut i: usize = 0;
    while i < 19
        invariant
            text@.len() == 19,
            0 <= i <= 19,
            forall|j: int| 0 <= j < i ==> fits_timestamp(j, #[trigger] text@[j]),
        decreases 19 - i,
    {
        let c = text.get_char(i);
        let fits = if i == 4 || i == 7 {
            c == '-'
        } else if i == 10 {
            c == ' '
        } else if i == 13 || i == 16 {
            c == ':'
        } else {
            '0' <= c && c <= '9'
        };
        if !fits {
            assert(!fits_timestamp(i as int, text@[i as int]));
            return false;
        }
        i += 1;
    }
    true
}

/// Whether every row that the log calls for can be settled.
fn check_rows(store: &Store) -> (r: bool)
    ensures
        r == materializable(store@),
{
    let ghost s = store@;
    let mut i: usize = 0;
    while i < store.oplog.len()
        invariant
            s == store@,
            0 <= i <= store.oplog@.len(),
            forall|j: int|
                0 <= j < i && calls_for_row(s, #[trigger] s.oplog[j]) ==> row_ready(
                    s.oplog,
                    s.oplog[j].row_type->0,
                    s.oplog[j].row_id->0,
                ),
        decreases store.oplog@.len() - i,
    {
        let e = &store.oplog[i];
        assert(e@ == s.oplog[i as int]);
        if is_calling(&store.buckets, e) {
            match (&e.row_type, &e.row_id) {
                (Some(row_type), Some(row_id)) => {
                    match find_newest_put(&store.oplog, row_type, row_id) {
                        Some(k) => {
                            if store.oplog[k].data.is_none() {
                                assert(!row_ready(s.oplog, row_type@, row_id@));
                                return false;
                            }
                        },
                        None => {},
                    }
                },
                _ => {},
            }
        }
        i += 1;
    }
    true
}

/// Marks every bucket as applied up to its `last_op`.
fn mark_applied(buckets: &mut Vec<Bucket>)
    ensures
        buckets_view(final(buckets)@) == buckets_view(old(buckets)@).map_values(
            |b: BucketModel| applied_of(b),
        ),
{
    let mut i: usize = 0;
    while i < buckets.len()
        invariant
            buckets@.len() == old(buckets)@.len(),
            0 <= i <= buckets@.len(),
            forall|j: int| 0 <= j < i ==> (#[trigger] buckets@[j])@ == applied_of(old(buckets)@[j]@),
            forall|j: int| i <= j < buckets@.len() ==> buckets@[j] == old(buckets)@[j],
        decreases buckets@.len() - i,
    {
        let last: i64 = buckets[i].last_op;
        buckets[i].last_applied_op = last;
        i += 1;
    }
    assert(buckets_view(buckets@) =~= buckets_view(old(buckets)@).map_values(
        |b: BucketModel| applied_of(b),
    ));
}

/// Applies the log to the user tables, if that is safe now.
///
/// `timestamp` is the time of the call, in the form `YYYY-MM-DD HH:MM:SS`;
/// with any other text nothing changes and the input is reported as
/// malformed. Returns 0 and changes nothing where `can_update_local` says
/// no. Else every row that an unapplied live entry names is settled from
/// the live PUT entries of all buckets: deleted where there is none, else
/// set to the payload of the newest. Then every bucket counts as applied up
/// to its `last_op`, the time is recorded, and the result is 1. Where the
/// newest PUT of a row to settle has no payload, nothing changes and the
/// result is an `IntegrityAbort`.
pub fn sync_local(store: &mut Store, timestamp: &str) -> (r: Result<i64, SyncError>)
    requires
        old(store).wf(),
    ensures
        final(store).wf(),
        r == sync_outcome(old(store)@, timestamp@),
        final(store)@ == if r == Ok::<i64, SyncError>(1) {
            materialize(old(store)@, timestamp@)
        } else {
            old(store)@
        },
        r == Ok::<i64, SyncError>(1) ==> forall|i: int|
            0 <= i < final(store)@.buckets.len() ==> (#[trigger] final(store)@.buckets[i])
                .last_applied_op == final(store)@.buckets[i].last_op,
{
    if !check_timestamp(timestamp) {
        return Err(SyncError::MalformedInput);
    }
    match can_update_local(store) {
        Ok(true) => {},
        _ => {
            return Ok(0);
        },
    }
    if !check_rows(store) {
        return Err(SyncError::IntegrityAbort);
    }
    let ghost s = store@;
    proof {
        lemma_materialize_well_formed(s, timestamp@);
    }
    let mut i: usize = 0;
    while i < store.oplog.len()
        invariant
            s == old(store)@,
            materializable(s),
            store@.oplog == s.oplog,
            store@.buckets == s.buckets,
            0 <= i <= store.oplog@.len(),
            store@ == settle_rows(s, i as int),
        decreases store.oplog@.len() - i,
    {
        assert(store.oplog@[i as int]@ == s.oplog[i as int]);
        if is_calling(&store.buckets, &store.oplog[i]) {
            let row_type = copy_text(&store.oplog[i].row_type);
            let row_id = copy_text(&store.oplog[i].row_id);
            match (row_type, row_id) {
                (Some(row_type), Some(row_id)) => {
                    let data = match find_newest_put(&store.oplog, &row_type, &row_id) {
                        Some(k) => copy_text(&store.oplog[k].data),
                        None => None,
                    };
                    assert(row_ready(s.oplog, row_type@, row_id@));
                    write_row(store, &row_type, &row_id, data.as_ref());
                },
                _ => {},
            }
        }
        i += 1;
    }
    mark_applied(&mut store.buckets);
    store.last_synced_at = Some(timestamp.to_owned());
    assert(store@ =~= materialize(s, timestamp@));
    Ok(1)
}

} // verus!
