//! Checking that bucket records and a log make a well-formed store.
use vstd::prelude::*;
use crate::model::{
    distinct_buckets, distinct_rows, distinct_tables, distinct_untyped, entries_owned, has_bucket,
    no_moves, one_live_per_key, rivals, same_untyped, EntryKind,
};
use crate::store::{
    buckets_view, entries_view, rows_view, tables_view, text_view, untyped_view, Bucket, OplogEntry,
    Row, UntypedRow, UserTable,
};

verus! {

/// Whether two optional texts are the same.
pub fn same_optional_text(a: &Option<String>, b: &Option<String>) -> (r: bool)
    ensures
        r == (text_view(*a) == text_view(*b)),
{
    match (a, b) {
        (Some(x), Some(y)) => *x == *y,
        (None, None) => true,
        _ => false,
    }
}

/// Whether no two bucket records have the same name.
pub fn has_distinct_buckets(buckets: &Vec<Bucket>) -> (r: bool)
    ensures
        r == distinct_buckets(buckets_view(buckets@)),
{
    let ghost models = buckets_view(buckets@);
    let mut i: usize = 0;
    while i < buckets.len()
        invariant
            models == buckets_view(buckets@),
            0 <= i <= buckets@.len(),
            forall|a: int, b: int|
                0 <= a < b < models.len() && a < i ==> (#[trigger] models[a]).name != (
                #[trigger] models[b]).name,
        decreases buckets@.len() - i,
    {
        let mut j: usize = i + 1;
        while j < buckets.len()
            invariant
                models == buckets_view(buckets@),
                0 <= i < j <= buckets@.len(),
                forall|b: int| i < b < j ==> models[i as int].name != (#[trigger] models[b]).name,
            decreases buckets@.len() - j,
        {
            if buckets[i].name == buckets[j].name {
                assert(models[i as int].name == models[j as int].name);
                return false;
            }
            j += 1;
        }
        i += 1;
    }
    true
}

/// Whether every key of a bucket has at most one live entry.
pub fn has_one_live_per_key(oplog: &Vec<OplogEntry>) -> (r: bool)
    ensures
        r == one_live_per_key(entries_view(oplog@)),
{
    let ghost log = entries_view(oplog@);
    let mut i: usize = 0;
    while i < oplog.len()
        invariant
            log == entries_view(oplog@),
            0 <= i <= oplog@.len(),
            forall|a: int, b: int|
                0 <= a < b < log.len() && a < i ==> !rivals(#[trigger] log[a], #[trigger] log[b]),
        decreases oplog@.len() - i,
    {
        if !oplog[i].superseded && oplog[i].key.is_some() {
            let mut j: usize = i + 1;
            while j < oplog.len()
                invariant
                    log == entries_view(oplog@),
                    0 <= i < j <= oplog@.len(),
                    !oplog@[i as int].superseded,
                    oplog@[i as int].key is Some,
                    forall|b: int| i < b < j ==> !rivals(log[i as int], #[trigger] log[b]),
                decreases oplog@.len() - j,
            {
                if !oplog[j].superseded && oplog[i].bucket == oplog[j].bucket
                    && same_optional_text(&oplog[i].key, &oplog[j].key) {
                    assert(rivals(log[i as int], log[j as int]));
                    return false;
                }
                j += 1;
            }
        }
        i += 1;
    }
    true
}

/// Whether a bucket of that name is recorded.
pub fn is_recorded(buckets: &Vec<Bucket>, name: &String) -> (r: bool)
    ensures
        r == has_bucket(buckets_view(buckets@), name@),
{
    let ghost models = buckets_view(buckets@);
    let mut i: usize = 0;
    while i < buckets.len()
        invariant
            models == buckets_view(buckets@),
            0 <= i <= buckets@.len(),
            forall|j: int| 0 <= j < i ==> (#[trigger] models[j]).name != name@,
        decreases buckets@.len() - i,
    {
        if buckets[i].name == *name {
            assert(models[i as int].name == name@);
            return true;
        }
        i += 1;
    }
    false
}

/// Whether every entry belongs to a recorded bucket and none is a MOVE.
pub fn has_owned_entries(buckets: &Vec<Bucket>, oplog: &Vec<OplogEntry>) -> (r: bool)
    ensures
        r == (entries_owned(buckets_view(buckets@), entries_view(oplog@)) && no_moves(
            entries_view(oplog@),
        )),
{
    let ghost log = entries_view(oplog@);
    let mut i: usize = 0;
    while i < oplog.len()
        invariant
            log == entries_view(oplog@),
            0 <= i <= oplog@.len(),
            forall|j: int|
                0 <= j < i ==> has_bucket(buckets_view(buckets@), (#[trigger] log[j]).bucket)
                    && log[j].kind != EntryKind::Move,
        decreases oplog@.len() - i,
    {
        if oplog[i].kind == EntryKind::Move || !is_recorded(buckets, &oplog[i].bucket) {
            assert(log[i as int].kind == EntryKind::Move || !has_bucket(
                buckets_view(buckets@),
                log[i as int].bucket,
            ));
            return false;
        }
        i += 1;
    }
    true
}

/// Whether no two rows of a table have the same id.
pub fn has_distinct_rows(rows: &Vec<Row>) -> (r: bool)
    ensures
        r == distinct_rows(rows_view(rows@)),
{
    let ghost models = rows_view(rows@);
    let mut i: usize = 0;
    while i < rows.len()
        invariant
            models == rows_view(rows@),
            0 <= i <= rows@.len(),
            forall|a: int, b: int|
                0 <= a < b < models.len() && a < i ==> (#[trigger] models[a]).id != (
                #[trigger] models[b]).id,
        decreases rows@.len() - i,
    {
        let mut j: usize = i + 1;
        while j < rows.len()
            invariant
                models == rows_view(rows@),
                0 <= i < j <= rows@.len(),
                forall|b: int| i < b < j ==> models[i as int].id != (#[trigger] models[b]).id,
            decreases rows@.len() - j,
        {
            if rows[i].id == rows[j].id {
                assert(models[i as int].id == models[j as int].id);
                return false;
            }
            j += 1;
        }
        i += 1;
    }
    true
}

/// Whether no two rows of the generic table have the same type and id.
pub fn has_distinct_untyped(rows: &Vec<UntypedRow>) -> (r: bool)
    ensures
        r == distinct_untyped(untyped_view(rows@)),
{
    let ghost models = untyped_view(rows@);
    let mut i: usize = 0;
    while i < rows.len()
        invariant
            models == untyped_view(rows@),
            0 <= i <= rows@.len(),
            forall|a: int, b: int|
                0 <= a < b < models.len() && a < i ==> !same_untyped(
                    #[trigger] models[a],
                    #[trigger] models[b],
                ),
        decreases rows@.len() - i,
    {
        let mut j: usize = i + 1;
        while j < rows.len()
            invariant
                models == untyped_view(rows@),
                0 <= i < j <= rows@.len(),
                forall|b: int| i < b < j ==> !same_untyped(models[i as int], #[trigger] models[b]),
            decreases rows@.len() - j,
        {
            if rows[i].row_type == rows[j].row_type && rows[i].id == rows[j].id {
                assert(same_untyped(models[i as int], models[j as int]));
                return false;
            }
            j += 1;
        }
        i += 1;
    }
    true
}

/// Whether the user tables respect their keys.
pub fn has_keyed_rows(tables: &Vec<UserTable>, untyped: &Vec<UntypedRow>) -> (r: bool)
    ensures
        r == (distinct_tables(tables_view(tables@)) && (forall|i: int|
            0 <= i < tables@.len() ==> distinct_rows((#[trigger] tables_view(tables@)[i]).rows))
            && distinct_untyped(untyped_view(untyped@))),
{
    let ghost models = tables_view(tables@);
    let mut i: usize = 0;
    while i < tables.len()
        invariant
            models == tables_view(tables@),
            0 <= i <= tables@.len(),
            forall|a: int, b: int|
                0 <= a < b < models.len() && a < i ==> (#[trigger] models[a]).name != (
                #[trigger] models[b]).name,
            forall|a: int| 0 <= a < i ==> distinct_rows((#[trigger] models[a]).rows),
        decreases tables@.len() - i,
    {
        if !has_distinct_rows(&tables[i].rows) {
            assert(!distinct_rows(models[i as int].rows));
            return false;
        }
        let mut j: usize = i + 1;
        while j < tables.len()
            invariant
                models == tables_view(tables@),
                0 <= i < j <= tables@.len(),
                forall|b: int| i < b < j ==> models[i as int].name != (#[trigger] models[b]).name,
            decreases tables@.len() - j,
        {
            if tables[i].name == tables[j].name {
                assert(models[i as int].name == models[j as int].name);
                return false;
            }
            j += 1;
        }
        i += 1;
    }
    has_distinct_untyped(untyped)
}

} // verus!
