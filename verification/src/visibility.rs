//! What a local apply leaves in the user tables.
use vstd::prelude::*;
use crate::model::{
    asserts_row, calls_for_row, collect_all, collect_buckets, delete_row, find_row, find_table,
    find_untyped, has_table, materializable, materialize, newest_put, other_rows, other_untyped,
    row_ready, settle_row, settle_rows, stored_row, table_name, uncollected, upsert_row, EntryModel,
    RowModel, StoreModel, TableModel, UntypedRowModel,
};
use crate::seq_facts::{lemma_filter_empty, lemma_filter_push};

verus! {

/// Whether one of the first `n` entries of the log calls for the row.
pub open spec fn called_within(s: StoreModel, n: int, row_type: Seq<char>, id: Seq<char>) -> bool {
    exists|i: int|
        0 <= i < n && i < s.oplog.len() && calls_for_row(s, #[trigger] s.oplog[i])
            && s.oplog[i].row_type == Some(row_type) && s.oplog[i].row_id == Some(id)
}

/// Whether an entry of the log calls for the row: a live entry that is not
/// applied yet names it.
pub open spec fn called_for(s: StoreModel, row_type: Seq<char>, id: Seq<char>) -> bool {
    called_within(s, s.oplog.len() as int, row_type, id)
}

/// The payload that the log gives the row: that of the newest live PUT of
/// any bucket, `None` where no bucket asserts the row.
pub open spec fn asserted_payload(oplog: Seq<EntryModel>, row_type: Seq<char>, id: Seq<char>) -> Option<
    Seq<char>,
> {
    match newest_put(oplog, row_type, id) {
        Some(e) => e.data,
        None => None,
    }
}

/// Two types with the same table are the same type.
pub proof fn lemma_table_name_injective(a: Seq<char>, b: Seq<char>)
    requires
        table_name(a) == table_name(b),
    ensures
        a == b,
{
    let prefix = "ps_data__"@;
    assert(a.len() == b.len()) by {
        assert(table_name(a).len() == prefix.len() + a.len());
        assert(table_name(b).len() == prefix.len() + b.len());
    }
    assert forall|i: int| 0 <= i < a.len() implies a[i] == b[i] by {
        assert(table_name(a)[prefix.len() + i] == a[i]);
        assert(table_name(b)[prefix.len() + i] == b[i]);
    }
    assert(a =~= b);
}

/// A table exists exactly where one is found.
pub proof fn lemma_find_table_has(tables: Seq<TableModel>, name: Seq<char>)
    ensures
        has_table(tables, name) == find_table(tables, name) is Some,
    decreases tables.len(),
{
    if tables.len() > 0 {
        lemma_find_table_has(tables.drop_last(), name);
        if has_table(tables.drop_last(), name) {
            let i = choose|i: int|
                0 <= i < tables.drop_last().len() && (#[trigger] tables.drop_last()[i]).name == name;
            assert(tables[i].name == name);
        }
        if has_table(tables, name) && tables.last().name != name {
            let i = choose|i: int| 0 <= i < tables.len() && (#[trigger] tables[i]).name == name;
            assert(tables.drop_last()[i].name == name);
        }
        if tables.last().name == name {
            assert(tables[tables.len() - 1].name == name);
        }
    }
}

/// In two lists of tables with the same names at the same places, the
/// tables found for a name stand at the same place.
pub proof fn lemma_find_table_pair(a: Seq<TableModel>, b: Seq<TableModel>, name: Seq<char>) -> (i:
    int)
    requires
        a.len() == b.len(),
        forall|k: int| 0 <= k < a.len() ==> (#[trigger] a[k]).name == b[k].name,
    ensures
        find_table(a, name) is Some == find_table(b, name) is Some,
        find_table(a, name) is Some ==> 0 <= i < a.len() && find_table(a, name) == Some(a[i])
            && find_table(b, name) == Some(b[i]) && a[i].name == name,
    decreases a.len(),
{
    if a.len() == 0 {
        0
    } else {
        assert(a[a.len() - 1].name == b[a.len() - 1].name);
        if a.last().name == name {
            a.len() - 1
        } else {
            assert forall|k: int| 0 <= k < a.drop_last().len() implies (
            #[trigger] a.drop_last()[k]).name == b.drop_last()[k].name by {
                assert(a[k].name == b[k].name);
            }
            lemma_find_table_pair(a.drop_last(), b.drop_last(), name)
        }
    }
}

/// Among the rows with another id than `gone`, that id is not found, and
/// every other id is found as before.
pub proof fn lemma_find_row_filtered(rows: Seq<RowModel>, gone: Seq<char>, id: Seq<char>)
    ensures
        find_row(rows.filter(other_rows(gone)), id) == if id == gone {
            None
        } else {
            find_row(rows, id)
        },
    decreases rows.len(),
{
    reveal(Seq::filter);
    if rows.len() > 0 {
        lemma_find_row_filtered(rows.drop_last(), gone, id);
        if other_rows(gone)(rows.last()) {
            let kept = rows.drop_last().filter(other_rows(gone));
            assert(kept.push(rows.last()).drop_last() =~= kept);
        }
    }
}

/// Among the rows of the generic table for another row than the one that
/// left, that row is not found, and every other row is found as before.
pub proof fn lemma_find_untyped_filtered(
    rows: Seq<UntypedRowModel>,
    gone_type: Seq<char>,
    gone: Seq<char>,
    row_type: Seq<char>,
    id: Seq<char>,
)
    ensures
        find_untyped(rows.filter(other_untyped(gone_type, gone)), row_type, id) == if row_type
            == gone_type && id == gone {
            None
        } else {
            find_untyped(rows, row_type, id)
        },
    decreases rows.len(),
{
    reveal(Seq::filter);
    if rows.len() > 0 {
        lemma_find_untyped_filtered(rows.drop_last(), gone_type, gone, row_type, id);
        if other_untyped(gone_type, gone)(rows.last()) {
            let kept = rows.drop_last().filter(other_untyped(gone_type, gone));
            assert(kept.push(rows.last()).drop_last() =~= kept);
        }
    }
}

/// A row that is set is stored with its payload, and every other row is
/// stored as before.
pub proof fn lemma_upsert_row_stored(
    s: StoreModel,
    set_type: Seq<char>,
    set_id: Seq<char>,
    data: Seq<char>,
    row_type: Seq<char>,
    id: Seq<char>,
)
    ensures
        stored_row(upsert_row(s, set_type, set_id, data), row_type, id) == if row_type == set_type
            && id == set_id {
            Some(data)
        } else {
            stored_row(s, row_type, id)
        },
{
    let t = upsert_row(s, set_type, set_id, data);
    lemma_find_table_has(s.tables, table_name(set_type));
    if table_name(row_type) == table_name(set_type) {
        lemma_table_name_injective(row_type, set_type);
    }
    if has_table(s.tables, table_name(set_type)) {
        let i = lemma_find_table_pair(s.tables, t.tables, table_name(row_type));
        if find_table(s.tables, table_name(row_type)) is Some && row_type == set_type {
            let kept = s.tables[i].rows.filter(other_rows(set_id));
            lemma_find_row_filtered(s.tables[i].rows, set_id, id);
            assert(kept.push(RowModel { id: set_id, data }).drop_last() =~= kept);
        }
    } else {
        let kept = s.untyped.filter(other_untyped(set_type, set_id));
        lemma_find_untyped_filtered(s.untyped, set_type, set_id, row_type, id);
        assert(kept.push(UntypedRowModel { row_type: set_type, id: set_id, data }).drop_last()
            =~= kept);
    }
}

/// A row that is deleted is not stored, and every other row is stored as
/// before.
pub proof fn lemma_delete_row_stored(
    s: StoreModel,
    gone_type: Seq<char>,
    gone: Seq<char>,
    row_type: Seq<char>,
    id: Seq<char>,
)
    ensures
        stored_row(delete_row(s, gone_type, gone), row_type, id) == if row_type == gone_type && id
            == gone {
            None
        } else {
            stored_row(s, row_type, id)
        },
{
    let t = delete_row(s, gone_type, gone);
    lemma_find_table_has(s.tables, table_name(gone_type));
    if table_name(row_type) == table_name(gone_type) {
        lemma_table_name_injective(row_type, gone_type);
    }
    if has_table(s.tables, table_name(gone_type)) {
        let i = lemma_find_table_pair(s.tables, t.tables, table_name(row_type));
        if find_table(s.tables, table_name(row_type)) is Some && row_type == gone_type {
            lemma_find_row_filtered(s.tables[i].rows, gone, id);
        }
    } else {
        lemma_find_untyped_filtered(s.untyped, gone_type, gone, row_type, id);
    }
}

/// A row that is settled is stored with the payload that the log gives it,
/// and every other row is stored as before.
pub proof fn lemma_settle_row_stored(
    s: StoreModel,
    set_type: Seq<char>,
    set_id: Seq<char>,
    row_type: Seq<char>,
    id: Seq<char>,
)
    requires
        row_ready(s.oplog, set_type, set_id),
    ensures
        stored_row(settle_row(s, set_type, set_id), row_type, id) == if row_type == set_type && id
            == set_id {
            asserted_payload(s.oplog, row_type, id)
        } else {
            stored_row(s, row_type, id)
        },
{
    match newest_put(s.oplog, set_type, set_id) {
        Some(e) => lemma_upsert_row_stored(s, set_type, set_id, e.data->0, row_type, id),
        None => lemma_delete_row_stored(s, set_type, set_id, row_type, id),
    }
}

/// After the rows are settled that the first `n` entries of the log call
/// for, a row among them is stored with the payload that the log gives it,
/// and every other row is stored as before.
pub proof fn lemma_settle_rows_stored(s: StoreModel, n: int, row_type: Seq<char>, id: Seq<char>)
    requires
        materializable(s),
        n <= s.oplog.len(),
    ensures
        settle_rows(s, n).oplog == s.oplog,
        stored_row(settle_rows(s, n), row_type, id) == if called_within(s, n, row_type, id) {
            asserted_payload(s.oplog, row_type, id)
        } else {
            stored_row(s, row_type, id)
        },
    decreases n,
{
    if n > 0 {
        lemma_settle_rows_stored(s, n - 1, row_type, id);
        let prev = settle_rows(s, n - 1);
        let e = s.oplog[n - 1];
        if calls_for_row(s, e) {
            lemma_settle_row_stored(prev, e.row_type->0, e.row_id->0, row_type, id);
        }
        if called_within(s, n - 1, row_type, id) {
            let i = choose|i: int|
                0 <= i < n - 1 && i < s.oplog.len() && calls_for_row(s, #[trigger] s.oplog[i])
                    && s.oplog[i].row_type == Some(row_type) && s.oplog[i].row_id == Some(id);
            assert(called_within(s, n, row_type, id));
        }
        if called_within(s, n, row_type, id) && !called_within(s, n - 1, row_type, id) {
            let i = choose|i: int|
                0 <= i < n && i < s.oplog.len() && calls_for_row(s, #[trigger] s.oplog[i])
                    && s.oplog[i].row_type == Some(row_type) && s.oplog[i].row_id == Some(id);
            assert(i == n - 1);
        }
        if calls_for_row(s, e) && e.row_type == Some(row_type) && e.row_id == Some(id) {
            assert(called_within(s, n, row_type, id));
        }
    }
}

/// The newest live PUT of a row is found as before in a log that has lost
/// only entries that do not assert the row.
pub proof fn lemma_newest_put_filtered(
    log: Seq<EntryModel>,
    keep: spec_fn(EntryModel) -> bool,
    row_type: Seq<char>,
    id: Seq<char>,
)
    requires
        forall|i: int|
            0 <= i < log.len() && !keep(#[trigger] log[i]) ==> !asserts_row(log[i], row_type, id),
    ensures
        newest_put(log.filter(keep), row_type, id) == newest_put(log, row_type, id),
    decreases log.len(),
{
    if log.len() > 0 {
        let front = log.drop_last();
        assert forall|i: int| 0 <= i < front.len() && !keep(#[trigger] front[i]) implies !asserts_row(
            front[i],
            row_type,
            id,
        ) by {
            assert(front[i] == log[i]);
        }
        lemma_newest_put_filtered(front, keep, row_type, id);
        assert(front.push(log.last()) =~= log);
        lemma_filter_push(front, log.last(), keep);
        assert(!keep(log[log.len() - 1]) ==> !asserts_row(log[log.len() - 1], row_type, id));
        if keep(log.last()) {
            assert(front.filter(keep).push(log.last()).drop_last() =~= front.filter(keep));
        }
    } else {
        lemma_filter_empty(log, keep);
    }
}

/// Garbage collection of the first `n` buckets changes the payload of no
/// row: it removes only entries that assert none.
pub proof fn lemma_collect_buckets_rows(s: StoreModel, n: int, row_type: Seq<char>, id: Seq<char>)
    ensures
        asserted_payload(collect_buckets(s, n).oplog, row_type, id) == asserted_payload(
            s.oplog,
            row_type,
            id,
        ),
    decreases n,
{
    if n > 0 {
        lemma_collect_buckets_rows(s, n - 1, row_type, id);
        let prev = collect_buckets(s, n - 1);
        let b = prev.buckets[n - 1];
        if !b.pending_delete {
            lemma_newest_put_filtered(
                prev.oplog,
                uncollected(b.name, b.last_applied_op),
                row_type,
                id,
            );
        }
    }
}

/// Garbage collection changes the payload of no row.
pub proof fn lemma_collect_all_rows(s: StoreModel, row_type: Seq<char>, id: Seq<char>)
    ensures
        asserted_payload(collect_all(s).oplog, row_type, id) == asserted_payload(
            s.oplog,
            row_type,
            id,
        ),
{
    lemma_collect_buckets_rows(s, s.buckets.len() as int, row_type, id);
}

/// The rows after a local apply. A row that some live entry not yet
/// applied names is stored exactly where a bucket asserts it by a live PUT,
/// and then with the payload of the newest such PUT of all buckets. Every
/// other row is stored as before.
pub proof fn lemma_materialize_rows(
    s: StoreModel,
    timestamp: Seq<char>,
    row_type: Seq<char>,
    id: Seq<char>,
)
    requires
        materializable(s),
    ensures
        stored_row(materialize(s, timestamp), row_type, id) == if called_for(s, row_type, id) {
            asserted_payload(s.oplog, row_type, id)
        } else {
            stored_row(s, row_type, id)
        },
{
    lemma_settle_rows_stored(s, s.oplog.len() as int, row_type, id);
}

} // verus!
