//! The store as it is held in memory, and its view as a model.
use vstd::prelude::*;
use vstd::string::StringExecFns;
use crate::checksum::{checksum_add, lemma_wrap32_absorb, lemma_wrap32_fits, wrap32};
use crate::error::SyncError;
use crate::model::{
    bucket_checksum, empty_store, find_bucket, find_row, find_table, find_untyped, has_table,
    hash_total, in_bucket, stored_row, table_name, well_formed, with_table, BucketModel, EntryKind,
    EntryModel, OperationModel, OpKind, PacketModel, RowModel, StoreModel, TableModel,
    UntypedRowModel,
};
use crate::seq_facts::{lemma_filter_next, lemma_filter_none};
use crate::validate::{
    has_distinct_buckets, has_keyed_rows, has_one_live_per_key, has_owned_entries,
};

verus! {

/// One operation of a batch, as decoded.
#[derive(Clone, Debug, PartialEq, Eq)]
pub struct Operation {
    pub op_id: i64,
    pub op: OpKind,
    pub object_type: Option<String>,
    pub object_id: Option<String>,
    pub checksum: i32,
    pub data: Option<String>,
    pub subkey: Option<String>,
    /// The horizon that the payload of a MOVE announces, if it announces one.
    pub target: Option<i64>,
}

/// The operations that a batch carries for one bucket.
#[derive(Clone, Debug, PartialEq, Eq)]
pub struct BucketPacket {
    pub bucket: String,
    pub operations: Vec<Operation>,
}

/// One entry of the operation log.
#[derive(Clone, Debug, PartialEq, Eq)]
pub struct OplogEntry {
    pub bucket: String,
    pub op_id: i64,
    pub kind: EntryKind,
    pub key: Option<String>,
    pub row_type: Option<String>,
    pub row_id: Option<String>,
    pub data: Option<String>,
    pub hash: i32,
    pub superseded: bool,
}

/// The record kept for one bucket.
#[derive(Clone, Debug, PartialEq, Eq)]
pub struct Bucket {
    pub name: String,
    pub last_op: i64,
    pub last_applied_op: i64,
    pub target_op: i64,
    pub add_checksum: i32,
    pub pending_delete: bool,
}

/// One row of a typed user table.
#[derive(Clone, Debug, PartialEq, Eq)]
pub struct Row {
    pub id: String,
    pub data: String,
}

/// A typed user table.
#[derive(Clone, Debug, PartialEq, Eq)]
pub struct UserTable {
    pub name: String,
    pub rows: Vec<Row>,
}

/// One row of the generic table.
#[derive(Clone, Debug, PartialEq, Eq)]
pub struct UntypedRow {
    pub row_type: String,
    pub id: String,
    pub data: String,
}

/// The view of an optional text.
pub open spec fn text_view(t: Option<String>) -> Option<Seq<char>> {
    match t {
        Some(s) => Some(s@),
        None => None,
    }
}

impl View for Operation {
    type V = OperationModel;

    open spec fn view(&self) -> OperationModel {
        OperationModel {
            op_id: self.op_id,
            op: self.op,
            object_type: text_view(self.object_type),
            object_id: text_view(self.object_id),
            checksum: self.checksum,
            data: text_view(self.data),
            subkey: text_view(self.subkey),
            target: self.target,
        }
    }
}

impl View for OplogEntry {
    type V = EntryModel;

    open spec fn view(&self) -> EntryModel {
        EntryModel {
            bucket: self.bucket@,
            op_id: self.op_id,
            kind: self.kind,
            key: text_view(self.key),
            row_type: text_view(self.row_type),
            row_id: text_view(self.row_id),
            data: text_view(self.data),
            hash: self.hash,
            superseded: self.superseded,
        }
    }
}

impl View for Bucket {
    type V = BucketModel;

    open spec fn view(&self) -> BucketModel {
        BucketModel {
            name: self.name@,
            last_op: self.last_op,
            last_applied_op: self.last_applied_op,
            target_op: self.target_op,
            add_checksum: self.add_checksum,
            pending_delete: self.pending_delete,
        }
    }
}

impl View for Row {
    type V = RowModel;

    open spec fn view(&self) -> RowModel {
        RowModel { id: self.id@, data: self.data@ }
    }
}

/// The models of the rows of a table.
pub open spec fn rows_view(rows: Seq<Row>) -> Seq<RowModel> {
    Seq::new(rows.len(), |i: int| rows[i]@)
}

impl View for UserTable {
    type V = TableModel;

    open spec fn view(&self) -> TableModel {
        TableModel { name: self.name@, rows: rows_view(self.rows@) }
    }
}

/// The models of the user tables.
pub open spec fn tables_view(tables: Seq<UserTable>) -> Seq<TableModel> {
    Seq::new(tables.len(), |i: int| tables[i]@)
}

impl View for UntypedRow {
    type V = UntypedRowModel;

    open spec fn view(&self) -> UntypedRowModel {
        UntypedRowModel { row_type: self.row_type@, id: self.id@, data: self.data@ }
    }
}

/// The models of the rows of the generic table.
pub open spec fn untyped_view(rows: Seq<UntypedRow>) -> Seq<UntypedRowModel> {
    Seq::new(rows.len(), |i: int| rows[i]@)
}

/// The views of a list of texts.
pub open spec fn texts_view(texts: Seq<String>) -> Seq<Seq<char>> {
    Seq::new(texts.len(), |i: int| texts[i]@)
}

/// The models of the entries of a log.
pub open spec fn entries_view(entries: Seq<OplogEntry>) -> Seq<EntryModel> {
    Seq::new(entries.len(), |i: int| entries[i]@)
}

/// The models of bucket records.
pub open spec fn buckets_view(buckets: Seq<Bucket>) -> Seq<BucketModel> {
    Seq::new(buckets.len(), |i: int| buckets[i]@)
}

/// The models of the operations of a batch.
pub open spec fn operations_view(ops: Seq<Operation>) -> Seq<OperationModel> {
    Seq::new(ops.len(), |i: int| ops[i]@)
}

impl View for BucketPacket {
    type V = PacketModel;

    open spec fn view(&self) -> PacketModel {
        PacketModel { bucket: self.bucket@, operations: operations_view(self.operations@) }
    }
}

/// The models of the packets of a batch.
pub open spec fn packets_view(packets: Seq<BucketPacket>) -> Seq<PacketModel> {
    Seq::new(packets.len(), |i: int| packets[i]@)
}

/// The store: bucket records, the operation log, the user tables and the
/// queue of local writes.
pub struct Store {
    pub(crate) buckets: Vec<Bucket>,
    pub(crate) oplog: Vec<OplogEntry>,
    pub(crate) tables: Vec<UserTable>,
    pub(crate) untyped: Vec<UntypedRow>,
    pub(crate) crud: Vec<String>,
    pub(crate) last_synced_at: Option<String>,
}

impl Store {
    /// The store as a model.
    pub open(crate) spec fn view(&self) -> StoreModel {
        StoreModel {
            buckets: buckets_view(self.buckets@),
            oplog: entries_view(self.oplog@),
            tables: tables_view(self.tables@),
            untyped: untyped_view(self.untyped@),
            crud: texts_view(self.crud@),
            last_synced_at: text_view(self.last_synced_at),
        }
    }
}

/// The name of the table that holds the rows of a type.
pub fn internal_table_name(row_type: &str) -> (name: String)
    ensures
        name@ == table_name(row_type@),
{
    let mut name = "ps_data__".to_owned();
    name.append(row_type);
    name
}

/// Whether a table of that name exists.
pub fn table_exists(tables: &Vec<UserTable>, name: &String) -> (r: bool)
    ensures
        r == has_table(tables_view(tables@), name@),
{
    let ghost models = tables_view(tables@);
    let mut i: usize = 0;
    while i < tables.len()
        invariant
            models == tables_view(tables@),
            0 <= i <= tables@.len(),
            forall|j: int| 0 <= j < i ==> (#[trigger] models[j]).name != name@,
        decreases tables@.len() - i,
    {
        if tables[i].name == *name {
            assert(models[i as int].name == name@);
            return true;
        }
        i += 1;
    }
    false
}

/// A copy of an optional text.
pub fn copy_text(t: &Option<String>) -> (r: Option<String>)
    ensures
        text_view(r) == text_view(*t),
{
    match t {
        Some(s) => Some(s.clone()),
        None => None,
    }
}

/// Whether an optional text is there and the same as `b`.
pub fn same_text(a: &Option<String>, b: &String) -> (r: bool)
    ensures
        r == (text_view(*a) == Some(b@)),
{
    match a {
        Some(s) => *s == *b,
        None => false,
    }
}

/// A copy of a log entry.
pub fn copy_entry(e: &OplogEntry) -> (r: OplogEntry)
    ensures
        r@ == e@,
{
    OplogEntry {
        bucket: e.bucket.clone(),
        op_id: e.op_id,
        kind: e.kind,
        key: copy_text(&e.key),
        row_type: copy_text(&e.row_type),
        row_id: copy_text(&e.row_id),
        data: copy_text(&e.data),
        hash: e.hash,
        superseded: e.superseded,
    }
}

/// A copy of a bucket record.
pub fn copy_bucket(b: &Bucket) -> (r: Bucket)
    ensures
        r@ == b@,
{
    Bucket {
        name: b.name.clone(),
        last_op: b.last_op,
        last_applied_op: b.last_applied_op,
        target_op: b.target_op,
        add_checksum: b.add_checksum,
        pending_delete: b.pending_delete,
    }
}

impl Store {
    /// Whether the store is well-formed: bucket names are distinct, every
    /// key of a bucket has at most one live entry, every entry belongs to
    /// a recorded bucket, no MOVE entry is left in the log, and the user
    /// tables respect their keys.
    pub open(crate) spec fn wf(&self) -> bool {
        well_formed(self@)
    }

    /// A store without anything in it.
    pub fn new() -> (store: Store)
        ensures
            store@ == empty_store(),
            store.wf(),
    {
        let store = Store {
            buckets: Vec::new(),
            oplog: Vec::new(),
            tables: Vec::new(),
            untyped: Vec::new(),
            crud: Vec::new(),
            last_synced_at: None,
        };
        assert(store@ =~= empty_store());
        store
    }

    /// A store made of its parts, as they were read from a database. Where
    /// they do not make a well-formed store, the result is an
    /// `IntegrityAbort`.
    pub fn from_parts(
        buckets: Vec<Bucket>,
        oplog: Vec<OplogEntry>,
        tables: Vec<UserTable>,
        untyped: Vec<UntypedRow>,
        crud: Vec<String>,
        last_synced_at: Option<String>,
    ) -> (r: Result<Store, SyncError>)
        ensures
            match r {
                Ok(store) => store.wf() && store@ == (StoreModel {
                    buckets: buckets_view(buckets@),
                    oplog: entries_view(oplog@),
                    tables: tables_view(tables@),
                    untyped: untyped_view(untyped@),
                    crud: texts_view(crud@),
                    last_synced_at: text_view(last_synced_at),
                }),
                Err(e) => e == SyncError::IntegrityAbort && !well_formed(
                    StoreModel {
                        buckets: buckets_view(buckets@),
                        oplog: entries_view(oplog@),
                        tables: tables_view(tables@),
                        untyped: untyped_view(untyped@),
                        crud: texts_view(crud@),
                        last_synced_at: text_view(last_synced_at),
                    },
                ),
            },
    {
        if has_distinct_buckets(&buckets) && has_one_live_per_key(&oplog) && has_owned_entries(
            &buckets,
            &oplog,
        ) && has_keyed_rows(&tables, &untyped) {
            Ok(Store { buckets, oplog, tables, untyped, crud, last_synced_at })
        } else {
            Err(SyncError::IntegrityAbort)
        }
    }

    /// The user tables with their rows.
    pub fn tables(&self) -> (r: Vec<UserTable>)
        ensures
            tables_view(r@) == self@.tables,
    {
        let mut out: Vec<UserTable> = Vec::new();
        let mut i: usize = 0;
        while i < self.tables.len()
            invariant
                0 <= i <= self.tables@.len(),
                out@.len() == i,
                forall|j: int| 0 <= j < i ==> (#[trigger] out@[j])@ == self.tables@[j]@,
            decreases self.tables@.len() - i,
        {
            let source = &self.tables[i].rows;
            let mut rows: Vec<Row> = Vec::new();
            let mut k: usize = 0;
            while k < source.len()
                invariant
                    0 <= k <= source@.len(),
                    rows@.len() == k,
                    forall|j: int| 0 <= j < k ==> (#[trigger] rows@[j])@ == source@[j]@,
                decreases source@.len() - k,
            {
                rows.push(Row { id: source[k].id.clone(), data: source[k].data.clone() });
                k += 1;
            }
            assert(rows_view(rows@) =~= rows_view(source@));
            out.push(UserTable { name: self.tables[i].name.clone(), rows });
            i += 1;
        }
        assert(tables_view(out@) =~= self@.tables);
        out
    }

    /// The rows of the generic table.
    pub fn untyped(&self) -> (r: Vec<UntypedRow>)
        ensures
            untyped_view(r@) == self@.untyped,
    {
        let mut out: Vec<UntypedRow> = Vec::new();
        let mut i: usize = 0;
        while i < self.untyped.len()
            invariant
                0 <= i <= self.untyped@.len(),
                out@.len() == i,
                forall|j: int| 0 <= j < i ==> (#[trigger] out@[j])@ == self.untyped@[j]@,
            decreases self.untyped@.len() - i,
        {
            out.push(
                UntypedRow {
                    row_type: self.untyped[i].row_type.clone(),
                    id: self.untyped[i].id.clone(),
                    data: self.untyped[i].data.clone(),
                },
            );
            i += 1;
        }
        assert(untyped_view(out@) =~= self@.untyped);
        out
    }

    /// Creates the table for the rows of `row_type`, unless there is one.
    pub fn create_table(&mut self, row_type: &str)
        requires
            old(self).wf(),
        ensures
            final(self)@ == with_table(old(self)@, row_type@),
            final(self).wf(),
    {
        let name = internal_table_name(row_type);
        if !table_exists(&self.tables, &name) {
            let table = UserTable { name, rows: Vec::new() };
            assert(table@.rows =~= Seq::<RowModel>::empty());
            assert(table@ == TableModel { name: table_name(row_type@), rows: Seq::empty() });
            self.tables.push(table);
            assert(self@.tables =~= with_table(old(self)@, row_type@).tables);
        }
    }

    /// Puts a local write into the queue of those that wait for upload.
    pub fn queue_crud(&mut self, entry: &str)
        requires
            old(self).wf(),
        ensures
            final(self)@ == (StoreModel { crud: old(self)@.crud.push(entry@), ..old(self)@ }),
            final(self).wf(),
    {
        self.crud.push(entry.to_owned());
        assert(self@.crud =~= old(self)@.crud.push(entry@));
    }

    /// Empties the queue of local writes: they are uploaded.
    pub fn clear_crud(&mut self)
        requires
            old(self).wf(),
        ensures
            final(self)@ == (StoreModel { crud: Seq::empty(), ..old(self)@ }),
            final(self).wf(),
    {
        self.crud = Vec::new();
        assert(self@.crud =~= Seq::<Seq<char>>::empty());
    }

    /// The record of the bucket `name`.
    pub fn bucket(&self, name: &str) -> (r: Option<Bucket>)
        ensures
            match r {
                Some(b) => find_bucket(self@.buckets, name@) == Some(b@),
                None => find_bucket(self@.buckets, name@) is None,
            },
    {
        let ghost models = self@.buckets;
        let wanted = name.to_owned();
        let mut found: Option<usize> = None;
        let mut i: usize = 0;
        assert(models.take(0) =~= Seq::<BucketModel>::empty());
        while i < self.buckets.len()
            invariant
                models == buckets_view(self.buckets@),
                wanted@ == name@,
                0 <= i <= self.buckets@.len(),
                match found {
                    Some(k) => k < i && find_bucket(models.take(i as int), name@) == Some(
                        models[k as int],
                    ),
                    None => find_bucket(models.take(i as int), name@) is None,
                },
            decreases self.buckets@.len() - i,
        {
            proof {
                let next = models.take(i + 1);
                assert(next.drop_last() =~= models.take(i as int));
                assert(next.last() == models[i as int]);
            }
            if self.buckets[i].name == wanted {
                found = Some(i);
            }
            i += 1;
        }
        assert(models.take(i as int) =~= models);
        match found {
            Some(k) => Some(copy_bucket(&self.buckets[k])),
            None => None,
        }
    }

    /// The records of all buckets.
    pub fn buckets(&self) -> (r: Vec<Bucket>)
        ensures
            buckets_view(r@) == self@.buckets,
    {
        let mut out: Vec<Bucket> = Vec::new();
        let mut i: usize = 0;
        while i < self.buckets.len()
            invariant
                0 <= i <= self.buckets@.len(),
                out@.len() == i,
                forall|j: int| 0 <= j < i ==> (#[trigger] out@[j])@ == self.buckets@[j]@,
            decreases self.buckets@.len() - i,
        {
            out.push(copy_bucket(&self.buckets[i]));
            i += 1;
        }
        assert(buckets_view(out@) =~= self@.buckets);
        out
    }

    /// The entries of the log, in the order in which they were added.
    pub fn oplog(&self) -> (r: Vec<OplogEntry>)
        ensures
            entries_view(r@) == self@.oplog,
    {
        let mut out: Vec<OplogEntry> = Vec::new();
        let mut i: usize = 0;
        while i < self.oplog.len()
            invariant
                0 <= i <= self.oplog@.len(),
                out@.len() == i,
                forall|j: int| 0 <= j < i ==> (#[trigger] out@[j])@ == self.oplog@[j]@,
            decreases self.oplog@.len() - i,
        {
            out.push(copy_entry(&self.oplog[i]));
            i += 1;
        }
        assert(entries_view(out@) =~= self@.oplog);
        out
    }

    /// The entries of the bucket `name`, in the order in which they were
    /// added.
    pub fn entries(&self, name: &str) -> (r: Vec<OplogEntry>)
        ensures
            entries_view(r@) == self@.oplog.filter(in_bucket(name@)),
    {
        let ghost log = self@.oplog;
        let wanted = name.to_owned();
        let mut out: Vec<OplogEntry> = Vec::new();
        let mut i: usize = 0;
        proof {
            lemma_filter_none(log, in_bucket(name@));
        }
        while i < self.oplog.len()
            invariant
                log == entries_view(self.oplog@),
                wanted@ == name@,
                0 <= i <= self.oplog@.len(),
                entries_view(out@) == log.take(i as int).filter(in_bucket(name@)),
            decreases self.oplog@.len() - i,
        {
            proof {
                lemma_filter_next(log, in_bucket(name@), i as int);
            }
            if self.oplog[i].bucket == wanted {
                let ghost before = entries_view(out@);
                out.push(copy_entry(&self.oplog[i]));
                assert(entries_view(out@) =~= before.push(self.oplog@[i as int]@));
            }
            i += 1;
        }
        assert(log.take(i as int) =~= log);
        out
    }

    /// The checksum that the store holds for the bucket `name`:
    /// `add_checksum` and the hashes of its entries, added with wrap-around.
    pub fn checksum(&self, name: &str) -> (sum: i32)
        ensures
            sum == bucket_checksum(self@, name@),
    {
        let ghost log = self@.oplog;
        let wanted = name.to_owned();
        let base: i32 = match self.bucket(name) {
            Some(b) => b.add_checksum,
            None => 0,
        };
        let mut sum: i32 = base;
        let mut i: usize = 0;
        proof {
            lemma_wrap32_fits(base as int);
            assert(log.take(0) =~= Seq::<EntryModel>::empty());
        }
        while i < self.oplog.len()
            invariant
                log == entries_view(self.oplog@),
                wanted@ == name@,
                0 <= i <= self.oplog@.len(),
                sum == wrap32(base + hash_total(log.take(i as int), in_bucket(name@))),
            decreases self.oplog@.len() - i,
        {
            proof {
                let next = log.take(i + 1);
                assert(next.drop_last() =~= log.take(i as int));
                assert(next.last() == log[i as int]);
                lemma_wrap32_absorb(
                    base + hash_total(log.take(i as int), in_bucket(name@)),
                    self.oplog@[i as int].hash as int,
                );
            }
            if self.oplog[i].bucket == wanted {
                sum = checksum_add(sum, self.oplog[i].hash);
            }
            i += 1;
        }
        assert(log.take(i as int) =~= log);
        sum
    }

    /// The payload of the row of `row_type` with the id `id`, as the user
    /// tables hold it.
    pub fn row(&self, row_type: &str, id: &str) -> (r: Option<String>)
        ensures
            text_view(r) == stored_row(self@, row_type@, id@),
    {
        let name = internal_table_name(row_type);
        let wanted_type = row_type.to_owned();
        let wanted = id.to_owned();
        let ghost tables = self@.tables;
        let mut table: Option<usize> = None;
        let mut i: usize = 0;
        assert(tables.take(0) =~= Seq::<TableModel>::empty());
        while i < self.tables.len()
            invariant
                tables == tables_view(self.tables@),
                0 <= i <= self.tables@.len(),
                match table {
                    Some(k) => k < i && find_table(tables.take(i as int), name@) == Some(
                        tables[k as int],
                    ),
                    None => find_table(tables.take(i as int), name@) is None,
                },
            decreases self.tables@.len() - i,
        {
            proof {
                let next = tables.take(i + 1);
                assert(next.drop_last() =~= tables.take(i as int));
                assert(next.last() == tables[i as int]);
            }
            if self.tables[i].name == name {
                table = Some(i);
            }
            i += 1;
        }
        assert(tables.take(i as int) =~= tables);
        match table {
            Some(k) => {
                let rows = &self.tables[k].rows;
                let ghost models = rows_view(rows@);
                let mut found: Option<usize> = None;
                let mut j: usize = 0;
                assert(models.take(0) =~= Seq::<RowModel>::empty());
                while j < rows.len()
                    invariant
                        models == rows_view(rows@),
                        wanted@ == id@,
                        0 <= j <= rows@.len(),
                        match found {
                            Some(m) => m < j && find_row(models.take(j as int), id@) == Some(
                                rows@[m as int].data@,
                            ),
                            None => find_row(models.take(j as int), id@) is None,
                        },
                    decreases rows@.len() - j,
                {
                    proof {
                        let next = models.take(j + 1);
                        assert(next.drop_last() =~= models.take(j as int));
                        assert(next.last() == models[j as int]);
                    }
                    if rows[j].id == wanted {
                        found = Some(j);
                    }
                    j += 1;
                }
                assert(models.take(j as int) =~= models);
                match found {
                    Some(m) => Some(rows[m].data.clone()),
                    None => None,
                }
            },
            None => {
                let rows = &self.untyped;
                let ghost models = untyped_view(rows@);
                let mut found: Option<usize> = None;
                let mut j: usize = 0;
                assert(models.take(0) =~= Seq::<UntypedRowModel>::empty());
                while j < rows.len()
                    invariant
                        models == untyped_view(rows@),
                        wanted@ == id@,
                        wanted_type@ == row_type@,
                        0 <= j <= rows@.len(),
                        match found {
                            Some(m) => m < j && find_untyped(
                                models.take(j as int),
                                row_type@,
                                id@,
                            ) == Some(rows@[m as int].data@),
                            None => find_untyped(models.take(j as int), row_type@, id@) is None,
                        },
                    decreases rows@.len() - j,
                {
                    proof {
                        let next = models.take(j + 1);
                        assert(next.drop_last() =~= models.take(j as int));
                        assert(next.last() == models[j as int]);
                    }
                    if rows[j].row_type == wanted_type && rows[j].id == wanted {
                        found = Some(j);
                    }
                    j += 1;
                }
                assert(models.take(j as int) =~= models);
                match found {
                    Some(m) => Some(rows[m].data.clone()),
                    None => None,
                }
            },
        }
    }

    /// The time of the last local apply.
    pub fn last_synced_at(&self) -> (r: Option<String>)
        ensures
            text_view(r) == self@.last_synced_at,
    {
        copy_text(&self.last_synced_at)
    }
}

} // verus!
