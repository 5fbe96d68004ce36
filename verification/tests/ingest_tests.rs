use sync_core::checksum::checksum_add;
use sync_core::decode::{decode_batch, decode_envelope, decode_kind, decode_target, fold_checksum};
use sync_core::error::SyncError;
use sync_core::json::is_json;
use sync_core::model::{EntryKind, OpKind};
use sync_core::operations::{
    compose_key, ingest_operations, ingest_packets, insert_bucket_operations, insert_operation,
    stream_operation,
};
use sync_core::store::{BucketPacket, Operation, Store, UntypedRow};

fn put(op_id: i64, object_type: &str, object_id: &str, checksum: i32, data: &str) -> Operation {
    Operation {
        op_id,
        op: OpKind::Put,
        object_type: Some(object_type.to_string()),
        object_id: Some(object_id.to_string()),
        checksum,
        data: Some(data.to_string()),
        subkey: None,
        target: None,
    }
}

fn remove(op_id: i64, object_type: &str, object_id: &str, checksum: i32) -> Operation {
    Operation {
        op_id,
        op: OpKind::Remove,
        object_type: Some(object_type.to_string()),
        object_id: Some(object_id.to_string()),
        checksum,
        data: None,
        subkey: None,
        target: None,
    }
}

fn bare(op_id: i64, op: OpKind, checksum: i32, target: Option<i64>) -> Operation {
    Operation {
        op_id,
        op,
        object_type: None,
        object_id: None,
        checksum,
        data: None,
        subkey: None,
        target,
    }
}

#[test]
fn checksum_add_wraps_around() {
    assert_eq!(checksum_add(i32::MAX, 1), i32::MIN);
    assert_eq!(checksum_add(10, 5), 15);
    assert_eq!(checksum_add(i32::MIN, -1), i32::MAX);
    assert_eq!(checksum_add(-7, 7), 0);
}

#[test]
fn fold_checksum_wraps_into_32_bits() {
    assert_eq!(fold_checksum(0), 0);
    assert_eq!(fold_checksum(15), 15);
    assert_eq!(fold_checksum(-15), -15);
    assert_eq!(fold_checksum(2147483647), i32::MAX);
    assert_eq!(fold_checksum(2147483648), i32::MIN);
    assert_eq!(fold_checksum(4294967295), -1);
    assert_eq!(fold_checksum(4294967296), 0);
    assert_eq!(fold_checksum(-2147483649), i32::MAX);
    assert_eq!(fold_checksum(i64::MAX), -1);
    assert_eq!(fold_checksum(i64::MIN), 0);
}

#[test]
fn is_json_accepts_documents_only() {
    assert!(is_json("{\"a\": [1, 2, null]}"));
    assert!(is_json("3"));
    assert!(!is_json("{\"a\": "));
    assert!(!is_json(""));
}

#[test]
fn stream_operation_validates_the_line() {
    assert_eq!(stream_operation("{\"checkpoint_complete\":{\"last_op_id\":\"7\"}}"), Ok(()));
    assert_eq!(stream_operation("{\"checkpoint_complete\":"), Err(SyncError::MalformedInput));
}

#[test]
fn key_joins_type_id_and_subkey() {
    let mut op = put(1, "lists", "abc", 0, "{}");
    assert_eq!(compose_key(&op), Some("lists/abc/null".to_string()));
    op.subkey = Some("s1".to_string());
    assert_eq!(compose_key(&op), Some("lists/abc/s1".to_string()));
    op.object_id = None;
    assert_eq!(compose_key(&op), None);
}

#[test]
fn decode_kind_knows_the_four_names() {
    assert_eq!(decode_kind("PUT"), OpKind::Put);
    assert_eq!(decode_kind("REMOVE"), OpKind::Remove);
    assert_eq!(decode_kind("MOVE"), OpKind::Move);
    assert_eq!(decode_kind("CLEAR"), OpKind::Clear);
    assert_eq!(decode_kind("put"), OpKind::Other);
    assert_eq!(decode_kind(""), OpKind::Other);
}

#[test]
fn decode_target_reads_the_integer_member() {
    assert_eq!(decode_target(&Some("{\"target\":42}".to_string())), Some(42));
    assert_eq!(decode_target(&Some("{\"target\":\"42\"}".to_string())), None);
    assert_eq!(decode_target(&Some("{\"other\":42}".to_string())), None);
    assert_eq!(decode_target(&Some("[42]".to_string())), None);
    assert_eq!(decode_target(&Some("not json".to_string())), None);
    assert_eq!(decode_target(&None), None);
}

#[test]
fn decode_batch_reads_every_member() {
    let ops = decode_batch(
        "[{\"op_id\":1,\"op\":\"PUT\",\"object_type\":\"t\",\"object_id\":\"a\",\"checksum\":10,\"data\":\"{\\\"v\\\":1}\",\"subkey\":\"k\"},\
          {\"op_id\":2,\"op\":\"REMOVE\",\"object_type\":\"t\",\"object_id\":\"a\",\"checksum\":4294967295,\"data\":null},\
          {\"op_id\":3,\"op\":\"MOVE\",\"checksum\":-3,\"data\":\"{\\\"target\\\":42}\"},\
          {\"op_id\":4,\"op\":\"CLEAR\",\"checksum\":7},\
          {\"op_id\":5,\"op\":\"NOOP\",\"checksum\":0}]",
    )
    .unwrap();
    assert_eq!(ops.len(), 5);
    assert_eq!(
        ops[0],
        Operation {
            op_id: 1,
            op: OpKind::Put,
            object_type: Some("t".to_string()),
            object_id: Some("a".to_string()),
            checksum: 10,
            data: Some("{\"v\":1}".to_string()),
            subkey: Some("k".to_string()),
            target: None,
        }
    );
    assert_eq!(ops[1], remove(2, "t", "a", -1));
    assert_eq!(
        ops[2],
        Operation {
            op_id: 3,
            op: OpKind::Move,
            object_type: None,
            object_id: None,
            checksum: -3,
            data: Some("{\"target\":42}".to_string()),
            subkey: None,
            target: Some(42),
        }
    );
    assert_eq!(ops[3], bare(4, OpKind::Clear, 7, None));
    assert_eq!(ops[4], bare(5, OpKind::Other, 0, None));
}

#[test]
fn decode_batch_of_an_empty_array_is_empty() {
    assert_eq!(decode_batch("[]"), Ok(vec![]));
}

#[test]
fn decode_batch_rejects_malformed_input() {
    assert_eq!(decode_batch("[{\"op_id\":1"), Err(SyncError::MalformedInput));
    assert_eq!(decode_batch("{\"op_id\":1}"), Err(SyncError::MalformedInput));
    assert_eq!(decode_batch("[{\"op\":\"PUT\",\"checksum\":1}]"), Err(SyncError::MalformedInput));
    assert_eq!(decode_batch("[{\"op_id\":1,\"checksum\":1}]"), Err(SyncError::MalformedInput));
    assert_eq!(decode_batch("[{\"op_id\":1,\"op\":\"PUT\"}]"), Err(SyncError::MalformedInput));
    assert_eq!(
        decode_batch("[{\"op_id\":\"1\",\"op\":\"PUT\",\"checksum\":1}]"),
        Err(SyncError::MalformedInput)
    );
    assert_eq!(
        decode_batch("[{\"op_id\":1,\"op\":\"PUT\",\"checksum\":1.5}]"),
        Err(SyncError::MalformedInput)
    );
    assert_eq!(
        decode_batch("[{\"op_id\":1,\"op\":\"PUT\",\"checksum\":1,\"object_type\":5}]"),
        Err(SyncError::MalformedInput)
    );
    assert_eq!(decode_batch("[3]"), Err(SyncError::MalformedInput));
}

#[test]
fn decode_envelope_reads_both_forms_of_data() {
    let packets = decode_envelope(
        "{\"buckets\":[\
           {\"bucket\":\"a\",\"data\":[{\"op_id\":1,\"op\":\"MOVE\",\"checksum\":3}],\"has_more\":false,\"after\":\"0\",\"next_after\":\"1\"},\
           {\"bucket\":\"b\",\"data\":\"[{\\\"op_id\\\":2,\\\"op\\\":\\\"CLEAR\\\",\\\"checksum\\\":4}]\"}]}",
    )
    .unwrap();
    assert_eq!(
        packets,
        vec![
            BucketPacket { bucket: "a".to_string(), operations: vec![bare(1, OpKind::Move, 3, None)] },
            BucketPacket { bucket: "b".to_string(), operations: vec![bare(2, OpKind::Clear, 4, None)] },
        ]
    );
}

#[test]
fn decode_envelope_rejects_malformed_input() {
    assert_eq!(decode_envelope("{"), Err(SyncError::MalformedInput));
    assert_eq!(decode_envelope("{}"), Err(SyncError::MalformedInput));
    assert_eq!(decode_envelope("{\"buckets\":{}}"), Err(SyncError::MalformedInput));
    assert_eq!(decode_envelope("{\"buckets\":[{\"data\":[]}]}"), Err(SyncError::MalformedInput));
    assert_eq!(decode_envelope("{\"buckets\":[{\"bucket\":\"a\"}]}"), Err(SyncError::MalformedInput));
    assert_eq!(
        decode_envelope("{\"buckets\":[{\"bucket\":\"a\",\"data\":7}]}"),
        Err(SyncError::MalformedInput)
    );
    assert_eq!(
        decode_envelope("{\"buckets\":[{\"bucket\":\"a\",\"data\":\"[\"}]}"),
        Err(SyncError::MalformedInput)
    );
    assert_eq!(decode_envelope("{\"buckets\":[]}"), Ok(vec![]));
}

#[test]
fn a_new_store_is_empty() {
    let store = Store::new();
    assert!(store.buckets().is_empty());
    assert!(store.oplog().is_empty());
    assert_eq!(store.bucket("a"), None);
    assert_eq!(store.row("t", "a"), None);
    assert_eq!(store.last_synced_at(), None);
    assert_eq!(store.checksum("a"), 0);
}

#[test]
fn an_empty_batch_only_records_the_bucket() {
    let mut store = Store::new();
    ingest_operations(&mut store, "a", &vec![]);
    let b = store.bucket("a").unwrap();
    assert_eq!((b.last_op, b.last_applied_op, b.target_op, b.add_checksum), (0, 0, 0, 0));
    assert!(!b.pending_delete);
    assert!(store.oplog().is_empty());
    ingest_operations(&mut store, "a", &vec![]);
    assert_eq!(store.buckets().len(), 1);
}

#[test]
fn put_adds_a_live_entry() {
    let mut store = Store::new();
    ingest_operations(&mut store, "a", &vec![put(7, "t", "x", 10, "{\"v\":1}")]);
    let log = store.oplog();
    assert_eq!(log.len(), 1);
    assert_eq!(log[0].bucket, "a");
    assert_eq!(log[0].op_id, 7);
    assert_eq!(log[0].kind, EntryKind::Put);
    assert_eq!(log[0].key, Some("t/x/null".to_string()));
    assert_eq!(log[0].row_type, Some("t".to_string()));
    assert_eq!(log[0].row_id, Some("x".to_string()));
    assert_eq!(log[0].data, Some("{\"v\":1}".to_string()));
    assert_eq!(log[0].hash, 10);
    assert!(!log[0].superseded);
    assert_eq!(store.bucket("a").unwrap().last_op, 7);
    assert_eq!(store.bucket("a").unwrap().add_checksum, 0);
    assert_eq!(store.checksum("a"), 10);
}

#[test]
fn a_later_batch_supersedes_and_keeps_the_old_entry() {
    let mut store = Store::new();
    ingest_operations(&mut store, "a", &vec![put(1, "t", "x", 10, "one")]);
    ingest_operations(&mut store, "a", &vec![put(2, "t", "x", 20, "two")]);
    let log = store.oplog();
    assert_eq!(log.len(), 2);
    assert!(log[0].superseded);
    assert_eq!(log[0].kind, EntryKind::Remove);
    assert_eq!(log[0].data, None);
    assert_eq!(log[0].hash, 10);
    assert!(!log[1].superseded);
    assert_eq!(log[1].data, Some("two".to_string()));
    assert_eq!(store.bucket("a").unwrap().add_checksum, 0);
    assert_eq!(store.checksum("a"), 30);
}

#[test]
fn supersession_within_a_batch_is_compacted() {
    let mut store = Store::new();
    ingest_operations(
        &mut store,
        "a",
        &vec![put(1, "t", "x", 10, "one"), put(2, "t", "x", 20, "two"), remove(3, "t", "y", 5)],
    );
    let log = store.oplog();
    assert_eq!(log.len(), 2);
    assert_eq!(log[0].op_id, 2);
    assert_eq!(log[1].op_id, 3);
    assert_eq!(log[1].kind, EntryKind::Remove);
    assert_eq!(log[1].data, None);
    let b = store.bucket("a").unwrap();
    assert_eq!(b.add_checksum, 10);
    assert_eq!(b.last_op, 3);
    assert_eq!(store.checksum("a"), 35);
}

#[test]
fn subkeys_keep_entries_of_one_row_apart() {
    let mut store = Store::new();
    let mut first = put(1, "t", "x", 1, "one");
    first.subkey = Some("p".to_string());
    let mut second = put(2, "t", "x", 2, "two");
    second.subkey = Some("q".to_string());
    ingest_operations(&mut store, "a", &vec![first, second]);
    let log = store.oplog();
    assert_eq!(log.len(), 2);
    assert!(!log[0].superseded && !log[1].superseded);
    assert_eq!(log[0].key, Some("t/x/p".to_string()));
    assert_eq!(log[1].key, Some("t/x/q".to_string()));
}

#[test]
fn the_same_key_in_two_buckets_does_not_supersede() {
    let mut store = Store::new();
    ingest_operations(&mut store, "a", &vec![put(1, "t", "x", 1, "one")]);
    ingest_operations(&mut store, "b", &vec![put(2, "t", "x", 2, "two")]);
    let log = store.oplog();
    assert_eq!(log.len(), 2);
    assert!(!log[0].superseded && !log[1].superseded);
}

#[test]
fn an_operation_without_a_row_has_no_key() {
    let mut store = Store::new();
    let mut op = put(1, "t", "x", 4, "one");
    op.object_id = None;
    ingest_operations(&mut store, "a", &vec![op.clone()]);
    ingest_operations(&mut store, "a", &vec![Operation { op_id: 2, ..op }]);
    let log = store.oplog();
    assert_eq!(log.len(), 2);
    assert_eq!(log[0].key, None);
    assert_eq!(log[0].row_type, None);
    assert_eq!(log[0].row_id, None);
    assert!(!log[0].superseded && !log[1].superseded);
}

#[test]
fn remove_stores_no_payload() {
    let mut store = Store::new();
    let mut op = remove(1, "t", "x", 4);
    op.data = Some("ignored".to_string());
    ingest_operations(&mut store, "a", &vec![op]);
    assert_eq!(store.oplog()[0].data, None);
    assert_eq!(store.oplog()[0].kind, EntryKind::Remove);
}

#[test]
fn move_leaves_weight_and_target_but_no_entry() {
    let mut store = Store::new();
    ingest_operations(&mut store, "a", &vec![bare(5, OpKind::Move, 9, Some(42))]);
    assert!(store.oplog().is_empty());
    let b = store.bucket("a").unwrap();
    assert_eq!(b.add_checksum, 9);
    assert_eq!(b.target_op, 42);
    assert_eq!(b.last_op, 5);
    ingest_operations(&mut store, "a", &vec![bare(6, OpKind::Move, 1, Some(40))]);
    let b = store.bucket("a").unwrap();
    assert_eq!(b.target_op, 42);
    assert_eq!(b.add_checksum, 10);
    ingest_operations(&mut store, "a", &vec![bare(7, OpKind::Move, 0, None)]);
    assert_eq!(store.bucket("a").unwrap().target_op, 42);
}

#[test]
fn an_unknown_kind_only_counts_for_the_id_range() {
    let mut store = Store::new();
    ingest_operations(&mut store, "a", &vec![bare(9, OpKind::Other, 100, None)]);
    assert!(store.oplog().is_empty());
    let b = store.bucket("a").unwrap();
    assert_eq!(b.last_op, 9);
    assert_eq!(b.add_checksum, 0);
}

#[test]
fn last_op_is_the_greatest_id_of_the_batch() {
    let mut store = Store::new();
    ingest_operations(
        &mut store,
        "a",
        &vec![put(5, "t", "x", 1, "one"), put(9, "t", "y", 2, "two"), put(3, "t", "x", 4, "three")],
    );
    assert_eq!(store.bucket("a").unwrap().last_op, 9);
    // The entry of id 5 was superseded by that of id 3 and lies in 3..=9.
    assert_eq!(store.oplog().len(), 2);
    assert_eq!(store.bucket("a").unwrap().add_checksum, 1);
}

#[test]
fn checksums_wrap_around_in_compaction() {
    let mut store = Store::new();
    ingest_operations(
        &mut store,
        "a",
        &vec![bare(1, OpKind::Move, i32::MAX, None), bare(2, OpKind::Move, 1, None)],
    );
    assert_eq!(store.bucket("a").unwrap().add_checksum, i32::MIN);
    assert_eq!(store.checksum("a"), i32::MIN);
}

#[test]
fn clear_rewrites_the_bucket_and_resets_it() {
    let mut store = Store::new();
    store.create_table("t");
    ingest_operations(
        &mut store,
        "a",
        &vec![put(1, "t", "a", 10, "{\"v\":1}"), put(2, "t", "b", 20, "{\"v\":2}")],
    );
    assert_eq!(sync_core::sync_local::sync_local(&mut store, "2024-01-01 00:00:00"), Ok(1));
    assert_eq!(store.row("t", "a"), Some("{\"v\":1}".to_string()));
    assert_eq!(store.row("t", "b"), Some("{\"v\":2}".to_string()));
    assert_eq!(store.bucket("a").unwrap().last_applied_op, 2);

    ingest_operations(&mut store, "a", &vec![bare(3, OpKind::Clear, 7, None)]);
    let log = store.oplog();
    assert_eq!(log.len(), 2);
    for e in log.iter() {
        assert_eq!(e.kind, EntryKind::Remove);
        assert_eq!(e.hash, 0);
        assert_eq!(e.data, None);
        assert!(!e.superseded);
    }
    let b = store.bucket("a").unwrap();
    assert_eq!(b.add_checksum, 7);
    assert_eq!(b.last_applied_op, 0);
    assert_eq!(b.last_op, 3);
    assert_eq!(store.checksum("a"), 7);

    assert_eq!(sync_core::sync_local::sync_local(&mut store, "2024-01-01 00:00:01"), Ok(1));
    assert_eq!(store.row("t", "a"), None);
    assert_eq!(store.row("t", "b"), None);
}

#[test]
fn clear_twice_is_clear_once() {
    let mut once = Store::new();
    let mut twice = Store::new();
    let setup = vec![put(1, "t", "a", 10, "one"), put(2, "t", "b", 20, "two")];
    ingest_operations(&mut once, "a", &setup);
    ingest_operations(&mut twice, "a", &setup);
    let clear = vec![bare(3, OpKind::Clear, 7, None)];
    ingest_operations(&mut once, "a", &clear);
    ingest_operations(&mut twice, "a", &clear);
    ingest_operations(&mut twice, "a", &clear);
    assert_eq!(once.oplog(), twice.oplog());
    assert_eq!(once.buckets(), twice.buckets());

    let mut double = Store::new();
    ingest_operations(&mut double, "a", &setup);
    ingest_operations(
        &mut double,
        "a",
        &vec![bare(3, OpKind::Clear, 7, None), bare(3, OpKind::Clear, 7, None)],
    );
    assert_eq!(once.oplog(), double.oplog());
    assert_eq!(once.buckets(), double.buckets());
}

#[test]
fn clear_leaves_other_buckets_alone() {
    let mut store = Store::new();
    ingest_operations(&mut store, "a", &vec![put(1, "t", "x", 10, "one")]);
    ingest_operations(&mut store, "b", &vec![put(1, "t", "x", 20, "two")]);
    ingest_operations(&mut store, "a", &vec![bare(2, OpKind::Clear, 7, None)]);
    assert_eq!(store.checksum("a"), 7);
    assert_eq!(store.checksum("b"), 20);
    assert_eq!(store.entries("b")[0].kind, EntryKind::Put);
    assert_eq!(store.entries("a")[0].kind, EntryKind::Remove);
}

#[test]
fn a_move_before_a_clear_in_one_batch_is_carried_over() {
    let mut store = Store::new();
    ingest_operations(
        &mut store,
        "a",
        &vec![bare(1, OpKind::Move, 3, None), bare(2, OpKind::Clear, 7, None)],
    );
    assert_eq!(store.checksum("a"), 10);
}

#[test]
fn the_checksum_follows_the_server() {
    let mut store = Store::new();
    let mut expected: i32 = 0;
    let batches = vec![
        vec![put(1, "t", "a", 1000, "one"), put(2, "t", "b", -7, "two")],
        vec![remove(3, "t", "a", i32::MAX), bare(4, OpKind::Move, 12, None)],
        vec![put(5, "t", "a", 99, "three"), put(6, "t", "a", i32::MAX, "four")],
    ];
    for batch in batches.iter() {
        ingest_operations(&mut store, "a", batch);
        for op in batch.iter() {
            expected = expected.wrapping_add(op.checksum);
        }
        assert_eq!(store.checksum("a"), expected);
    }
    ingest_operations(&mut store, "a", &vec![bare(7, OpKind::Clear, 5, None), put(8, "t", "c", 6, "x")]);
    assert_eq!(store.checksum("a"), 11);
}

#[test]
fn at_most_one_live_entry_per_key() {
    let mut store = Store::new();
    for round in 0..4i64 {
        ingest_operations(
            &mut store,
            "a",
            &vec![
                put(round * 3 + 1, "t", "x", 1, "one"),
                remove(round * 3 + 2, "t", "y", 2),
                put(round * 3 + 3, "t", "x", 3, "two"),
            ],
        );
    }
    let log = store.oplog();
    for key in ["t/x/null", "t/y/null"] {
        let live = log
            .iter()
            .filter(|e| !e.superseded && e.key.as_deref() == Some(key))
            .count();
        assert_eq!(live, 1);
    }
}

#[test]
fn a_redelivered_suffix_keeps_the_live_entries() {
    let mut store = Store::new();
    let batch = vec![
        put(1, "t", "a", 10, "one"),
        put(2, "t", "b", 20, "two"),
        remove(3, "t", "a", 30),
        put(4, "t", "c", 40, "three"),
    ];
    ingest_operations(&mut store, "a", &batch);
    let before: Vec<_> = store.oplog().into_iter().filter(|e| !e.superseded).collect();
    let sum = store.checksum("a");
    ingest_operations(&mut store, "a", &batch[2..].to_vec());
    let after: Vec<_> = store.oplog().into_iter().filter(|e| !e.superseded).collect();
    assert_eq!(after.len(), 3);
    assert_eq!(after, before);
    // The weight of the suffix is counted once more.
    assert_eq!(store.checksum("a"), sum + 30 + 40);
    assert_eq!(store.bucket("a").unwrap().last_op, 4);
}

#[test]
fn insert_bucket_operations_decodes_and_ingests() {
    let mut store = Store::new();
    assert_eq!(
        insert_bucket_operations(
            &mut store,
            "a",
            "[{\"op_id\":1,\"op\":\"PUT\",\"object_type\":\"t\",\"object_id\":\"a\",\"checksum\":10,\"data\":\"{\\\"v\\\":1}\"}]",
        ),
        Ok(())
    );
    let log = store.oplog();
    assert_eq!(log.len(), 1);
    assert_eq!(log[0].key, Some("t/a/null".to_string()));
    assert_eq!(log[0].data, Some("{\"v\":1}".to_string()));
    assert_eq!(log[0].hash, 10);
}

#[test]
fn insert_bucket_operations_rejects_without_a_change() {
    let mut store = Store::new();
    ingest_operations(&mut store, "a", &vec![put(1, "t", "x", 10, "one")]);
    let log = store.oplog();
    let buckets = store.buckets();
    assert_eq!(
        insert_bucket_operations(&mut store, "b", "[{\"op_id\":2,\"op\":\"PUT\"}]"),
        Err(SyncError::MalformedInput)
    );
    assert_eq!(insert_bucket_operations(&mut store, "b", "nonsense"), Err(SyncError::MalformedInput));
    assert_eq!(store.oplog(), log);
    assert_eq!(store.buckets(), buckets);
}

#[test]
fn insert_operation_dispatches_to_each_bucket() {
    let mut store = Store::new();
    assert_eq!(
        insert_operation(
            &mut store,
            "{\"buckets\":[\
               {\"bucket\":\"a\",\"data\":[{\"op_id\":1,\"op\":\"PUT\",\"object_type\":\"t\",\"object_id\":\"x\",\"checksum\":1,\"data\":\"one\"}],\"has_more\":true},\
               {\"bucket\":\"b\",\"data\":\"[{\\\"op_id\\\":4,\\\"op\\\":\\\"PUT\\\",\\\"object_type\\\":\\\"t\\\",\\\"object_id\\\":\\\"y\\\",\\\"checksum\\\":2,\\\"data\\\":\\\"two\\\"}]\"}]}",
        ),
        Ok(())
    );
    assert_eq!(store.entries("a").len(), 1);
    assert_eq!(store.entries("b").len(), 1);
    assert_eq!(store.bucket("a").unwrap().last_op, 1);
    assert_eq!(store.bucket("b").unwrap().last_op, 4);
    assert_eq!(store.entries("b")[0].data, Some("two".to_string()));
}

#[test]
fn insert_operation_rejects_without_a_change() {
    let mut store = Store::new();
    assert_eq!(
        insert_operation(
            &mut store,
            "{\"buckets\":[{\"bucket\":\"a\",\"data\":[{\"op_id\":1,\"op\":\"MOVE\",\"checksum\":1}]},{\"bucket\":\"b\"}]}",
        ),
        Err(SyncError::MalformedInput)
    );
    assert!(store.buckets().is_empty());
    assert_eq!(insert_operation(&mut store, "[]"), Err(SyncError::MalformedInput));
}

#[test]
fn ingest_packets_takes_the_packets_in_order() {
    let mut store = Store::new();
    ingest_packets(
        &mut store,
        &vec![
            BucketPacket { bucket: "a".to_string(), operations: vec![put(1, "t", "x", 1, "one")] },
            BucketPacket { bucket: "a".to_string(), operations: vec![put(2, "t", "x", 2, "two")] },
        ],
    );
    let log = store.oplog();
    assert_eq!(log.len(), 2);
    assert!(log[0].superseded);
    assert!(!log[1].superseded);
}

#[test]
fn from_parts_checks_the_parts() {
    let mut store = Store::new();
    store.create_table("t");
    ingest_operations(&mut store, "a", &vec![put(1, "t", "x", 10, "one")]);
    ingest_operations(&mut store, "a", &vec![put(2, "t", "x", 20, "two")]);
    assert_eq!(sync_core::sync_local::sync_local(&mut store, "2024-01-01 00:00:00"), Ok(1));
    let copy = Store::from_parts(
        store.buckets(),
        store.oplog(),
        store.tables(),
        store.untyped(),
        vec![],
        store.last_synced_at(),
    )
    .ok()
    .unwrap();
    assert_eq!(copy.oplog(), store.oplog());
    assert_eq!(copy.buckets(), store.buckets());
    assert_eq!(copy.row("t", "x"), Some("two".to_string()));
    assert_eq!(copy.tables(), store.tables());
    assert_eq!(copy.last_synced_at(), Some("2024-01-01 00:00:00".to_string()));

    // Two live entries under one key.
    let mut log = store.oplog();
    log[0].superseded = false;
    assert!(Store::from_parts(store.buckets(), log, vec![], vec![], vec![], None).is_err());
    // An entry of a bucket that is not recorded.
    assert!(Store::from_parts(vec![], store.oplog(), vec![], vec![], vec![], None).is_err());
    // Two records of one bucket.
    let mut buckets = store.buckets();
    buckets.push(buckets[0].clone());
    assert!(Store::from_parts(buckets, store.oplog(), vec![], vec![], vec![], None).is_err());
    // Two rows of one id in a table, and two tables of one name.
    let mut tables = store.tables();
    let row = tables[0].rows[0].clone();
    tables[0].rows.push(row);
    assert!(Store::from_parts(vec![], vec![], tables, vec![], vec![], None).is_err());
    let mut tables = store.tables();
    tables.push(tables[0].clone());
    assert!(Store::from_parts(vec![], vec![], tables, vec![], vec![], None).is_err());
    // Two rows of one type and id in the generic table.
    let untyped = vec![
        UntypedRow { row_type: "u".to_string(), id: "x".to_string(), data: "one".to_string() },
        UntypedRow { row_type: "u".to_string(), id: "y".to_string(), data: "two".to_string() },
        UntypedRow { row_type: "v".to_string(), id: "x".to_string(), data: "three".to_string() },
    ];
    let kept = Store::from_parts(vec![], vec![], vec![], untyped.clone(), vec![], None).ok().unwrap();
    assert_eq!(kept.row("v", "x"), Some("three".to_string()));
    assert_eq!(kept.untyped(), untyped);
    let mut twice = untyped.clone();
    twice.push(untyped[1].clone());
    assert!(Store::from_parts(vec![], vec![], vec![], twice, vec![], None).is_err());
    // A MOVE entry at rest.
    let mut log = store.oplog();
    log[0].kind = EntryKind::Move;
    assert!(Store::from_parts(store.buckets(), log, vec![], vec![], vec![], None).is_err());
}

#[test]
fn error_messages() {
    assert_eq!(SyncError::MalformedInput.message(), "malformed input");
    assert_eq!(SyncError::IntegrityAbort.message(), "integrity check failed");
    assert_eq!(SyncError::StorageError { code: 19 }.message(), "storage error");
}
