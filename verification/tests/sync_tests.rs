use sync_core::error::SyncError;
use sync_core::model::{EntryKind, OpKind};
use sync_core::operations::{
    clear_remove_ops, delete_bucket, delete_bucket_as, delete_pending_buckets, ingest_operations,
    insert_bucket_operations,
};
use sync_core::store::{internal_table_name, Operation, Store};
use sync_core::sync_local::{can_update_local, check_timestamp, sync_local};

const NOW: &str = "2024-05-06 07:08:09";

fn put_op(op_id: i64, object_type: &str, object_id: &str, checksum: i32, data: &str) -> Operation {
    Operation {
        op_id,
        op: OpKind::Put,
        object_type: Some(object_type.to_string()),
        object_id: Some(object_id.to_string()),
        checksum,
        data: Some(data.to_string()),
        subkey: None,
        target: None,
    }
}

fn remove_op(op_id: i64, object_type: &str, object_id: &str, checksum: i32) -> Operation {
    Operation {
        op_id,
        op: OpKind::Remove,
        object_type: Some(object_type.to_string()),
        object_id: Some(object_id.to_string()),
        checksum,
        data: None,
        subkey: None,
        target: None,
    }
}

#[test]
fn timestamps_have_one_form() {
    assert!(check_timestamp("2024-05-06 07:08:09"));
    assert!(check_timestamp("0000-00-00 00:00:00"));
    assert!(!check_timestamp(""));
    assert!(!check_timestamp("2024-05-06T07:08:09"));
    assert!(!check_timestamp("2024-05-06 07:08:0"));
    assert!(!check_timestamp("2024-05-06 07:08:099"));
    assert!(!check_timestamp("2024/05/06 07:08:09"));
    assert!(!check_timestamp("2024-05-06 07.08.09"));
    assert!(!check_timestamp("2024-05-0a 07:08:09"));
    assert!(!check_timestamp("٢٠٢٤-05-06 07:08:09"));
}

#[test]
fn sync_local_rejects_a_malformed_time() {
    let mut store = Store::new();
    ingest_operations(&mut store, "a", &vec![put_op(1, "t", "x", 1, "one")]);
    assert_eq!(sync_local(&mut store, "yesterday"), Err(SyncError::MalformedInput));
    assert_eq!(store.row("t", "x"), None);
    assert_eq!(store.bucket("a").unwrap().last_applied_op, 0);
    assert_eq!(store.last_synced_at(), None);
}

#[test]
fn kind_codes() {
    assert_eq!(EntryKind::Move.to_code(), 2);
    assert_eq!(EntryKind::Put.to_code(), 3);
    assert_eq!(EntryKind::Remove.to_code(), 4);
    assert_eq!(EntryKind::from_code(2), Some(EntryKind::Move));
    assert_eq!(EntryKind::from_code(3), Some(EntryKind::Put));
    assert_eq!(EntryKind::from_code(4), Some(EntryKind::Remove));
    assert_eq!(EntryKind::from_code(1), None);
    assert_eq!(EntryKind::from_code(5), None);
}

#[test]
fn table_names_carry_the_prefix() {
    assert_eq!(internal_table_name("lists"), "ps_data__lists");
    assert_eq!(internal_table_name(""), "ps_data__");
}

#[test]
fn put_then_remove_deletes_the_row() {
    let mut store = Store::new();
    store.create_table("t");
    assert_eq!(
        insert_bucket_operations(
            &mut store,
            "b",
            "[{\"op_id\":1,\"op\":\"PUT\",\"object_type\":\"t\",\"object_id\":\"a\",\"checksum\":10,\"data\":\"{\\\"v\\\":1}\"}]",
        ),
        Ok(())
    );
    assert_eq!(sync_local(&mut store, NOW), Ok(1));
    assert_eq!(store.row("t", "a"), Some("{\"v\":1}".to_string()));
    assert_eq!(
        insert_bucket_operations(
            &mut store,
            "b",
            "[{\"op_id\":2,\"op\":\"REMOVE\",\"object_type\":\"t\",\"object_id\":\"a\",\"checksum\":5}]",
        ),
        Ok(())
    );
    assert_eq!(sync_local(&mut store, NOW), Ok(1));
    assert_eq!(store.row("t", "a"), None);
    let live: Vec<_> = store.entries("b").into_iter().filter(|e| !e.superseded).collect();
    assert_eq!(live.len(), 1);
    assert_eq!(live[0].kind, EntryKind::Remove);
    assert_eq!(live[0].op_id, 2);
    assert_eq!(store.checksum("b"), 15);
    // Once the garbage is collected the whole weight sits in `add_checksum`.
    assert_eq!(clear_remove_ops(&mut store), Ok(()));
    assert!(store.entries("b").is_empty());
    assert_eq!(store.bucket("b").unwrap().add_checksum, 15);
    assert_eq!(store.checksum("b"), 15);
}

#[test]
fn put_then_remove_in_one_go() {
    let mut store = Store::new();
    store.create_table("t");
    ingest_operations(&mut store, "b", &vec![put_op(1, "t", "a", 10, "{\"v\":1}")]);
    ingest_operations(&mut store, "b", &vec![remove_op(2, "t", "a", 5)]);
    assert_eq!(sync_local(&mut store, NOW), Ok(1));
    assert_eq!(store.row("t", "a"), None);
    assert_eq!(store.checksum("b"), 15);
}

#[test]
fn a_row_stays_while_one_bucket_asserts_it() {
    let mut store = Store::new();
    store.create_table("t");
    ingest_operations(&mut store, "A", &vec![put_op(1, "t", "a", 1, "{\"v\":1}")]);
    ingest_operations(&mut store, "B", &vec![put_op(2, "t", "a", 2, "{\"v\":2}")]);
    assert_eq!(sync_local(&mut store, NOW), Ok(1));
    assert_eq!(store.row("t", "a"), Some("{\"v\":2}".to_string()));
    ingest_operations(&mut store, "B", &vec![remove_op(3, "t", "a", 3)]);
    assert_eq!(sync_local(&mut store, NOW), Ok(1));
    assert_eq!(store.row("t", "a"), Some("{\"v\":1}".to_string()));
    ingest_operations(&mut store, "A", &vec![remove_op(4, "t", "a", 4)]);
    assert_eq!(sync_local(&mut store, NOW), Ok(1));
    assert_eq!(store.row("t", "a"), None);
}

#[test]
fn rows_without_a_table_go_to_the_generic_table() {
    let mut store = Store::new();
    store.create_table("t");
    ingest_operations(
        &mut store,
        "a",
        &vec![put_op(1, "t", "x", 1, "typed"), put_op(2, "u", "x", 2, "untyped")],
    );
    assert_eq!(sync_local(&mut store, NOW), Ok(1));
    assert_eq!(store.row("t", "x"), Some("typed".to_string()));
    assert_eq!(store.row("u", "x"), Some("untyped".to_string()));
    assert_eq!(store.row("u", "y"), None);
    ingest_operations(&mut store, "a", &vec![put_op(3, "u", "x", 3, "again")]);
    assert_eq!(sync_local(&mut store, NOW), Ok(1));
    assert_eq!(store.row("u", "x"), Some("again".to_string()));
    ingest_operations(&mut store, "a", &vec![remove_op(4, "u", "x", 4)]);
    assert_eq!(sync_local(&mut store, NOW), Ok(1));
    assert_eq!(store.row("u", "x"), None);
    assert_eq!(store.row("t", "x"), Some("typed".to_string()));
}

#[test]
fn sync_local_marks_every_bucket_applied() {
    let mut store = Store::new();
    ingest_operations(&mut store, "a", &vec![put_op(5, "t", "x", 1, "one")]);
    ingest_operations(&mut store, "b", &vec![put_op(9, "t", "y", 2, "two")]);
    assert_eq!(store.last_synced_at(), None);
    assert_eq!(sync_local(&mut store, NOW), Ok(1));
    for b in store.buckets() {
        assert_eq!(b.last_applied_op, b.last_op);
    }
    assert_eq!(store.bucket("a").unwrap().last_applied_op, 5);
    assert_eq!(store.bucket("b").unwrap().last_applied_op, 9);
    assert_eq!(store.last_synced_at(), Some(NOW.to_string()));
}

#[test]
fn sync_local_leaves_applied_rows_alone() {
    let mut store = Store::new();
    ingest_operations(&mut store, "a", &vec![put_op(1, "t", "x", 1, "one")]);
    assert_eq!(sync_local(&mut store, NOW), Ok(1));
    let log = store.oplog();
    assert_eq!(sync_local(&mut store, "2024-05-06 07:08:10"), Ok(1));
    assert_eq!(store.row("t", "x"), Some("one".to_string()));
    assert_eq!(store.oplog(), log);
    assert_eq!(store.last_synced_at(), Some("2024-05-06 07:08:10".to_string()));
}

#[test]
fn pending_local_writes_gate_the_apply() {
    let mut store = Store::new();
    store.create_table("t");
    ingest_operations(&mut store, "a", &vec![put_op(1, "t", "x", 1, "one")]);
    store.queue_crud("{\"op\":\"PATCH\"}");
    assert_eq!(can_update_local(&store), Ok(false));
    assert_eq!(sync_local(&mut store, NOW), Ok(0));
    assert_eq!(store.row("t", "x"), None);
    assert_eq!(store.bucket("a").unwrap().last_applied_op, 0);
    assert_eq!(store.last_synced_at(), None);
    store.clear_crud();
    assert_eq!(can_update_local(&store), Ok(true));
    assert_eq!(sync_local(&mut store, NOW), Ok(1));
    assert_eq!(store.row("t", "x"), Some("one".to_string()));
}

#[test]
fn a_move_raises_the_target_and_gates_the_apply() {
    let mut store = Store::new();
    assert_eq!(
        insert_bucket_operations(
            &mut store,
            "a",
            "[{\"op_id\":5,\"op\":\"MOVE\",\"checksum\":3,\"data\":\"{\\\"target\\\":42}\"}]",
        ),
        Ok(())
    );
    assert!(store.bucket("a").unwrap().target_op >= 42);
    assert_eq!(store.bucket("a").unwrap().target_op, 42);
    assert_eq!(can_update_local(&store), Ok(false));
    assert_eq!(sync_local(&mut store, NOW), Ok(0));
    ingest_operations(&mut store, "a", &vec![put_op(41, "t", "x", 1, "one")]);
    assert_eq!(can_update_local(&store), Ok(false));
    ingest_operations(&mut store, "a", &vec![put_op(42, "t", "y", 1, "two")]);
    assert_eq!(can_update_local(&store), Ok(true));
    assert_eq!(sync_local(&mut store, NOW), Ok(1));
}

#[test]
fn a_lagging_local_bucket_does_not_gate() {
    let mut store = Store::new();
    ingest_operations(
        &mut store,
        "$local",
        &vec![Operation {
            op_id: 1,
            op: OpKind::Move,
            object_type: None,
            object_id: None,
            checksum: 0,
            data: None,
            subkey: None,
            target: Some(100),
        }],
    );
    assert_eq!(store.bucket("$local").unwrap().target_op, 100);
    assert_eq!(can_update_local(&store), Ok(true));
}

#[test]
fn a_put_without_payload_aborts_the_apply() {
    let mut store = Store::new();
    let mut op = put_op(1, "t", "x", 1, "one");
    op.data = None;
    ingest_operations(&mut store, "a", &vec![put_op(1, "t", "w", 1, "fine"), op]);
    assert_eq!(sync_local(&mut store, NOW), Err(SyncError::IntegrityAbort));
    assert_eq!(store.row("t", "w"), None);
    assert_eq!(store.bucket("a").unwrap().last_applied_op, 0);
    assert_eq!(store.last_synced_at(), None);
}

#[test]
fn a_deleted_bucket_drains_through_its_sentinel() {
    let mut store = Store::new();
    store.create_table("t");
    ingest_operations(
        &mut store,
        "a",
        &vec![put_op(1, "t", "x", 10, "one"), put_op(2, "t", "y", 20, "two")],
    );
    assert_eq!(sync_local(&mut store, NOW), Ok(1));
    assert_eq!(store.row("t", "x"), Some("one".to_string()));

    assert_eq!(delete_bucket(&mut store, "a"), Ok(()));
    assert_eq!(store.bucket("a"), None);
    let buckets = store.buckets();
    assert_eq!(buckets.len(), 1);
    let sentinel = buckets[0].clone();
    assert!(sentinel.name.starts_with("$delete_a_"));
    assert_eq!(sentinel.name.chars().count(), "$delete_a_".len() + 36);
    assert!(sentinel.pending_delete);
    assert_eq!(sentinel.last_op, 2);
    assert_eq!(sentinel.last_applied_op, 0);
    let moved = store.entries(&sentinel.name);
    assert_eq!(moved.len(), 2);
    for e in moved.iter() {
        assert_eq!(e.kind, EntryKind::Remove);
        assert_eq!(e.data, None);
        assert!(!e.superseded);
    }
    assert!(store.entries("a").is_empty());

    // Not drained yet: nothing is reaped.
    assert_eq!(delete_pending_buckets(&mut store), Ok(()));
    assert_eq!(store.buckets().len(), 1);

    assert_eq!(sync_local(&mut store, NOW), Ok(1));
    assert_eq!(store.row("t", "x"), None);
    assert_eq!(store.row("t", "y"), None);

    assert_eq!(delete_pending_buckets(&mut store), Ok(()));
    assert!(store.buckets().is_empty());
    assert!(store.oplog().is_empty());
}

#[test]
fn two_deletions_of_one_name_get_two_sentinels() {
    let mut store = Store::new();
    ingest_operations(&mut store, "a", &vec![put_op(1, "t", "x", 10, "one")]);
    assert_eq!(delete_bucket(&mut store, "a"), Ok(()));
    ingest_operations(&mut store, "a", &vec![put_op(1, "t", "x", 10, "one")]);
    assert_eq!(delete_bucket(&mut store, "a"), Ok(()));
    let buckets = store.buckets();
    assert_eq!(buckets.len(), 2);
    assert_ne!(buckets[0].name, buckets[1].name);
}

#[test]
fn delete_bucket_as_moves_the_entries() {
    let mut store = Store::new();
    ingest_operations(&mut store, "a", &vec![put_op(1, "t", "x", 10, "one")]);
    ingest_operations(
        &mut store,
        "a",
        &vec![put_op(7, "t", "x", 20, "two"), remove_op(8, "t", "y", 30)],
    );
    ingest_operations(&mut store, "b", &vec![put_op(3, "t", "x", 40, "three")]);
    assert_eq!(delete_bucket_as(&mut store, "a", "gone"), Ok(()));
    let moved = store.entries("gone");
    assert_eq!(moved.len(), 3);
    assert!(moved[0].superseded);
    assert_eq!(moved[0].hash, 10);
    assert_eq!((moved[1].kind, moved[1].superseded, moved[1].op_id), (EntryKind::Remove, false, 7));
    assert_eq!(moved[1].data, None);
    assert_eq!((moved[2].kind, moved[2].superseded, moved[2].op_id), (EntryKind::Remove, false, 8));
    let sentinel = store.bucket("gone").unwrap();
    assert!(sentinel.pending_delete);
    assert_eq!(sentinel.last_op, 8);
    assert_eq!(sentinel.add_checksum, 0);
    assert_eq!(sentinel.target_op, 0);
    assert_eq!(store.entries("b").len(), 1);
    assert_eq!(store.entries("b")[0].kind, EntryKind::Put);
    assert_eq!(store.bucket("a"), None);
}

#[test]
fn delete_bucket_as_of_an_unknown_bucket_records_the_sentinel() {
    let mut store = Store::new();
    assert_eq!(delete_bucket_as(&mut store, "a", "gone"), Ok(()));
    let sentinel = store.bucket("gone").unwrap();
    assert!(sentinel.pending_delete);
    assert_eq!(sentinel.last_op, 0);
}

#[test]
fn delete_bucket_as_refuses_a_taken_sentinel() {
    let mut store = Store::new();
    ingest_operations(&mut store, "a", &vec![put_op(1, "t", "x", 10, "one")]);
    ingest_operations(&mut store, "b", &vec![put_op(1, "t", "y", 10, "two")]);
    let log = store.oplog();
    let buckets = store.buckets();
    assert_eq!(
        delete_bucket_as(&mut store, "a", "b"),
        Err(SyncError::StorageError { code: 19 })
    );
    assert_eq!(store.oplog(), log);
    assert_eq!(store.buckets(), buckets);
}

#[test]
fn delete_pending_buckets_waits_for_the_target() {
    let mut store = Store::new();
    ingest_operations(&mut store, "a", &vec![put_op(1, "t", "x", 10, "one")]);
    ingest_operations(&mut store, "keep", &vec![put_op(1, "t", "y", 10, "two")]);
    assert_eq!(delete_bucket_as(&mut store, "a", "gone"), Ok(()));
    assert_eq!(sync_local(&mut store, NOW), Ok(1));
    assert_eq!(delete_pending_buckets(&mut store), Ok(()));
    assert_eq!(store.bucket("gone"), None);
    assert!(store.bucket("keep").is_some());
    assert_eq!(store.entries("keep").len(), 1);
    for b in store.buckets() {
        assert!(!(b.pending_delete && b.last_applied_op == b.last_op && b.last_op >= b.target_op));
    }
}

#[test]
fn clear_remove_ops_collects_applied_garbage_only() {
    let mut store = Store::new();
    ingest_operations(&mut store, "a", &vec![put_op(1, "t", "x", 10, "one")]);
    ingest_operations(&mut store, "a", &vec![put_op(2, "t", "x", 20, "two"), remove_op(3, "t", "y", 30)]);
    assert_eq!(sync_local(&mut store, NOW), Ok(1));
    ingest_operations(&mut store, "a", &vec![remove_op(4, "t", "z", 40)]);
    ingest_operations(&mut store, "b", &vec![remove_op(1, "t", "x", 50)]);
    assert_eq!(delete_bucket_as(&mut store, "b", "gone"), Ok(()));
    let sum = store.checksum("a");
    assert_eq!(sum, 100);
    assert_eq!(clear_remove_ops(&mut store), Ok(()));
    let left = store.entries("a");
    assert_eq!(left.len(), 2);
    assert_eq!((left[0].op_id, left[0].kind), (2, EntryKind::Put));
    assert_eq!((left[1].op_id, left[1].kind), (4, EntryKind::Remove));
    assert_eq!(store.bucket("a").unwrap().add_checksum, 40);
    assert_eq!(store.checksum("a"), sum);
    // A bucket that waits for deletion is not collected.
    assert_eq!(store.entries("gone").len(), 1);
}
