use cliper::errors::CliperError;
use cliper::store::{Database, NewItem};

fn text_item_named(text: &[u8], path: Option<String>) -> NewItem {
    NewItem {
        kind: "text".into(),
        size: text.len() as i64,
        sha256: Database::compute_sha256(text),
        file_path: path,
        content_blob: None,
        preview_blob: None,
        rtf_blob: None,
    }
}

#[test]
fn dedup_same_key_returns_same_id_and_no_second_row() {
    let mut db = Database::new();
    let id1 = db.insert_item(text_item_named(b"dup me", None)).unwrap();
    let id2 = db.insert_item(text_item_named(b"dup me", None)).unwrap();
    assert_eq!(id1, id2);
    assert_eq!(db.list_recent(100).unwrap().len(), 1);
}

#[test]
fn dedup_distinguishes_file_path() {
    let mut db = Database::new();
    let mut a = text_item_named(b"same bytes", None);
    a.kind = "file".into();
    a.file_path = Some("/tmp/a".into());
    let mut b = text_item_named(b"same bytes", None);
    b.kind = "file".into();
    b.file_path = Some("/tmp/b".into());
    let id_a = db.insert_item(a).unwrap();
    let id_b = db.insert_item(b).unwrap();
    assert_ne!(id_a, id_b);
    assert_eq!(db.list_recent(100).unwrap().len(), 2);
}

#[test]
fn dedup_treats_absent_path_as_empty() {
    let mut db = Database::new();
    let with_none = text_item_named(b"norm", None);
    let mut with_empty = text_item_named(b"norm", None);
    with_empty.file_path = Some("".into());
    let id1 = db.insert_item(with_none).unwrap();
    let id2 = db.insert_item(with_empty).unwrap();
    assert_eq!(id1, id2);
    assert_eq!(db.list_recent(100).unwrap().len(), 1);
}

#[test]
fn dedup_distinguishes_kind() {
    let mut db = Database::new();
    let t = text_item_named(b"payload", None);
    let mut i = text_item_named(b"payload", None);
    i.kind = "image".into();
    let id_t = db.insert_item(t).unwrap();
    let id_i = db.insert_item(i).unwrap();
    assert_ne!(id_t, id_i);
}

#[test]
fn find_by_hash_kind_path_returns_newest_match() {
    let mut db = Database::new();
    let id = db.insert_item(text_item_named(b"findable", None)).unwrap();
    let sha = Database::compute_sha256(b"findable");
    let found = db.find_by_hash_kind_path(&sha, "text", None).unwrap();
    assert_eq!(found, Some(id));
    let missing = db
        .find_by_hash_kind_path(&sha, "image", None)
        .unwrap();
    assert_eq!(missing, None);
}

#[test]
fn list_recent_orders_pinned_then_newest() {
    let mut db = Database::new();
    let mut ids = Vec::new();
    for i in 0..5u8 {
        let body = vec![i; 4];
        ids.push(db.insert_item(text_item_named(&body, None)).unwrap());
    }
    // pin the oldest and the middle one
    db.pin_item(ids[0], true).unwrap();
    db.pin_item(ids[2], true).unwrap();
    let list = db.list_recent(10).unwrap();
    assert_eq!(list.len(), 5);
    for w in list.windows(2) {
        // pinned rows never follow unpinned ones
        assert!(w[0].is_pinned || !w[1].is_pinned);
        if w[0].is_pinned == w[1].is_pinned {
            // newest first within each group
            assert!(w[0].created_at >= w[1].created_at);
        }
    }
    assert!(list[0].is_pinned && list[1].is_pinned);
    assert!(!list[2].is_pinned && !list[3].is_pinned && !list[4].is_pinned);
}

#[test]
fn list_recent_respects_limit() {
    let mut db = Database::new();
    for i in 0..4u8 {
        let body = vec![i; 2];
        db.insert_item(text_item_named(&body, None)).unwrap();
    }
    assert_eq!(db.list_recent(2).unwrap().len(), 2);
    assert_eq!(db.list_recent(0).unwrap().len(), 0);
    assert_eq!(db.list_recent(100).unwrap().len(), 4);
}

#[test]
fn list_recent_reports_hex_hash() {
    let mut db = Database::new();
    db.insert_item(text_item_named(b"abc", None)).unwrap();
    let list = db.list_recent(1).unwrap();
    assert_eq!(
        list[0].sha256_hex,
        "ba7816bf8f01cfea414140de5dae2223b00361a396177a9cb410ff61f20015ad"
    );
}

#[test]
fn compute_sha256_known_vector() {
    let d = Database::compute_sha256(b"abc");
    assert_eq!(
        d,
        vec![
            0xba, 0x78, 0x16, 0xbf, 0x8f, 0x01, 0xcf, 0xea, 0x41, 0x41, 0x40, 0xde, 0x5d, 0xae,
            0x22, 0x23, 0xb0, 0x03, 0x61, 0xa3, 0x96, 0x17, 0x7a, 0x9c, 0xb4, 0x10, 0xff, 0x61,
            0xf2, 0x00, 0x15, 0xad
        ]
    );
}

#[test]
fn delete_then_get_is_not_found() {
    let mut db = Database::new();
    let id = db.insert_item(text_item_named(b"to delete", None)).unwrap();
    assert!(db.get_item_raw(id).is_ok());
    db.delete_item(id).unwrap();
    assert_eq!(db.get_item_raw(id).unwrap_err(), CliperError::NotFound);
    assert_eq!(db.list_recent(10).unwrap().len(), 0);
    // deleting again is a quiet no-op
    db.delete_item(id).unwrap();
}

#[test]
fn get_item_raw_returns_row_fields() {
    let mut db = Database::new();
    let mut item = text_item_named(b"raw row", None);
    item.content_blob = Some(vec![1, 2, 3]);
    item.rtf_blob = Some(vec![9]);
    let id = db.insert_item(item).unwrap();
    let (kind, content, preview, rtf, path) = db.get_item_raw(id).unwrap();
    assert_eq!(kind, "text");
    assert_eq!(content, Some(vec![1, 2, 3]));
    assert_eq!(preview, None);
    assert_eq!(rtf, Some(vec![9]));
    assert_eq!(path, None);
    assert_eq!(
        db.get_item_raw(id + 1).unwrap_err(),
        CliperError::NotFound
    );
}

#[test]
fn pin_item_toggles_and_survives_listing() {
    let mut db = Database::new();
    let id = db.insert_item(text_item_named(b"pin me", None)).unwrap();
    db.pin_item(id, true).unwrap();
    assert!(db.list_recent(1).unwrap()[0].is_pinned);
    db.pin_item(id, false).unwrap();
    assert!(!db.list_recent(1).unwrap()[0].is_pinned);
    // pinning an absent id is a quiet no-op
    db.pin_item(id + 7, true).unwrap();
}

#[test]
fn clear_all_empties_the_store() {
    let mut db = Database::new();
    db.insert_item(text_item_named(b"one", None)).unwrap();
    db.insert_item(text_item_named(b"two", None)).unwrap();
    db.clear_all().unwrap();
    assert_eq!(db.list_recent(10).unwrap().len(), 0);
}

#[test]
fn now_millis_is_nonnegative() {
    let t = cliper::store::now_millis();
    assert!(t >= 0);
}

#[test]
fn restore_rows_in_id_order() {
    let mut db = Database::new();
    let rec = cliper::store::ItemRecord {
        id: 3,
        created_at: 111,
        kind: "file".into(),
        size: 7,
        sha256: Database::compute_sha256(b"/tmp/kept"),
        file_path: Some("/tmp/kept".into()),
        is_pinned: true,
        content_blob: None,
        preview_blob: None,
        rtf_blob: None,
    };
    db.restore_item(rec).unwrap();
    // a lower or equal id can no longer be placed
    let stale = cliper::store::ItemRecord {
        id: 2,
        created_at: 50,
        kind: "text".into(),
        size: 1,
        sha256: Database::compute_sha256(b"x"),
        file_path: None,
        is_pinned: false,
        content_blob: None,
        preview_blob: None,
        rtf_blob: None,
    };
    assert_eq!(db.restore_item(stale).unwrap_err(), CliperError::StorageInit);
    let (kind, _, _, _, path) = db.get_item_raw(3).unwrap();
    assert_eq!(kind, "file");
    assert_eq!(path.as_deref(), Some("/tmp/kept"));
    let list = db.list_recent(10).unwrap();
    assert_eq!(list.len(), 1);
    assert_eq!(list[0].id, 3);
    assert_eq!(list[0].created_at, 111);
    assert!(list[0].is_pinned);
    // fresh inserts continue after the restored id
    let id = db.insert_item(text_item_named(b"after restore", None)).unwrap();
    assert_eq!(id, 4);
}

#[test]
fn list_recent_truncation_keeps_top_ranked() {
    let mut db = Database::new();
    let mut ids = Vec::new();
    for i in 0..4u8 {
        let body = vec![i; 3];
        ids.push(db.insert_item(text_item_named(&body, None)).unwrap());
    }
    db.pin_item(ids[1], true).unwrap();
    let top = db.list_recent(1).unwrap();
    assert_eq!(top.len(), 1);
    // the single kept row must be the pinned one: it outranks every other
    assert!(top[0].is_pinned);
    assert_eq!(top[0].id, ids[1]);
}
