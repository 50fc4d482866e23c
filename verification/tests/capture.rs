use cliper::crypto::KeyManager;
use cliper::errors::CliperError;
use cliper::imaging::RgbaImage;
use cliper::store::Database;
use cliper::watcher::{
    resolve_file_url, ClipboardSnapshot, ClipboardWatcher, FileRef, TickOutcome,
};
use cliper::writer::{copy_back, CopyAction};

fn empty_snapshot(count: u64) -> ClipboardSnapshot {
    ClipboardSnapshot {
        change_count: count,
        files: Vec::new(),
        text: None,
        rtf: None,
        image: None,
    }
}

fn text_snapshot(count: u64, text: &str) -> ClipboardSnapshot {
    let mut s = empty_snapshot(count);
    s.text = Some(text.to_string());
    s
}

fn sample_image() -> RgbaImage {
    // 2 x 2 pixels: red, green, blue, white
    let bytes = vec![
        255, 0, 0, 255, 0, 255, 0, 255, 0, 0, 255, 255, 255, 255, 255, 255,
    ];
    RgbaImage {
        width: 2,
        height: 2,
        bytes,
    }
}

#[test]
fn unchanged_counter_reads_nothing() {
    let mut watcher = ClipboardWatcher::new();
    let mut db = Database::new();
    let km = KeyManager::new("test.bundle".into());
    let out = watcher.observe(&mut db, &km, &empty_snapshot(0));
    assert!(matches!(out, TickOutcome::Unchanged));
    let out = watcher.observe(&mut db, &km, &text_snapshot(0, "ignored"));
    assert!(matches!(out, TickOutcome::Unchanged));
    assert_eq!(db.list_recent(10).unwrap().len(), 0);
}

#[test]
fn locked_text_tick_is_observed_but_dropped() {
    let mut watcher = ClipboardWatcher::new();
    let mut db = Database::new();
    let km = KeyManager::new("test.bundle".into());
    let out = watcher.observe(&mut db, &km, &text_snapshot(1, "secret"));
    assert!(matches!(out, TickOutcome::SkippedLocked));
    assert_eq!(db.list_recent(10).unwrap().len(), 0);
    // the counter advanced: the same snapshot reads nothing on the next tick
    let out = watcher.observe(&mut db, &km, &text_snapshot(1, "secret"));
    assert!(matches!(out, TickOutcome::Unchanged));
}

#[test]
fn unlocked_text_tick_is_captured_and_copies_back() {
    let mut watcher = ClipboardWatcher::new();
    let mut db = Database::new();
    let mut km = KeyManager::new("test.bundle".into());
    km.unlock().unwrap();
    let out = watcher.observe(&mut db, &km, &text_snapshot(1, "hello capture"));
    let ids = match out {
        TickOutcome::Inserted(ids) => ids,
        other => panic!("expected an insert, got {:?}", tick_name(&other)),
    };
    assert_eq!(ids.len(), 1);
    let list = db.list_recent(10).unwrap();
    assert_eq!(list.len(), 1);
    assert_eq!(list[0].kind, "text");
    assert_eq!(list[0].size, "hello capture".len() as i64);
    let payload = copy_back(&db, &km, ids[0]).unwrap();
    match payload.action {
        CopyAction::SetText(s) => assert_eq!(s, "hello capture"),
        _ => panic!("expected text copy-back"),
    }
    assert!(payload.rtf.is_none());
}

fn tick_name(t: &TickOutcome) -> &'static str {
    match t {
        TickOutcome::Unchanged => "Unchanged",
        TickOutcome::Nothing => "Nothing",
        TickOutcome::SkippedLocked => "SkippedLocked",
        TickOutcome::Inserted(_) => "Inserted",
        TickOutcome::Failed => "Failed",
    }
}

#[test]
fn repeated_text_deduplicates() {
    let mut watcher = ClipboardWatcher::new();
    let mut db = Database::new();
    let mut km = KeyManager::new("test.bundle".into());
    km.unlock().unwrap();
    let first = watcher.observe(&mut db, &km, &text_snapshot(1, "again"));
    let second = watcher.observe(&mut db, &km, &text_snapshot(2, "again"));
    let (a, b) = match (first, second) {
        (TickOutcome::Inserted(a), TickOutcome::Inserted(b)) => (a, b),
        _ => panic!("expected two inserts"),
    };
    assert_eq!(a, b);
    assert_eq!(db.list_recent(10).unwrap().len(), 1);
}

#[test]
fn rtf_sidecar_rides_on_the_text_item() {
    let mut watcher = ClipboardWatcher::new();
    let mut db = Database::new();
    let mut km = KeyManager::new("test.bundle".into());
    km.unlock().unwrap();
    let mut snap = text_snapshot(1, "rich text");
    snap.rtf = Some(b"{\\rtf1 rich}".to_vec());
    let out = watcher.observe(&mut db, &km, &snap);
    let ids = match out {
        TickOutcome::Inserted(ids) => ids,
        _ => panic!("expected an insert"),
    };
    // one item only: the sidecar is never a separate row
    assert_eq!(db.list_recent(10).unwrap().len(), 1);
    let payload = copy_back(&db, &km, ids[0]).unwrap();
    assert_eq!(payload.rtf, Some(b"{\\rtf1 rich}".to_vec()));
}

#[test]
fn file_references_suppress_text_and_ignore_lock() {
    let mut watcher = ClipboardWatcher::new();
    let mut db = Database::new();
    let km = KeyManager::new("test.bundle".into());
    let mut snap = text_snapshot(1, "should be suppressed");
    snap.files = vec![
        FileRef {
            path: "/tmp/one.txt".into(),
            size_on_disk: Some(42),
        },
        FileRef {
            path: "/tmp/two.txt".into(),
            size_on_disk: Some(7),
        },
    ];
    let out = watcher.observe(&mut db, &km, &snap);
    let ids = match out {
        TickOutcome::Inserted(ids) => ids,
        _ => panic!("expected inserts"),
    };
    assert_eq!(ids.len(), 2);
    let list = db.list_recent(10).unwrap();
    assert_eq!(list.len(), 2);
    for row in &list {
        assert_eq!(row.kind, "file");
    }
    let sizes: Vec<i64> = list.iter().map(|r| r.size).collect();
    assert!(sizes.contains(&42) && sizes.contains(&7));
}

#[test]
fn missing_file_defaults_to_size_zero() {
    let mut watcher = ClipboardWatcher::new();
    let mut db = Database::new();
    let km = KeyManager::new("test.bundle".into());
    let mut snap = empty_snapshot(1);
    snap.files = vec![FileRef {
        path: "/definitely/not/there.bin".into(),
        size_on_disk: None,
    }];
    let out = watcher.observe(&mut db, &km, &snap);
    assert!(matches!(out, TickOutcome::Inserted(_)));
    let list = db.list_recent(10).unwrap();
    assert_eq!(list.len(), 1);
    assert_eq!(list[0].kind, "file");
    assert_eq!(list[0].size, 0);
    assert_eq!(list[0].file_path.as_deref(), Some("/definitely/not/there.bin"));
}

#[test]
fn image_capture_roundtrips_through_copy_back() {
    let mut watcher = ClipboardWatcher::new();
    let mut db = Database::new();
    let mut km = KeyManager::new("test.bundle".into());
    km.unlock().unwrap();
    let img = sample_image();
    let original_bytes = img.bytes.clone();
    let mut snap = empty_snapshot(1);
    snap.image = Some(img);
    let out = watcher.observe(&mut db, &km, &snap);
    let ids = match out {
        TickOutcome::Inserted(ids) => ids,
        _ => panic!("expected an insert"),
    };
    let list = db.list_recent(10).unwrap();
    assert_eq!(list.len(), 1);
    assert_eq!(list[0].kind, "image");
    let payload = copy_back(&db, &km, ids[0]).unwrap();
    match payload.action {
        CopyAction::SetImage(back) => {
            assert_eq!(back.width, 2);
            assert_eq!(back.height, 2);
            assert_eq!(back.bytes, original_bytes);
        }
        _ => panic!("expected image copy-back"),
    }
}

#[test]
fn image_dedup_is_stable_across_reencodes() {
    let mut watcher = ClipboardWatcher::new();
    let mut db = Database::new();
    let mut km = KeyManager::new("test.bundle".into());
    km.unlock().unwrap();
    let mut snap1 = empty_snapshot(1);
    snap1.image = Some(sample_image());
    let mut snap2 = empty_snapshot(2);
    snap2.image = Some(sample_image());
    watcher.observe(&mut db, &km, &snap1);
    watcher.observe(&mut db, &km, &snap2);
    assert_eq!(db.list_recent(10).unwrap().len(), 1);
}

#[test]
fn locked_image_tick_is_dropped() {
    let mut watcher = ClipboardWatcher::new();
    let mut db = Database::new();
    let km = KeyManager::new("test.bundle".into());
    let mut snap = empty_snapshot(1);
    snap.image = Some(sample_image());
    let out = watcher.observe(&mut db, &km, &snap);
    assert!(matches!(out, TickOutcome::SkippedLocked));
    assert_eq!(db.list_recent(10).unwrap().len(), 0);
}

#[test]
fn empty_change_captures_nothing() {
    let mut watcher = ClipboardWatcher::new();
    let mut db = Database::new();
    let km = KeyManager::new("test.bundle".into());
    let out = watcher.observe(&mut db, &km, &empty_snapshot(1));
    assert!(matches!(out, TickOutcome::Nothing));
}

#[test]
fn copy_back_missing_id_is_not_found() {
    let db = Database::new();
    let km = KeyManager::new("test.bundle".into());
    assert_eq!(copy_back(&db, &km, 123).unwrap_err(), CliperError::NotFound);
}

#[test]
fn copy_back_file_writes_reference() {
    let mut watcher = ClipboardWatcher::new();
    let mut db = Database::new();
    let km = KeyManager::new("test.bundle".into());
    let mut snap = empty_snapshot(1);
    snap.files = vec![FileRef {
        path: "/tmp/ref.txt".into(),
        size_on_disk: None,
    }];
    let ids = match watcher.observe(&mut db, &km, &snap) {
        TickOutcome::Inserted(ids) => ids,
        _ => panic!("expected an insert"),
    };
    let payload = copy_back(&db, &km, ids[0]).unwrap();
    match payload.action {
        CopyAction::WriteFileRef(p) => assert_eq!(p, "/tmp/ref.txt"),
        _ => panic!("expected a file reference"),
    }
}

#[test]
fn copy_back_after_reset_fails_with_decryption() {
    let mut watcher = ClipboardWatcher::new();
    let mut db = Database::new();
    let mut km = KeyManager::new("test.bundle".into());
    km.unlock().unwrap();
    let ids = match watcher.observe(&mut db, &km, &text_snapshot(1, "orphaned")) {
        TickOutcome::Inserted(ids) => ids,
        _ => panic!("expected an insert"),
    };
    km.reset_master_key().unwrap();
    assert_eq!(
        copy_back(&db, &km, ids[0]).unwrap_err(),
        CliperError::Decryption
    );
}

#[test]
fn copy_back_while_locked_reports_locked() {
    let mut watcher = ClipboardWatcher::new();
    let mut db = Database::new();
    let mut km = KeyManager::new("test.bundle".into());
    km.unlock().unwrap();
    let ids = match watcher.observe(&mut db, &km, &text_snapshot(1, "soon locked")) {
        TickOutcome::Inserted(ids) => ids,
        _ => panic!("expected an insert"),
    };
    km.lock();
    assert_eq!(copy_back(&db, &km, ids[0]).unwrap_err(), CliperError::Locked);
}

#[test]
fn resolve_plain_path_percent_decodes() {
    assert_eq!(resolve_file_url("/tmp/a%20b.txt"), "/tmp/a b.txt");
}

#[test]
fn resolve_strips_file_scheme() {
    assert_eq!(resolve_file_url("file:///tmp/x.txt"), "/tmp/x.txt");
    assert_eq!(resolve_file_url("file://localhost/tmp/y.txt"), "/tmp/y.txt");
}

#[test]
fn resolve_trims_whitespace() {
    assert_eq!(resolve_file_url("  /tmp/z.txt \n"), "/tmp/z.txt");
}

#[test]
fn resolve_decodes_url_escapes() {
    assert_eq!(
        resolve_file_url("file:///Users/me/My%20Notes.txt"),
        "/Users/me/My Notes.txt"
    );
}

#[test]
fn repeated_file_tick_hands_back_the_same_ids() {
    let mut watcher = ClipboardWatcher::new();
    let mut db = Database::new();
    let km = KeyManager::new("test.bundle".into());
    let files = vec![
        FileRef {
            path: "/tmp/a.txt".into(),
            size_on_disk: Some(1),
        },
        FileRef {
            path: "/tmp/b.txt".into(),
            size_on_disk: Some(2),
        },
    ];
    let mut snap1 = empty_snapshot(1);
    snap1.files = files.clone();
    let mut snap2 = empty_snapshot(2);
    snap2.files = files;
    let first = watcher.observe(&mut db, &km, &snap1);
    let second = watcher.observe(&mut db, &km, &snap2);
    let (a, b) = match (first, second) {
        (TickOutcome::Inserted(a), TickOutcome::Inserted(b)) => (a, b),
        _ => panic!("expected two inserts"),
    };
    assert_eq!(a.len(), 2);
    assert_eq!(a, b);
    assert_eq!(db.list_recent(10).unwrap().len(), 2);
}

#[test]
fn empty_pixel_buffer_is_refused() {
    let mut km = KeyManager::new("test.bundle".into());
    let empty = RgbaImage {
        width: 0,
        height: 0,
        bytes: Vec::new(),
    };
    // the lock check comes first
    assert!(matches!(
        cliper::watcher::image_item(&km, &empty),
        Err(CliperError::Locked)
    ));
    km.unlock().unwrap();
    assert!(matches!(
        cliper::watcher::image_item(&km, &empty),
        Err(CliperError::MalformedInput)
    ));
}
