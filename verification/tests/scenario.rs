use cliper::crypto::KeyManager;
use cliper::settings::{settings_path, Settings};
use cliper::store::{Database, NewItem};
use cliper::ui::UiItemDto;

#[test]
fn unlock_encrypt_insert_list_scenario() {
    let mut km = KeyManager::new("test.bundle".into());
    km.unlock().unwrap();
    let text = b"hello db";
    let enc = km.encrypt(text).unwrap();
    let sha = Database::compute_sha256(text);
    let expected_hex = hex::encode(&sha);
    let mut db = Database::new();
    db.migrate().unwrap();
    db.insert_item(NewItem {
        kind: "text".into(),
        size: text.len() as i64,
        sha256: sha,
        file_path: None,
        content_blob: Some(enc),
        preview_blob: None,
        rtf_blob: None,
    })
    .unwrap();
    let list = db.list_recent(10).unwrap();
    assert_eq!(list.len(), 1);
    assert_eq!(list[0].kind, "text");
    assert_eq!(list[0].sha256_hex, expected_hex);
}

#[test]
fn settings_path_appends_fixed_name() {
    assert_eq!(
        settings_path("/data/cliper".to_string()),
        "/data/cliper/settings.json"
    );
}

#[test]
fn settings_carry_their_fields() {
    let s = Settings {
        auto_lock_minutes: 5,
        hotkey: "CmdOrCtrl+Shift+Space".into(),
    };
    let c = s.clone();
    assert_eq!(c.auto_lock_minutes, 5);
    assert_eq!(c.hotkey, "CmdOrCtrl+Shift+Space");
}

#[test]
fn ui_item_carries_meta_fields() {
    let mut db = Database::new();
    db.insert_item(NewItem {
        kind: "file".into(),
        size: 0,
        sha256: Database::compute_sha256(b"/tmp/p"),
        file_path: Some("/tmp/p".into()),
        content_blob: None,
        preview_blob: None,
        rtf_blob: None,
    })
    .unwrap();
    let meta = db.list_recent(1).unwrap().remove(0);
    let ui = UiItemDto::from_meta(meta.clone(), 99, Some("p".into()));
    assert_eq!(ui.id, meta.id);
    assert_eq!(ui.kind, "file");
    assert_eq!(ui.size, 99);
    assert_eq!(ui.preview.as_deref(), Some("p"));
    assert_eq!(ui.file_path.as_deref(), Some("/tmp/p"));
}
