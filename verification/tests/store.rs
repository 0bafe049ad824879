use theme_store::config::ServerConfiguration;
use theme_store::defs::{Difficulty, DifficultyLevel, Question, Resource, ResourceType, SubTheme,
    Theme};
use theme_store::memory::{DatabaseError, LockState, MemoryDatabase};
use theme_store::storage::Storage;

#[test]
fn db_start_is_ok() {
    let mut storage = Storage::new();
    storage.store("test".to_string(), Theme::new("Test"));
    let db = MemoryDatabase::new(storage);

    assert!(db.get("Test".to_string()).is_some());
}

#[test]
fn db_flush_is_ok() {
    let mut db = MemoryDatabase::new(Storage::new());
    let _ = db.insert(Theme::new("Test1"));

    assert!(db.get("Test1".to_string()).is_some());
    let _ = db.flush();
    assert!(db.disk.contains(&"test1".to_string()));

    let _ = db.set("Test1".to_string(), Theme::new("Test2"));
    assert!(db.get("Test1".to_string()).is_none());

    let _ = db.flush();
    assert!(!db.disk.contains(&"test1".to_string()));
}

#[test]
fn get_returns_error() {
    let db = MemoryDatabase::new(Storage::new());
    assert!(db.get("CavalinhoPocoto".to_string()).is_none() == true);
}

#[test]
fn insert_is_ok() {
    let mut db = MemoryDatabase::new(Storage::new());
    let _ = db.insert(Theme::new("Test"));
    assert!(db.get("Test".to_string()).is_some());
    assert!(db.get("Test".to_string()).unwrap().name == "Test");
}

#[test]
fn set_is_ok() {
    let mut db = MemoryDatabase::new(Storage::new());

    let _ = db.insert(Theme::new("Test3"));
    assert!(db.get("Test3".to_string()).is_some());
    let _ = db.set("Test3".to_string(), Theme::new("Test4"));
    assert!(db.get("Test3".to_string()).is_none());
    assert!(db.get("Test4".to_string()).is_some());
}

#[test]
fn insert_then_get_equal() {
    let mut db = MemoryDatabase::new(Storage::new());
    let mut t = Theme::new("Mixed Case");
    t.add_subtheme(SubTheme::new("Intro"));
    assert!(db.insert(t).is_ok());
    let got = db.get("mixed case".to_string()).unwrap();
    assert_eq!(got.name, "Mixed Case");
    assert_eq!(got.sub_themes.len(), 1);
    assert_eq!(got.sub_themes[0].name, "Intro");
}

#[test]
fn insert_existing_fails() {
    let mut db = MemoryDatabase::new(Storage::new());
    assert!(db.insert(Theme::new("Dup")).is_ok());
    match db.insert(Theme::new("Dup")) {
        Err(DatabaseError::EntryAlreadyExists(k)) => assert_eq!(k, "dup"),
        _ => panic!("expected EntryAlreadyExists"),
    }
    assert!(db.get("Dup".to_string()).unwrap().name == "Dup");
}

#[test]
fn get_idempotent() {
    let mut db = MemoryDatabase::new(Storage::new());
    assert!(db.insert(Theme::new("Same")).is_ok());
    let a = db.get("Same".to_string()).unwrap().name;
    let b = db.get("Same".to_string()).unwrap().name;
    assert_eq!(a, b);
}

#[test]
fn get_reads_through_placeholder() {
    let mut storage = Storage::new();
    let mut t = Theme::new("Stored");
    t.add_subtheme(SubTheme::new("S1"));
    storage.store("stored".to_string(), t);
    let db = MemoryDatabase::new(storage);
    let got = db.get("Stored".to_string()).unwrap();
    assert_eq!(got.name, "Stored");
    assert_eq!(got.sub_themes.len(), 1);
}

#[test]
fn remove_unflushed_fails() {
    let mut db = MemoryDatabase::new(Storage::new());
    let _ = db.insert(Theme::new("Draft"));
    assert!(matches!(
        db.remove("Draft".to_string()),
        Err(DatabaseError::FailedWritingToDisk)
    ));
    assert!(db.get("Draft".to_string()).is_some());
}

#[test]
fn set_unknown_fails() {
    let mut db = MemoryDatabase::new(Storage::new());
    match db.set("Ghost".to_string(), Theme::new("Ghost")) {
        Err(DatabaseError::EntryDoesNotExist(n)) => assert_eq!(n, "Ghost"),
        _ => panic!("expected EntryDoesNotExist"),
    }
}

#[test]
fn remove_unknown_fails() {
    let mut db = MemoryDatabase::new(Storage::new());
    match db.remove("Ghost".to_string()) {
        Err(DatabaseError::EntryDoesNotExist(n)) => assert_eq!(n, "Ghost"),
        _ => panic!("expected EntryDoesNotExist"),
    }
}

#[test]
fn set_adopts_persisted_document() {
    let mut storage = Storage::new();
    storage.store("old".to_string(), Theme::new("Old"));
    let mut db = MemoryDatabase::new(storage);
    assert!(db.set("Old".to_string(), Theme::new("New")).is_ok());
    assert!(db.get("Old".to_string()).is_none());
    assert_eq!(db.get("New".to_string()).unwrap().name, "New");
}

#[test]
fn scenario_two_inserts_flush_remove() {
    let mut db = MemoryDatabase::new(Storage::new());
    assert!(db.insert(Theme::new("Test15")).is_ok());
    assert!(db.insert(Theme::new("Test39")).is_ok());
    assert!(db.get("test15".to_string()).is_some());
    assert!(db.get("test39".to_string()).is_some());
    assert!(db.get("unknown".to_string()).is_none());

    assert!(db.flush().is_ok());
    assert!(db.disk.contains(&"test15".to_string()));
    assert!(db.disk.contains(&"test39".to_string()));

    let first = db.disk.load(&"test15".to_string()).unwrap().name;
    assert!(db.flush().is_ok());
    let second = db.disk.load(&"test15".to_string()).unwrap().name;
    assert_eq!(first, second);
    assert_eq!(second, "Test15");

    assert!(db.remove("Test15".to_string()).is_ok());
    assert!(db.get("Test15".to_string()).is_none());
    assert!(!db.disk.contains(&"test15".to_string()));
}

#[test]
fn flush_purges_orphaned_documents() {
    let mut storage = Storage::new();
    storage.store("orphan".to_string(), Theme::new("Orphan"));
    let mut db = MemoryDatabase {
        loaded_themes: vec![],
        disk: storage,
        lock: LockState::Open,
    };
    assert!(db.insert(Theme::new("Kept")).is_ok());
    assert!(db.flush().is_ok());
    assert!(!db.disk.contains(&"orphan".to_string()));
    assert!(db.disk.contains(&"kept".to_string()));
}

#[test]
fn write_lock_exclusive() {
    let mut db = MemoryDatabase::new(Storage::new());
    assert!(db.acquire_write().is_ok());
    assert!(matches!(db.acquire_write(), Err(DatabaseError::WouldBlock)));
    db.release_write();
    assert!(db.acquire_write().is_ok());
}

#[test]
fn read_lock_shared() {
    let mut db = MemoryDatabase::new(Storage::new());
    assert!(db.acquire_read().is_ok());
    assert!(db.acquire_read().is_ok());
    assert!(matches!(db.acquire_write(), Err(DatabaseError::WouldBlock)));
    db.release_read();
    assert!(matches!(db.acquire_write(), Err(DatabaseError::WouldBlock)));
    db.release_read();
    assert!(db.acquire_write().is_ok());
}

#[test]
fn locked_store_would_block_writes() {
    let mut db = MemoryDatabase::new(Storage::new());
    assert!(db.acquire_read().is_ok());
    assert!(matches!(
        db.insert(Theme::new("X")),
        Err(DatabaseError::WouldBlock)
    ));
    assert!(db.get("X".to_string()).is_none());
    assert!(db.flush().is_ok());
    db.release_read();
    assert!(db.insert(Theme::new("X")).is_ok());
}

#[test]
fn poisoned_store_is_inert() {
    let mut db = MemoryDatabase::new(Storage::new());
    db.poison();
    assert!(matches!(
        db.insert(Theme::new("X")),
        Err(DatabaseError::LockIsPoisoned)
    ));
    assert!(matches!(
        db.set("X".to_string(), Theme::new("X")),
        Err(DatabaseError::LockIsPoisoned)
    ));
    assert!(matches!(
        db.remove("X".to_string()),
        Err(DatabaseError::LockIsPoisoned)
    ));
    assert!(matches!(db.flush(), Err(DatabaseError::LockIsPoisoned)));
    assert!(db.get("X".to_string()).is_none());
}

#[test]
fn document_model_builds() {
    let r = Resource {
        resource_name: "pic".to_string(),
        resource_type: ResourceType::Image,
        resource_uri: "res://pic".to_string(),
    };
    let q = Question::new(7, vec![r]);
    let mut d = Difficulty::new(DifficultyLevel::Hard);
    d.questions.push(q);
    let mut st = SubTheme::new("Sub");
    st.difficulties.push(d);
    let mut t = Theme::new("Root");
    t.add_subtheme(st);
    assert_eq!(t.name, "Root");
    assert_eq!(t.sub_themes.len(), 1);
    assert_eq!(t.sub_themes[0].difficulties[0].questions[0].id, 7);
    assert_eq!(
        t.sub_themes[0].difficulties[0].questions[0].resources[0].resource_name,
        "pic"
    );
    let c = t.clone();
    assert_eq!(c.name, "Root");
    assert_eq!(c.sub_themes.len(), 1);
    assert_eq!(c.sub_themes[0].name, "Sub");
}

#[test]
fn configuration_holds_settings() {
    let c = ServerConfiguration::new("files".to_string(), 5);
    assert_eq!(c.get_flush_frequency(), 5);
    assert_eq!(c.files_path, "files");
}
