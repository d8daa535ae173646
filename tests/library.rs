use anicla::digest::hash_bytes;
use anicla::library::{Library, LibraryError};
use anicla::store::{MediaEntry, MediaType, MetadataStore, StoreError};
use anicla::thumbnail::thumbnail_size;

fn entry(hash: &str, name: &str, ext: &str) -> MediaEntry {
    MediaEntry {
        id: 0,
        hash: hash.to_string(),
        original_name: name.to_string(),
        extension: ext.to_string(),
        media_type: MediaType::Image,
        resolution: None,
        duration_ms: None,
        label: None,
        confidence: None,
    }
}

#[test]
fn placing_same_bytes_twice_writes_once() {
    let mut lib = Library::new("/data".to_string());
    let bytes = b"same content".to_vec();
    let first = lib.place_bytes(&bytes, "a.png");
    let second = lib.place_bytes(&bytes, "b.jpg");
    assert!(first.write_original);
    assert!(!second.write_original);
    assert_eq!(first.hash, second.hash);
    assert_eq!(first.hash, hash_bytes(&bytes));
    let expected = format!("/data/library/{}/{}.png", first.hash, first.hash);
    assert_eq!(first.path, expected);
    assert_eq!(second.path, expected);
}

#[test]
fn identical_imports_share_directory_but_not_ids() {
    let mut lib = Library::new("/data".to_string());
    let p1 = lib.place_bytes(b"xyz", "one.gif");
    let p2 = lib.place_bytes(b"xyz", "two.gif");
    let id1 = lib.insert_entry(entry(&p1.hash, "one.gif", "gif")).unwrap();
    let id2 = lib.insert_entry(entry(&p2.hash, "two.gif", "gif")).unwrap();
    assert_ne!(id1, id2);
    assert_eq!((id1, id2), (1, 2));
    let cleared = lib.clear_all();
    assert_eq!(cleared.len(), 1);
}

#[test]
fn every_listed_entry_resolves() {
    let mut lib = Library::new("/d".to_string());
    for (i, name) in ["a.png", "b.jpg", "c.mp4"].iter().enumerate() {
        let p = lib.place_bytes(&[i as u8; 4], name);
        lib.insert_entry(entry(&p.hash, name, "x")).unwrap();
    }
    let rows = lib.list_entries();
    assert_eq!(rows.len(), 3);
    for row in &rows {
        assert!(lib.resolve_original(&row.hash).is_ok());
    }
    assert_eq!(rows[2].id, 3);
    assert_eq!(rows[2].original_name, "c.mp4");
}

#[test]
fn entry_without_directory_is_refused() {
    let mut lib = Library::new("/d".to_string());
    let r = lib.insert_entry(entry("ffff", "x.png", "png"));
    assert!(matches!(r, Err(LibraryError::NotFound)));
    assert!(lib.list_entries().is_empty());
    assert!(matches!(lib.resolve_original(&"ffff".to_string()), Err(LibraryError::NotFound)));
}

#[test]
fn deleting_last_reference_removes_directory() {
    let mut lib = Library::new("/d".to_string());
    let p = lib.place_bytes(b"shared", "s.png");
    let a = lib.insert_entry(entry(&p.hash, "s.png", "png")).unwrap();
    let b = lib.insert_entry(entry(&p.hash, "s.png", "png")).unwrap();
    assert_eq!(lib.delete_entry(a), Ok(None));
    assert!(lib.resolve_original(&p.hash).is_ok());
    assert_eq!(lib.delete_entry(b), Ok(Some(format!("/d/library/{}", p.hash))));
    assert!(lib.list_entries().is_empty());
    assert!(matches!(lib.resolve_original(&p.hash), Err(LibraryError::NotFound)));
}

#[test]
fn deleting_unknown_id_is_not_found() {
    let mut lib = Library::new("/d".to_string());
    let p = lib.place_bytes(b"k", "k.png");
    let id = lib.insert_entry(entry(&p.hash, "k.png", "png")).unwrap();
    assert_eq!(lib.delete_entry(id + 10), Err(LibraryError::NotFound));
    assert_eq!(lib.delete_entry(id).is_ok(), true);
    assert_eq!(lib.delete_entry(id), Err(LibraryError::NotFound));
}

#[test]
fn deleted_ids_are_not_reused() {
    let mut lib = Library::new("/d".to_string());
    let p = lib.place_bytes(b"k", "k.png");
    let id = lib.insert_entry(entry(&p.hash, "k.png", "png")).unwrap();
    lib.delete_entry(id).unwrap();
    let p = lib.place_bytes(b"k", "k.png");
    let next = lib.insert_entry(entry(&p.hash, "k.png", "png")).unwrap();
    assert_eq!(next, id + 1);
    assert!(lib.list_entries().iter().all(|e| e.id != id));
}

#[test]
fn thumbnail_and_missing_model_scenario() {
    let mut lib = Library::new("/d".to_string());
    let bytes = [0x89u8, b'P', b'N', b'G', 0x0d, 0x0a, 0x1a, 0x0a, 0, 0];
    let h = lib.place_bytes(&bytes, "tiny.png").hash;
    let job = lib.ensure_thumbnail(&h, false).unwrap();
    assert_eq!(job.edge, 256);
    assert_eq!(job.source, format!("/d/library/{}/{}.png", h, h));
    assert_eq!(job.dest, format!("/d/library/{}/thumbnail.webp", h));
    assert!(!job.is_video);
    let (w, hgt) = thumbnail_size(640, 400, job.edge).unwrap();
    assert_eq!(w.max(hgt), 256);
    assert!(!lib.model_ready());
    assert!(matches!(lib.classify_source(&h), Err(LibraryError::ModelUnavailable)));
    lib.set_model_ready(true);
    assert_eq!(lib.classify_source(&h), Ok(job.source.clone()));
    assert!(matches!(lib.classify_source(&"00".to_string()), Err(LibraryError::NotFound)));
}

#[test]
fn thumbnail_of_unknown_digest_is_not_found() {
    let lib = Library::new("/d".to_string());
    assert!(matches!(lib.ensure_thumbnail(&"abc".to_string(), true), Err(LibraryError::NotFound)));
}

#[test]
fn clear_all_empties_three_entries() {
    let mut lib = Library::new("/d".to_string());
    let mut hashes = Vec::new();
    for i in 0..3u8 {
        let p = lib.place_bytes(&[i, i, i], "f.png");
        lib.insert_entry(entry(&p.hash, "f.png", "png")).unwrap();
        hashes.push(p.hash);
    }
    let removed = lib.clear_all();
    assert!(lib.list_entries().is_empty());
    let expected: Vec<String> = hashes.iter().map(|h| format!("/d/library/{}", h)).collect();
    assert_eq!(removed, expected);
    for h in &hashes {
        assert!(lib.resolve_original(h).is_err());
    }
    assert_eq!(lib.clear_all().len(), 0);
}

#[test]
fn restored_rows_keep_their_ids() {
    let mut lib = Library::new("/d".to_string());
    assert!(lib.adopt_dir("abcd".to_string(), "png".to_string()));
    assert!(!lib.adopt_dir("abcd".to_string(), "jpg".to_string()));
    let mut e = entry("abcd", "a.png", "png");
    e.id = 41;
    assert_eq!(lib.restore_entry(e), Ok(()));
    let mut again = entry("abcd", "a.png", "png");
    again.id = 41;
    assert_eq!(lib.restore_entry(again), Err(LibraryError::IdTaken));
    assert_eq!(lib.insert_entry(entry("abcd", "b.png", "png")), Ok(42));
    assert_eq!(lib.resolve_original(&"abcd".to_string()), Ok("/d/library/abcd/abcd.png".to_string()));
}

#[test]
fn store_exhausts_ids_only_at_the_top() {
    let mut store = MetadataStore::new();
    let mut e = entry("h", "n", "e");
    e.id = u64::MAX - 1;
    assert_eq!(store.restore_entry(e), Ok(()));
    assert_eq!(store.insert_entry(entry("h", "n", "e")), Err(StoreError::IdsExhausted));
    assert_eq!(store.len(), 1);
    assert!(store.contains_id(u64::MAX - 1));
    assert!(store.references_hash(&"h".to_string()));
    store.clear_all();
    assert_eq!(store.len(), 0);
}

#[test]
fn probed_facts_are_written_back() {
    let mut lib = Library::new("/d".to_string());
    let p = lib.place_bytes(b"movie", "m.mp4");
    let id = lib.insert_entry(entry(&p.hash, "m.mp4", "mp4")).unwrap();
    assert_eq!(lib.record_facts(id, Some("1920x1080".to_string()), Some(5000)), Ok(()));
    let rows = lib.list_entries();
    assert_eq!(rows[0].resolution.as_deref(), Some("1920x1080"));
    assert_eq!(rows[0].duration_ms, Some(5000));
    assert_eq!(rows[0].original_name, "m.mp4");
    assert_eq!(lib.record_facts(id + 1, None, None), Err(LibraryError::NotFound));
}

#[test]
fn classification_is_written_back() {
    let mut lib = Library::new("/d".to_string());
    let p = lib.place_bytes(b"pic", "p.png");
    let id = lib.insert_entry(entry(&p.hash, "p.png", "png")).unwrap();
    assert_eq!(lib.record_class(id, "cat".to_string(), 910_000), Ok(()));
    let rows = lib.list_entries();
    assert_eq!(rows[0].label.as_deref(), Some("cat"));
    assert_eq!(rows[0].confidence, Some(910_000));
    assert_eq!(rows[0].hash, p.hash);
    assert_eq!(lib.record_class(99, "dog".to_string(), 1), Err(LibraryError::NotFound));
}
