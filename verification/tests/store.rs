use vmm_sandboxer::json::{parse, Json};
use vmm_sandboxer::snapshot::error::SnapshotError;
use vmm_sandboxer::snapshot::store::{
    combine_digests, sha256_file, Commit, CreatedAt, Import, SnapshotChecksums, SnapshotId,
    SnapshotKey, SnapshotMetadata, SnapshotStore, Stored, StoredFiles,
};

fn json(text: &str) -> Json {
    parse(text).unwrap()
}

/// Everything that lies in a store, as a directory would hold it.
struct Disk {
    store: SnapshotStore,
    /// Name, memory, state, checksums, metadata.
    snapshots: Vec<(String, Vec<u8>, Vec<u8>, String, String)>,
    /// Path and content.
    keys: Vec<(String, String)>,
}

impl Disk {
    fn new() -> Disk {
        Disk {
            store: SnapshotStore::new("/snapshots"),
            snapshots: vec![],
            keys: vec![],
        }
    }

    fn import(&mut self, memory: &[u8], state: &[u8], key: &str, hv: &str) -> SnapshotMetadata {
        let new_id = self
            .store
            .compute_id(&memory.to_vec(), &state.to_vec())
            .to_string();
        let kept = self.snapshots.iter().find(|s| s.0 == new_id);
        let (import, commit): (Import, Commit) = self.store.import_from(
            &memory.to_vec(),
            &state.to_vec(),
            &SnapshotKey::new(key),
            hv,
            CreatedAt::new(1_700_000_000, 5).unwrap(),
            kept.map(|s| (&s.1, &s.2)),
        );
        let id = commit.meta.id.to_string();
        match import {
            Import::Reuse => self.snapshots.retain(|s| s.0 != id),
            Import::Rename(dir) => assert_eq!(dir, format!("/snapshots/{}", id)),
        }
        self.snapshots.push((
            id,
            memory.to_vec(),
            state.to_vec(),
            commit.checksums,
            commit.metadata,
        ));
        self.keys.retain(|k| k.0 != commit.key_file);
        self.keys.push((commit.key_file, commit.key_content));
        commit.meta
    }

    fn files(&self, id: &str) -> StoredFiles {
        match self.snapshots.iter().find(|s| s.0 == id) {
            Some(s) => StoredFiles {
                checksums: Stored::There(SnapshotChecksums::load(&json(&s.3)).unwrap()),
                memory: Ok(s.1.clone()),
                state: Ok(s.2.clone()),
                metadata: Stored::There(SnapshotMetadata::load(&json(&s.4)).unwrap()),
            },
            None => StoredFiles {
                checksums: Stored::Missing,
                memory: Err("no such file".to_string()),
                state: Err("no such file".to_string()),
                metadata: Stored::Missing,
            },
        }
    }

    fn get(&self, id: &SnapshotId) -> Result<SnapshotMetadata, SnapshotError> {
        self.store.get(id, &self.files(id.as_str()))
    }

    fn get_by_key(&self, key: &str) -> Result<SnapshotMetadata, SnapshotError> {
        let key = SnapshotKey::new(key);
        let file = self.store.key_file(&key);
        let content = self.keys.iter().find(|k| k.0 == file).map(|k| k.1.as_str());
        let files = self.files(content.unwrap_or("").trim());
        self.store.get_by_key(&key, content, &files)
    }

    fn list(&self) -> Vec<SnapshotMetadata> {
        let mut entries: Vec<(String, bool, StoredFiles)> = self
            .snapshots
            .iter()
            .map(|s| (s.0.clone(), true, self.files(&s.0)))
            .collect();
        entries.push(("keys".to_string(), true, self.files("keys")));
        entries.push(("stray".to_string(), false, self.files("stray")));
        entries.push(("empty".to_string(), true, self.files("empty")));
        self.store.list(&entries)
    }

    fn delete(&mut self, id: &SnapshotId) {
        let exists = self.snapshots.iter().any(|s| s.0 == id.as_str());
        if let Some(dir) = self.store.delete(id, exists) {
            assert_eq!(dir, format!("/snapshots/{}", id.as_str()));
            self.snapshots.retain(|s| s.0 != id.as_str());
        }
    }
}

#[test]
fn test_import_and_get_by_key() {
    let mut disk = Disk::new();
    let meta = disk.import(
        b"fake-memory-content",
        b"fake-state-content",
        "test-key",
        "cloud-hypervisor",
    );
    assert_eq!(meta.key.as_str(), "test-key");
    assert_eq!(meta.hypervisor, "cloud-hypervisor");
    assert!(meta.memory_size_bytes > 0);
    assert!(meta.state_size_bytes > 0);

    let loaded = disk.get_by_key("test-key").ok().expect("get_by_key");
    assert_eq!(loaded.id.as_str(), meta.id.as_str());
    assert_eq!(loaded.memory_size_bytes, 19);
    assert_eq!(loaded.created_at.secs(), 1_700_000_000);
    assert_eq!(loaded.created_at.nanos(), 5);
}

#[test]
fn test_idempotent_import() {
    let mut disk = Disk::new();
    let meta1 = disk.import(b"fake-memory-content", b"fake-state-content", "k1", "chv");
    let meta2 = disk.import(b"fake-memory-content", b"fake-state-content", "k1", "chv");
    assert_eq!(meta1.id.as_str(), meta2.id.as_str());
    assert_eq!(disk.snapshots.len(), 1);
}

#[test]
fn test_integrity_check_detects_tampering() {
    let mut disk = Disk::new();
    let meta = disk.import(
        b"fake-memory-content",
        b"fake-state-content",
        "tamper-key",
        "chv",
    );
    disk.snapshots[0].1 = b"tampered!".to_vec();
    match disk.get(&meta.id) {
        Err(SnapshotError::IntegrityFailed { expected, actual }) => {
            assert_eq!(expected, sha256_file(&b"fake-memory-content".to_vec()));
            assert_eq!(actual, sha256_file(&b"tampered!".to_vec()));
        }
        _ => panic!("expected IntegrityFailed"),
    }
}

#[test]
fn test_not_found_on_missing_key() {
    let disk = Disk::new();
    match disk.get_by_key("no-such-key") {
        Err(SnapshotError::NotFound(key)) => assert_eq!(key, "no-such-key"),
        _ => panic!("expected NotFound"),
    }
}

#[test]
fn test_list_and_delete() {
    let mut disk = Disk::new();
    disk.import(b"content-a", b"state", "key-0", "chv");
    disk.import(b"content-b", b"state", "key-1", "chv");

    let list = disk.list();
    assert_eq!(list.len(), 2);

    disk.delete(&list[0].id);
    let list2 = disk.list();
    assert_eq!(list2.len(), 1);
    assert_eq!(list2[0].key.as_str(), "key-1");
    // Deleting what is gone is no fault.
    disk.delete(&list[0].id);
    assert_eq!(disk.list().len(), 1);
}

#[test]
fn test_source_and_destination_urls() {
    let store = SnapshotStore::new("/var/lib/kuasar/snapshots");
    let id = SnapshotId("abc123".to_string());
    let url = store.source_url(&id);
    assert_eq!(url, "file:///var/lib/kuasar/snapshots/abc123");
    assert_eq!(store.destination_url(&id), url);
}

#[test]
fn digests_are_sha256_in_hexadecimal() {
    assert_eq!(
        sha256_file(&b"abc".to_vec()),
        "ba7816bf8f01cfea414140de5dae2223b00361a396177a9cb410ff61f20015ad"
    );
    assert_eq!(
        sha256_file(&vec![]),
        "e3b0c44298fc1c149afbf4c8996fb92427ae41e4649b934ca495991b7852b855"
    );
    // The id is the digest of the two digests, one behind the other.
    let a = sha256_file(&b"m".to_vec());
    let b = sha256_file(&b"s".to_vec());
    let both = sha256_file(&format!("{}{}", a, b).into_bytes());
    assert_eq!(combine_digests(&a, &b).as_str(), both);
    let store = SnapshotStore::default_store();
    assert_eq!(store.root(), "/var/lib/kuasar/snapshots");
    assert_eq!(
        store.compute_id(&b"m".to_vec(), &b"s".to_vec()).as_str(),
        both
    );
}

#[test]
fn places_in_a_store() {
    let store = SnapshotStore::new("/s");
    let id = SnapshotId("abc".to_string());
    assert_eq!(store.init(), ["/s", "/s/keys"]);
    assert_eq!(store.memory_path(&id), "/s/abc/memory.bin");
    assert_eq!(store.state_path(&id), "/s/abc/snapshot.json");
    assert_eq!(store.key_file(&SnapshotKey::new("k")), "/s/keys/k");
    assert!(store.listed_id("keys", true).is_none());
    assert!(store.listed_id("abc", false).is_none());
    assert_eq!(store.listed_id("abc", true).unwrap().as_str(), "abc");
    assert_eq!(
        store
            .resolve_key(&SnapshotKey::new("k"), Some(" abc\n"))
            .ok()
            .unwrap()
            .as_str(),
        "abc"
    );
}

#[test]
fn files_that_cannot_be_read() {
    let mut disk = Disk::new();
    let meta = disk.import(b"m", b"s", "k", "chv");
    let id = meta.id;
    let good = disk.files(id.as_str());
    let fault = |f: &StoredFiles| disk.store.get(&id, f).err().unwrap().to_string();

    let mut f = disk.files(id.as_str());
    f.checksums = Stored::Missing;
    assert!(matches!(
        disk.store.get(&id, &f),
        Err(SnapshotError::NotFound(_))
    ));
    let mut f = disk.files(id.as_str());
    f.checksums = Stored::Unreadable("invalid length 0".to_string());
    assert_eq!(fault(&f), "serialization error: invalid length 0");
    let mut f = disk.files(id.as_str());
    f.memory = Err("gone".to_string());
    assert!(fault(&f).contains("gone"));
    let mut f = disk.files(id.as_str());
    f.state = Ok(b"other".to_vec());
    assert!(matches!(
        disk.store.get(&id, &f),
        Err(SnapshotError::IntegrityFailed { .. })
    ));
    let mut f = disk.files(id.as_str());
    f.metadata = Stored::Unreadable("missing field `id`".to_string());
    assert_eq!(fault(&f), "serialization error: missing field `id`");
    let mut f = disk.files(id.as_str());
    f.metadata = Stored::Missing;
    assert!(matches!(
        disk.store.get(&id, &f),
        Err(SnapshotError::NotFound(_))
    ));
    assert!(disk.store.verify_integrity(&id, &good).is_ok());
}

#[test]
fn records_read_back() {
    let checksums = SnapshotChecksums {
        memory_sha256: "aa".to_string(),
        state_sha256: "bb".to_string(),
    };
    let text = checksums.save();
    let value: serde_json::Value = serde_json::from_str(&text).unwrap();
    assert_eq!(value["memory_sha256"], "aa");
    assert_eq!(value["state_sha256"], "bb");
    let back = SnapshotChecksums::load(&json(&text)).unwrap();
    assert_eq!(back.memory_sha256, "aa");
    assert!(back.check("aa", "bb").is_ok());
    assert!(back.check("aa", "cc").is_err());

    let meta = SnapshotMetadata {
        id: SnapshotId("id".to_string()),
        key: SnapshotKey::new("key \"quoted\""),
        hypervisor: "chv".to_string(),
        created_at: CreatedAt::new(7, 999_999_999).unwrap(),
        memory_size_bytes: u64::MAX,
        state_size_bytes: 0,
    };
    let back = SnapshotMetadata::load(&json(&meta.save())).unwrap();
    assert_eq!(back.key.as_str(), "key \"quoted\"");
    assert_eq!(back.created_at.nanos(), 999_999_999);
    assert_eq!(back.memory_size_bytes, u64::MAX);
    assert!(SnapshotMetadata::load(&json("\"nonsense\"")).is_none());
}

#[test]
fn points_in_time() {
    assert!(CreatedAt::new(0, 0).is_some());
    let carried = CreatedAt::new(1, 1_500_000_000).unwrap();
    assert_eq!((carried.secs(), carried.nanos()), (2, 500_000_000));
    assert!(CreatedAt::new(u64::MAX, 0).is_none());
}

#[test]
fn messages_of_errors() {
    let text = |e: SnapshotError| e.to_string();
    assert!(text(SnapshotError::NotFound("k".to_string())).contains('k'));
    let failed = text(SnapshotError::IntegrityFailed {
        expected: "aa".to_string(),
        actual: "bb".to_string(),
    });
    assert!(failed.contains("aa") && failed.contains("bb"));
}

#[test]
fn records_written_as_lists() {
    let sums = SnapshotChecksums::load(&json(r#"["m", "s"]"#)).unwrap();
    assert_eq!((sums.memory_sha256.as_str(), sums.state_sha256.as_str()), ("m", "s"));
    assert!(SnapshotChecksums::load(&json(r#"["m"]"#)).is_none());
    let meta = SnapshotMetadata::load(&json(r#"["i", "k", "ch", [5, 7], 1, 2]"#)).unwrap();
    assert_eq!(meta.id.as_str(), "i");
    assert_eq!(meta.key.as_str(), "k");
    assert_eq!((meta.created_at.secs(), meta.created_at.nanos()), (5, 7));
    assert_eq!((meta.memory_size_bytes, meta.state_size_bytes), (1, 2));
    assert!(SnapshotMetadata::load(&json(r#"["i", "k", "ch", [5, 7], 1, 2, 3]"#)).is_none());
}
