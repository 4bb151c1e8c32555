use base64::Engine;
use ed25519_dalek::{ExpandedSecretKey, PublicKey, SecretKey};
use verify_snapshot::{
    canonical_snapshot_bytes, verify_snapshot, FileEntry, KeySource, ObjectStore,
    SnapshotMetadata, VerifyError,
};

fn key_pair(seed: u8) -> (SecretKey, PublicKey) {
    let secret = SecretKey::from_bytes(&[seed; 32]).unwrap();
    let public = PublicKey::from(&secret);
    (secret, public)
}

fn b64(bytes: &[u8]) -> String {
    base64::engine::general_purpose::STANDARD.encode(bytes)
}

fn file(path: &str, size: u64, hashes: &[&str]) -> FileEntry {
    FileEntry {
        path: path.to_string(),
        mode: 420,
        mod_time: "2024-01-02T03:04:05Z".to_string(),
        size,
        chunk_hashes: hashes.iter().map(|h| h.to_string()).collect(),
    }
}

fn signed_snapshot(files: Vec<FileEntry>, seed: u8) -> SnapshotMetadata {
    let (secret, public) = key_pair(seed);
    let mut snap = SnapshotMetadata {
        id: "snap-1".to_string(),
        parent: None,
        timestamp: "2024-01-02T03:04:05Z".to_string(),
        root: "r00t".to_string(),
        files,
        signer_pub: b64(public.as_bytes()),
        signature: String::new(),
    };
    let message = canonical_snapshot_bytes(&snap);
    let signature = ExpandedSecretKey::from(&secret).sign(&message, &public);
    snap.signature = b64(&signature.to_bytes());
    snap
}

fn store(paths: &[&str]) -> ObjectStore {
    let mut store = ObjectStore::new();
    for p in paths {
        store.insert(p.to_string());
    }
    store
}

#[test]
fn valid_snapshot_with_complete_store_passes() {
    let snap = signed_snapshot(
        vec![file("a", 10, &["aaaa1111", "bbbb2222"]), file("b", 5, &["aaaa1111"])],
        1,
    );
    let report = verify_snapshot(&snap, None, &store(&["aaaa1111", "bb/bb2222"]), 20);
    assert_eq!(report.file_count, 2);
    assert_eq!(report.total_size, 15);
    assert_eq!(report.key_source, KeySource::Embedded);
    assert_eq!(report.signature, Ok(()));
    assert_eq!(report.unique_chunks, 2);
    assert_eq!(report.missing.total, 0);
    assert_eq!(report.missing.more, 0);
    assert!(report.missing.shown.is_empty());
    assert!(!report.failed());
    assert!(report.self_signed());
}

#[test]
fn missing_chunks_alone_do_not_fail_the_check() {
    let snap = signed_snapshot(vec![file("a", 10, &["aaaa1111", "bbbb2222"])], 1);
    let report = verify_snapshot(&snap, None, &store(&["aaaa1111"]), 20);
    assert_eq!(report.signature, Ok(()));
    assert_eq!(report.missing.total, 1);
    assert_eq!(report.missing.shown, vec!["bbbb2222".to_string()]);
    assert!(!report.failed());
}

#[test]
fn invalid_signature_fails_the_check_and_chunks_are_still_reported() {
    let mut snap = signed_snapshot(vec![file("a", 10, &["aaaa1111", "bbbb2222"])], 1);
    snap.files[0].size += 1;
    let report = verify_snapshot(&snap, None, &store(&["aaaa1111"]), 20);
    assert_eq!(report.signature, Err(VerifyError::SignatureInvalid));
    assert!(report.failed());
    assert_eq!(report.total_size, 11);
    assert_eq!(report.unique_chunks, 2);
    assert_eq!(report.missing.total, 1);
    assert_eq!(report.missing.shown, vec!["bbbb2222".to_string()]);
}

#[test]
fn undecodable_key_or_signature_fails_the_check() {
    let mut snap = signed_snapshot(vec![file("a", 10, &["aaaa1111"])], 1);
    snap.signature = "@@@".to_string();
    let report = verify_snapshot(&snap, None, &store(&[]), 20);
    assert_eq!(report.signature, Err(VerifyError::SignatureDecode));
    assert!(report.failed());
    let report = verify_snapshot(&snap, Some("@@@"), &store(&[]), 20);
    assert_eq!(report.signature, Err(VerifyError::KeyDecode));
    assert_eq!(report.key_source, KeySource::Pinned);
    assert!(report.failed());
    assert!(!report.self_signed());
}

#[test]
fn pinned_key_is_reported_as_pinned() {
    let snap = signed_snapshot(vec![file("a", 10, &["aaaa1111"])], 1);
    let pinned = snap.signer_pub.clone();
    let report = verify_snapshot(&snap, Some(pinned.as_str()), &store(&["aaaa1111"]), 20);
    assert_eq!(report.key_source, KeySource::Pinned);
    assert_eq!(report.signature, Ok(()));
    assert!(!report.self_signed());
    assert!(!report.failed());
}

#[test]
fn empty_snapshot_signed_correctly_is_valid_and_empty() {
    let snap = signed_snapshot(Vec::new(), 2);
    let report = verify_snapshot(&snap, None, &store(&[]), 20);
    assert_eq!(report.file_count, 0);
    assert_eq!(report.total_size, 0);
    assert_eq!(report.unique_chunks, 0);
    assert_eq!(report.signature, Ok(()));
    assert_eq!(report.missing.total, 0);
    assert!(!report.failed());
}

#[test]
fn report_lists_at_most_the_limit_of_missing_chunks() {
    let hashes: Vec<String> = (0..25).map(|i| format!("chunk{:02}", i)).collect();
    let refs: Vec<&str> = hashes.iter().map(|h| h.as_str()).collect();
    let snap = signed_snapshot(vec![file("a", 10, &refs)], 3);
    let report = verify_snapshot(&snap, None, &store(&[]), 20);
    assert_eq!(report.unique_chunks, 25);
    assert_eq!(report.missing.total, 25);
    assert_eq!(report.missing.shown, hashes[..20].to_vec());
    assert_eq!(report.missing.more, 5);
    assert!(!report.failed());
}
