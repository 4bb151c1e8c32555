use verify_snapshot::chunks::{
    chunk_exists, missing_chunks, missing_from, missing_report, paths_to_probe, probe_paths,
    sharded_path_of, unique_chunks, ObjectStore, DEFAULT_DISPLAY_LIMIT,
};
use verify_snapshot::record::{FileEntry, SnapshotMetadata};

fn file(path: &str, size: u64, hashes: &[&str]) -> FileEntry {
    FileEntry {
        path: path.to_string(),
        mode: 420,
        mod_time: "2024-01-02T03:04:05Z".to_string(),
        size,
        chunk_hashes: hashes.iter().map(|h| h.to_string()).collect(),
    }
}

fn snapshot(files: Vec<FileEntry>) -> SnapshotMetadata {
    SnapshotMetadata {
        id: "snap-1".to_string(),
        parent: None,
        timestamp: "2024-01-02T03:04:05Z".to_string(),
        root: "r00t".to_string(),
        files,
        signer_pub: "cHVi".to_string(),
        signature: "c2ln".to_string(),
    }
}

fn store(paths: &[&str]) -> ObjectStore {
    let mut store = ObjectStore::new();
    for p in paths {
        store.insert(p.to_string());
    }
    store
}

fn strings(items: &[&str]) -> Vec<String> {
    items.iter().map(|s| s.to_string()).collect()
}

#[test]
fn chunk_in_flat_layout_is_present() {
    assert!(chunk_exists(&store(&["abcdef12"]), "abcdef12"));
}

#[test]
fn chunk_in_sharded_layout_is_present() {
    assert!(chunk_exists(&store(&["ab/cdef12"]), "abcdef12"));
}

#[test]
fn chunk_in_both_layouts_is_present() {
    assert!(chunk_exists(&store(&["abcdef12", "ab/cdef12"]), "abcdef12"));
}

#[test]
fn chunk_in_neither_layout_is_missing() {
    assert!(!chunk_exists(&store(&[]), "abcdef12"));
    assert!(!chunk_exists(&store(&["abcdef13", "ab/cdef13", "abc/def12", "a/bcdef12"]), "abcdef12"));
    assert!(!chunk_exists(&store(&["ab", "cdef12", "ab/"]), "abcdef12"));
}

#[test]
fn short_hashes_have_no_sharded_layout() {
    assert!(chunk_exists(&store(&["ab"]), "ab"));
    assert!(!chunk_exists(&store(&["ab/"]), "ab"));
    assert!(!chunk_exists(&store(&["a/b"]), "ab"));
    assert!(chunk_exists(&store(&["a"]), "a"));
    assert!(chunk_exists(&store(&[""]), ""));
    assert!(!chunk_exists(&store(&["/"]), ""));
    assert_eq!(sharded_path_of("ab"), None);
    assert_eq!(sharded_path_of(""), None);
}

#[test]
fn hash_of_three_characters_is_sharded_after_two() {
    assert_eq!(sharded_path_of("abc"), Some("ab/c".to_string()));
    assert!(chunk_exists(&store(&["ab/c"]), "abc"));
    assert!(!chunk_exists(&store(&["a/bc"]), "abc"));
}

#[test]
fn shard_prefix_counts_characters() {
    assert_eq!(sharded_path_of("\u{e9}\u{e8}xyz"), Some("\u{e9}\u{e8}/xyz".to_string()));
    assert_eq!(sharded_path_of("\u{e9}\u{e8}"), None);
    assert!(chunk_exists(&store(&["\u{e9}\u{e8}/xyz"]), "\u{e9}\u{e8}xyz"));
}

#[test]
fn probe_paths_lists_flat_then_sharded() {
    assert_eq!(probe_paths("abcdef12"), strings(&["abcdef12", "ab/cdef12"]));
    assert_eq!(probe_paths("abc"), strings(&["abc", "ab/c"]));
    assert_eq!(probe_paths("ab"), strings(&["ab"]));
    assert_eq!(probe_paths(""), strings(&[""]));
}

#[test]
fn store_holds_what_was_inserted() {
    let mut s = ObjectStore::new();
    assert!(!s.contains("x"));
    s.insert("x".to_string());
    assert!(s.contains("x"));
    assert!(!s.contains("y"));
    s.insert("x".to_string());
    assert!(s.contains("x"));
}

#[test]
fn unique_chunks_lists_each_hash_once_in_order_of_first_reference() {
    let snap = snapshot(vec![
        file("a", 1, &["h2", "h1", "h2"]),
        file("b", 1, &[]),
        file("c", 1, &["h3", "h1", "h4", "h3"]),
    ]);
    assert_eq!(unique_chunks(&snap), strings(&["h2", "h1", "h3", "h4"]));
}

#[test]
fn empty_snapshot_has_no_chunks_and_no_size() {
    let snap = snapshot(Vec::new());
    assert_eq!(unique_chunks(&snap), Vec::<String>::new());
    assert_eq!(snap.total_declared_size(), 0);
    assert_eq!(snap.file_count(), 0);
    assert_eq!(missing_chunks(&snap, &store(&[])), Vec::<String>::new());
    let report = missing_report(&missing_chunks(&snap, &store(&[])), 20);
    assert_eq!(report.total, 0);
    assert_eq!(report.shown, Vec::<String>::new());
    assert_eq!(report.more, 0);
}

#[test]
fn files_without_chunks_have_no_unique_chunks() {
    let snap = snapshot(vec![file("a", 5, &[]), file("b", 6, &[])]);
    assert_eq!(unique_chunks(&snap), Vec::<String>::new());
    assert_eq!(snap.total_declared_size(), 11);
}

#[test]
fn total_size_is_the_sum_of_declared_sizes() {
    let snap = snapshot(vec![file("a", 5, &[]), file("b", 0, &[]), file("c", 1000, &[])]);
    assert_eq!(snap.total_declared_size(), 1005);
    assert_eq!(snap.file_count(), 3);
}

#[test]
fn total_size_does_not_overflow() {
    let snap = snapshot(vec![
        file("a", u64::MAX, &[]),
        file("b", u64::MAX, &[]),
        file("c", 2, &[]),
    ]);
    assert_eq!(snap.total_declared_size(), 36893488147419103232u128);
}

#[test]
fn missing_chunks_are_those_in_neither_layout() {
    let snap = snapshot(vec![
        file("a", 1, &["aaaa1111", "bbbb2222", "aaaa1111"]),
        file("b", 1, &["cccc3333", "dddd4444", "bbbb2222", "ee"]),
    ]);
    let s = store(&["aaaa1111", "cc/cc3333", "e/e"]);
    assert_eq!(missing_chunks(&snap, &s), strings(&["bbbb2222", "dddd4444", "ee"]));
    assert_eq!(
        missing_from(&strings(&["dddd4444", "aaaa1111", "cccc3333"]), &s),
        strings(&["dddd4444"])
    );
}

#[test]
fn nothing_is_missing_from_a_complete_store() {
    let snap = snapshot(vec![file("a", 1, &["aaaa1111", "bbbb2222"])]);
    let s = store(&["aaaa1111", "bb/bb2222"]);
    assert_eq!(missing_chunks(&snap, &s), Vec::<String>::new());
}

#[test]
fn report_of_25_missing_with_limit_20_shows_20_and_counts_5_more() {
    let hashes: Vec<String> = (0..25).map(|i| format!("hash{:02}", i)).collect();
    let report = missing_report(&hashes, 20);
    assert_eq!(report.total, 25);
    assert_eq!(report.shown.len(), 20);
    assert_eq!(report.shown, hashes[..20].to_vec());
    assert_eq!(report.more, 5);
}

#[test]
fn report_within_the_limit_shows_everything() {
    let hashes = strings(&["h1", "h2", "h3"]);
    let report = missing_report(&hashes, 20);
    assert_eq!(report.total, 3);
    assert_eq!(report.shown, hashes);
    assert_eq!(report.more, 0);
    let exact = missing_report(&hashes, 3);
    assert_eq!(exact.shown, hashes);
    assert_eq!(exact.more, 0);
}

#[test]
fn report_with_limit_zero_shows_nothing_and_counts_all() {
    let hashes = strings(&["h1", "h2", "h3"]);
    let report = missing_report(&hashes, 0);
    assert_eq!(report.total, 3);
    assert_eq!(report.shown, Vec::<String>::new());
    assert_eq!(report.more, 3);
}

#[test]
fn report_just_over_the_limit_counts_one_more() {
    let hashes = strings(&["h1", "h2", "h3"]);
    let report = missing_report(&hashes, 2);
    assert_eq!(report.shown, strings(&["h1", "h2"]));
    assert_eq!(report.more, 1);
}

#[test]
fn default_display_limit_is_twenty() {
    assert_eq!(DEFAULT_DISPLAY_LIMIT, 20);
}

#[test]
fn paths_to_probe_lists_the_candidates_of_each_distinct_chunk() {
    let snap = snapshot(vec![
        file("a", 1, &["abcdef12", "zz", "abcdef12"]),
        file("b", 1, &["x1y2", "zz"]),
    ]);
    assert_eq!(
        paths_to_probe(&snap),
        strings(&["abcdef12", "ab/cdef12", "zz", "x1y2", "x1/y2"])
    );
    assert_eq!(paths_to_probe(&snapshot(Vec::new())), Vec::<String>::new());
}

#[test]
fn store_from_paths_knows_exactly_those_paths() {
    let s = ObjectStore::from_paths(&strings(&["abcdef12", "x1/y2", "abcdef12"]));
    assert!(s.contains("abcdef12"));
    assert!(s.contains("x1/y2"));
    assert!(!s.contains("x1y2"));
    assert!(!s.contains(""));
    let empty = ObjectStore::from_paths(&Vec::new());
    assert!(!empty.contains("abcdef12"));
}

#[test]
fn probing_only_the_candidate_paths_finds_the_same_missing_chunks() {
    let snap = snapshot(vec![
        file("a", 1, &["aaaa1111", "bbbb2222", "cccc3333"]),
        file("b", 1, &["dd", "eeee5555"]),
    ]);
    let on_disk = ["aaaa1111", "bb/bb2222", "dd/", "d/d", "ee/ee5555", "unrelated", "cc/cc3334"];
    let everything = store(&on_disk);
    let found: Vec<String> = paths_to_probe(&snap)
        .into_iter()
        .filter(|p| on_disk.contains(&p.as_str()))
        .collect();
    let probed = ObjectStore::from_paths(&found);
    assert_eq!(missing_chunks(&snap, &probed), missing_chunks(&snap, &everything));
    assert_eq!(missing_chunks(&snap, &probed), strings(&["cccc3333", "dd"]));
}
