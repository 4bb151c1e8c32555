use verify_snapshot::canonical::{canonical_snapshot_bytes, canonical_snapshot_text};
use verify_snapshot::record::{FileEntry, SnapshotMetadata};
use verify_snapshot::text::canonical_string_of;

fn file(path: &str, mode: u32, size: u64, hashes: &[&str]) -> FileEntry {
    FileEntry {
        path: path.to_string(),
        mode,
        mod_time: "2024-01-02T03:04:05Z".to_string(),
        size,
        chunk_hashes: hashes.iter().map(|h| h.to_string()).collect(),
    }
}

fn snapshot(files: Vec<FileEntry>) -> SnapshotMetadata {
    SnapshotMetadata {
        id: "snap-1".to_string(),
        parent: None,
        timestamp: "2024-01-02T03:04:05Z".to_string(),
        root: "r00t".to_string(),
        files,
        signer_pub: "cHVi".to_string(),
        signature: "c2ln".to_string(),
    }
}

fn text_of(snap: &SnapshotMetadata) -> String {
    String::from_utf8(canonical_snapshot_bytes(snap)).unwrap()
}

#[test]
fn empty_snapshot_has_exact_canonical_bytes() {
    let snap = snapshot(Vec::new());
    let expected = "{\"id\":\"snap-1\",\"parent\":null,\"timestamp\":\"2024-01-02T03:04:05Z\",\"root\":\"r00t\",\"files\":[],\"signer_pub\":\"cHVi\"}";
    assert_eq!(canonical_snapshot_bytes(&snap), expected.as_bytes().to_vec());
}

#[test]
fn full_snapshot_has_exact_canonical_bytes() {
    let mut snap = snapshot(vec![
        file("etc/hosts", 420, 1234, &["aa11", "bb22"]),
        file("bin/sh", 493, 0, &[]),
        file("x", 0, 18446744073709551615, &["cc33"]),
    ]);
    snap.parent = Some("snap-0".to_string());
    let expected = concat_all(&[
        "{\"id\":\"snap-1\",\"parent\":\"snap-0\",\"timestamp\":\"2024-01-02T03:04:05Z\",",
        "\"root\":\"r00t\",\"files\":[",
        "{\"path\":\"etc/hosts\",\"mode\":420,\"mod_time\":\"2024-01-02T03:04:05Z\",\"size\":1234,",
        "\"chunk_hashes\":[\"aa11\",\"bb22\"]},",
        "{\"path\":\"bin/sh\",\"mode\":493,\"mod_time\":\"2024-01-02T03:04:05Z\",\"size\":0,",
        "\"chunk_hashes\":[]},",
        "{\"path\":\"x\",\"mode\":0,\"mod_time\":\"2024-01-02T03:04:05Z\",",
        "\"size\":18446744073709551615,\"chunk_hashes\":[\"cc33\"]}",
        "],\"signer_pub\":\"cHVi\"}",
    ]);
    assert_eq!(text_of(&snap), expected);
    assert_eq!(canonical_snapshot_text(&snap), expected);
}

fn concat_all(parts: &[&str]) -> String {
    let mut out = String::new();
    for p in parts {
        out.push_str(p);
    }
    out
}

#[test]
fn canonical_bytes_are_the_utf8_of_the_canonical_text() {
    let snap = snapshot(vec![file("d\u{e9}j\u{e0} vu/\u{1f600}", 1, 2, &["h"])]);
    assert_eq!(
        canonical_snapshot_bytes(&snap),
        canonical_snapshot_text(&snap).into_bytes()
    );
}

#[test]
fn signature_is_not_part_of_the_canonical_bytes() {
    let a = snapshot(vec![file("a", 1, 2, &["h"])]);
    let mut b = snapshot(vec![file("a", 1, 2, &["h"])]);
    b.signature = "something else entirely".to_string();
    assert_eq!(canonical_snapshot_bytes(&a), canonical_snapshot_bytes(&b));
    assert!(!text_of(&a).contains("c2ln"));
    assert!(!text_of(&a).contains("signature"));
}

#[test]
fn signer_pub_is_part_of_the_canonical_bytes() {
    let a = snapshot(Vec::new());
    let mut b = snapshot(Vec::new());
    b.signer_pub = "b3RoZXI=".to_string();
    assert_ne!(canonical_snapshot_bytes(&a), canonical_snapshot_bytes(&b));
    assert!(text_of(&b).ends_with(",\"signer_pub\":\"b3RoZXI=\"}"));
}

#[test]
fn encoding_twice_gives_identical_bytes() {
    let snap = snapshot(vec![
        file("a<b>c&d", 420, 7, &["h1", "h2", "h1"]),
        file("second", 493, 9, &["h3"]),
    ]);
    let first = canonical_snapshot_bytes(&snap);
    let second = canonical_snapshot_bytes(&snap);
    assert_eq!(first, second);
    let copy = snapshot(vec![
        file("a<b>c&d", 420, 7, &["h1", "h2", "h1"]),
        file("second", 493, 9, &["h3"]),
    ]);
    assert_eq!(first, canonical_snapshot_bytes(&copy));
}

#[test]
fn reordering_files_changes_the_canonical_bytes() {
    let a = snapshot(vec![file("one", 1, 1, &["h1"]), file("two", 2, 2, &["h2"])]);
    let b = snapshot(vec![file("two", 2, 2, &["h2"]), file("one", 1, 1, &["h1"])]);
    assert_ne!(canonical_snapshot_bytes(&a), canonical_snapshot_bytes(&b));
    assert!(text_of(&a).find("\"one\"").unwrap() < text_of(&a).find("\"two\"").unwrap());
    assert!(text_of(&b).find("\"two\"").unwrap() < text_of(&b).find("\"one\"").unwrap());
}

#[test]
fn reordering_chunk_hashes_changes_the_canonical_bytes() {
    let a = snapshot(vec![file("one", 1, 1, &["h1", "h2"])]);
    let b = snapshot(vec![file("one", 1, 1, &["h2", "h1"])]);
    assert_ne!(canonical_snapshot_bytes(&a), canonical_snapshot_bytes(&b));
    assert!(text_of(&a).contains("\"chunk_hashes\":[\"h1\",\"h2\"]"));
    assert!(text_of(&b).contains("\"chunk_hashes\":[\"h2\",\"h1\"]"));
}

#[test]
fn moving_a_chunk_between_files_changes_the_canonical_bytes() {
    let a = snapshot(vec![file("one", 1, 1, &["h1", "h2"]), file("two", 1, 1, &[])]);
    let b = snapshot(vec![file("one", 1, 1, &["h1"]), file("two", 1, 1, &["h2"])]);
    assert_ne!(canonical_snapshot_bytes(&a), canonical_snapshot_bytes(&b));
}

#[test]
fn html_sensitive_characters_are_written_as_unicode_escapes() {
    let snap = snapshot(vec![file("a<b>c&d", 420, 1, &[])]);
    let text = text_of(&snap);
    assert!(text.contains("{\"path\":\"a\\u003cb\\u003ec\\u0026d\","));
    assert!(!text.contains("a<b>c&d"));
    assert!(!text.contains('<'));
    assert!(!text.contains('>'));
    assert!(!text.contains('&'));
}

#[test]
fn html_sensitive_characters_are_escaped_in_every_string_field() {
    let mut snap = snapshot(vec![FileEntry {
        path: "<p>".to_string(),
        mode: 1,
        mod_time: "<m>".to_string(),
        size: 1,
        chunk_hashes: vec!["<h>&".to_string()],
    }]);
    snap.id = "<i>".to_string();
    snap.parent = Some("&p".to_string());
    snap.timestamp = "<t>".to_string();
    snap.root = "<r>".to_string();
    snap.signer_pub = "<s>".to_string();
    let text = text_of(&snap);
    assert!(!text.contains('<'));
    assert!(!text.contains('>'));
    assert!(!text.contains('&'));
    assert!(text.contains("\"id\":\"\\u003ci\\u003e\""));
    assert!(text.contains("\"parent\":\"\\u0026p\""));
    assert!(text.contains("\"timestamp\":\"\\u003ct\\u003e\""));
    assert!(text.contains("\"root\":\"\\u003cr\\u003e\""));
    assert!(text.contains("\"mod_time\":\"\\u003cm\\u003e\""));
    assert!(text.contains("\"chunk_hashes\":[\"\\u003ch\\u003e\\u0026\"]"));
    assert!(text.contains("\"signer_pub\":\"\\u003cs\\u003e\""));
}

#[test]
fn canonical_string_quotes_plain_text() {
    assert_eq!(canonical_string_of("a"), "\"a\"");
    assert_eq!(canonical_string_of(""), "\"\"");
    assert_eq!(canonical_string_of("hello world"), "\"hello world\"");
}

#[test]
fn canonical_string_escapes_quote_and_backslash() {
    assert_eq!(canonical_string_of("say \"hi\""), "\"say \\\"hi\\\"\"");
    assert_eq!(canonical_string_of("a\\b"), "\"a\\\\b\"");
    assert_eq!(canonical_string_of("\\u003c"), "\"\\\\u003c\"");
}

#[test]
fn canonical_string_escapes_control_characters() {
    assert_eq!(canonical_string_of("\n"), "\"\\n\"");
    assert_eq!(canonical_string_of("\r"), "\"\\r\"");
    assert_eq!(canonical_string_of("\t"), "\"\\t\"");
    assert_eq!(canonical_string_of("\u{08}"), "\"\\b\"");
    assert_eq!(canonical_string_of("\u{0c}"), "\"\\f\"");
    assert_eq!(canonical_string_of("\u{00}"), "\"\\u0000\"");
    assert_eq!(canonical_string_of("\u{01}"), "\"\\u0001\"");
    assert_eq!(canonical_string_of("\u{0b}"), "\"\\u000b\"");
    assert_eq!(canonical_string_of("\u{1f}"), "\"\\u001f\"");
}

#[test]
fn canonical_string_leaves_other_characters_alone() {
    assert_eq!(canonical_string_of(" "), "\" \"");
    assert_eq!(canonical_string_of("/"), "\"/\"");
    assert_eq!(canonical_string_of("'"), "\"'\"");
    assert_eq!(canonical_string_of("\u{7f}"), "\"\u{7f}\"");
    assert_eq!(canonical_string_of("d\u{e9}j\u{e0}"), "\"d\u{e9}j\u{e0}\"");
    assert_eq!(canonical_string_of("\u{2028}"), "\"\u{2028}\"");
    assert_eq!(canonical_string_of("\u{1f600}"), "\"\u{1f600}\"");
}

#[test]
fn canonical_string_escapes_html_sensitive_characters_in_lower_case_hex() {
    assert_eq!(canonical_string_of("<"), "\"\\u003c\"");
    assert_eq!(canonical_string_of(">"), "\"\\u003e\"");
    assert_eq!(canonical_string_of("&"), "\"\\u0026\"");
    assert_eq!(canonical_string_of("a<b>c&d"), "\"a\\u003cb\\u003ec\\u0026d\"");
}

#[test]
fn numbers_are_plain_decimal_digits() {
    for (mode, size, expected) in [
        (0u32, 0u64, "\"mode\":0,\"mod_time\":\"2024-01-02T03:04:05Z\",\"size\":0,"),
        (9, 10, "\"mode\":9,\"mod_time\":\"2024-01-02T03:04:05Z\",\"size\":10,"),
        (100, 1000000, "\"mode\":100,\"mod_time\":\"2024-01-02T03:04:05Z\",\"size\":1000000,"),
        (
            4294967295,
            18446744073709551615,
            "\"mode\":4294967295,\"mod_time\":\"2024-01-02T03:04:05Z\",\"size\":18446744073709551615,",
        ),
        (33188, 4096, "\"mode\":33188,\"mod_time\":\"2024-01-02T03:04:05Z\",\"size\":4096,"),
    ] {
        let text = text_of(&snapshot(vec![file("f", mode, size, &[])]));
        assert!(text.contains(expected), "{} lacks {}", text, expected);
    }
}

#[test]
fn absent_parent_is_null_and_differs_from_the_string_null() {
    let root = snapshot(Vec::new());
    let mut child = snapshot(Vec::new());
    child.parent = Some("null".to_string());
    assert!(text_of(&root).contains(",\"parent\":null,"));
    assert!(text_of(&child).contains(",\"parent\":\"null\","));
    assert_ne!(canonical_snapshot_bytes(&root), canonical_snapshot_bytes(&child));
}

#[test]
fn canonical_text_has_no_whitespace_of_its_own() {
    let mut snap = snapshot(vec![file("a", 1, 2, &["h1", "h2"]), file("b", 3, 4, &[])]);
    snap.timestamp = "t".to_string();
    snap.files[0].mod_time = "m".to_string();
    snap.files[1].mod_time = "m".to_string();
    let text = text_of(&snap);
    assert!(!text.contains(' '));
    assert!(!text.contains('\n'));
    assert!(!text.contains('\t'));
}

#[test]
fn key_order_is_fixed() {
    let mut snap = snapshot(vec![file("a", 1, 2, &["h1"])]);
    snap.parent = Some("p".to_string());
    let text = text_of(&snap);
    let keys = [
        "{\"id\":",
        ",\"parent\":",
        ",\"timestamp\":",
        ",\"root\":",
        ",\"files\":[",
        "{\"path\":",
        ",\"mode\":",
        ",\"mod_time\":",
        ",\"size\":",
        ",\"chunk_hashes\":[",
        "]}",
        "],\"signer_pub\":",
    ];
    let mut at = 0;
    for key in keys {
        let found = text[at..].find(key).unwrap();
        at += found + key.len();
    }
    assert!(text.starts_with("{\"id\":"));
    assert!(text.ends_with("}"));
}

#[test]
fn a_string_cannot_imitate_structure() {
    let plain = snapshot(vec![file("a", 1, 2, &["h1", "h2"])]);
    let tricky = snapshot(vec![file("a", 1, 2, &["h1\",\"h2"])]);
    assert_ne!(canonical_snapshot_bytes(&plain), canonical_snapshot_bytes(&tricky));
    assert!(text_of(&tricky).contains("[\"h1\\\",\\\"h2\"]"));
}
