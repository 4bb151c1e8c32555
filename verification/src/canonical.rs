//! The canonical encoding of a snapshot: the exact bytes that a signature
//! covers.
//!
//! The canonical form is a single-line JSON object without whitespace. Its
//! keys come in a fixed order, `id`, `parent`, `timestamp`, `root`, `files`,
//! `signer_pub`; each file is an object with the keys `path`, `mode`,
//! `mod_time`, `size`, `chunk_hashes`. Sequences keep the order they have in
//! the record. The `signature` field is not part of it.

use vstd::prelude::*;
use vstd::string::*;
use vstd::utf8::encode_utf8;
use crate::record::{FileEntry, FileEntryView, SnapshotMetadata, SnapshotView};
use crate::text::{
    canonical_string, decimal, html_safe, law_canonical_string_html_safe, lemma_decimal_html_safe,
    lemma_html_safe_concat, push_canonical_string, push_decimal,
};

verus! {

/// `items` joined by single commas.
pub open spec fn comma_separated(items: Seq<Seq<char>>) -> Seq<char>
    decreases items.len(),
{
    if items.len() == 0 {
        Seq::empty()
    } else if items.len() == 1 {
        items[0]
    } else {
        items[0] + seq![','] + comma_separated(items.drop_first())
    }
}

/// The canonical string literals of `texts`, in order.
pub open spec fn canonical_strings(texts: Seq<Seq<char>>) -> Seq<Seq<char>> {
    Seq::new(texts.len(), |i: int| canonical_string(texts[i]))
}

/// The canonical object of one file.
pub open spec fn canonical_file(file: FileEntryView) -> Seq<char> {
    "{\"path\":"@ + canonical_string(file.path) + ",\"mode\":"@ + decimal(file.mode as nat)
        + ",\"mod_time\":"@ + canonical_string(file.mod_time) + ",\"size\":"@ + decimal(
        file.size as nat,
    ) + ",\"chunk_hashes\":["@ + comma_separated(canonical_strings(file.chunk_hashes)) + "]}"@
}

/// The canonical objects of `files`, in order.
pub open spec fn canonical_files(files: Seq<FileEntryView>) -> Seq<Seq<char>> {
    Seq::new(files.len(), |i: int| canonical_file(files[i]))
}

/// The canonical value of the `parent` field: `null` for a root snapshot,
/// else a string literal.
pub open spec fn canonical_parent(parent: Option<Seq<char>>) -> Seq<char> {
    match parent {
        Some(p) => canonical_string(p),
        None => "null"@,
    }
}

/// The canonical form of a snapshot, as text.
pub open spec fn canonical_text(snap: SnapshotView) -> Seq<char> {
    "{\"id\":"@ + canonical_string(snap.id) + ",\"parent\":"@ + canonical_parent(snap.parent)
        + ",\"timestamp\":"@ + canonical_string(snap.timestamp) + ",\"root\":"@
        + canonical_string(snap.root) + ",\"files\":["@ + comma_separated(
        canonical_files(snap.files),
    ) + "],\"signer_pub\":"@ + canonical_string(snap.signer_pub) + "}"@
}

/// The canonical form of a snapshot: the UTF-8 bytes of its canonical text.
pub open spec fn canonical_bytes(snap: SnapshotView) -> Seq<u8> {
    encode_utf8(canonical_text(snap))
}

/// Joining one more item: a comma goes in front of it unless it is the
/// first.
pub proof fn lemma_comma_separated_push(items: Seq<Seq<char>>, item: Seq<char>)
    ensures
        comma_separated(items.push(item)) == if items.len() == 0 {
            item
        } else {
            comma_separated(items) + seq![','] + item
        },
    decreases items.len(),
{
    let all = items.push(item);
    if items.len() == 0 {
    } else if items.len() == 1 {
        assert(all.drop_first() =~= seq![item]);
        assert(comma_separated(all.drop_first()) == item);
        assert(all[0] + seq![','] + item =~= comma_separated(items) + seq![','] + item);
    } else {
        assert(all.drop_first() =~= items.drop_first().push(item));
        lemma_comma_separated_push(items.drop_first(), item);
        assert(all[0] + seq![','] + (comma_separated(items.drop_first()) + seq![','] + item)
            =~= (items[0] + seq![','] + comma_separated(items.drop_first())) + seq![','] + item);
    }
}

/// A list of texts without HTML-sensitive characters, joined by commas, is
/// such a text.
proof fn lemma_comma_separated_html_safe(items: Seq<Seq<char>>)
    requires
        forall|i: int| 0 <= i < items.len() ==> html_safe(#[trigger] items[i]),
    ensures
        html_safe(comma_separated(items)),
    decreases items.len(),
{
    if items.len() >= 2 {
        let rest = items.drop_first();
        assert forall|i: int| 0 <= i < rest.len() implies html_safe(#[trigger] rest[i]) by {
            assert(rest[i] == items[i + 1]);
        }
        lemma_comma_separated_html_safe(rest);
        lemma_html_safe_concat(items[0], seq![',']);
        lemma_html_safe_concat(items[0] + seq![','], comma_separated(rest));
    }
}

/// The canonical object of a file holds no bare `<`, `>` or `&`.
proof fn lemma_canonical_file_html_safe(file: FileEntryView)
    ensures
        html_safe(canonical_file(file)),
{
    reveal_strlit("{\"path\":");
    reveal_strlit(",\"mode\":");
    reveal_strlit(",\"mod_time\":");
    reveal_strlit(",\"size\":");
    reveal_strlit(",\"chunk_hashes\":[");
    reveal_strlit("]}");
    let hashes = canonical_strings(file.chunk_hashes);
    assert forall|i: int| 0 <= i < hashes.len() implies html_safe(#[trigger] hashes[i]) by {
        law_canonical_string_html_safe(file.chunk_hashes[i]);
    }
    lemma_comma_separated_html_safe(hashes);
    law_canonical_string_html_safe(file.path);
    law_canonical_string_html_safe(file.mod_time);
    lemma_decimal_html_safe(file.mode as nat);
    lemma_decimal_html_safe(file.size as nat);
    let a1 = "{\"path\":"@ + canonical_string(file.path);
    lemma_html_safe_concat("{\"path\":"@, canonical_string(file.path));
    let a2 = a1 + ",\"mode\":"@;
    lemma_html_safe_concat(a1, ",\"mode\":"@);
    let a3 = a2 + decimal(file.mode as nat);
    lemma_html_safe_concat(a2, decimal(file.mode as nat));
    let a4 = a3 + ",\"mod_time\":"@;
    lemma_html_safe_concat(a3, ",\"mod_time\":"@);
    let a5 = a4 + canonical_string(file.mod_time);
    lemma_html_safe_concat(a4, canonical_string(file.mod_time));
    let a6 = a5 + ",\"size\":"@;
    lemma_html_safe_concat(a5, ",\"size\":"@);
    let a7 = a6 + decimal(file.size as nat);
    lemma_html_safe_concat(a6, decimal(file.size as nat));
    let a8 = a7 + ",\"chunk_hashes\":["@;
    lemma_html_safe_concat(a7, ",\"chunk_hashes\":["@);
    let a9 = a8 + comma_separated(hashes);
    lemma_html_safe_concat(a8, comma_separated(hashes));
    lemma_html_safe_concat(a9, "]}"@);
}

/// Whatever the record holds, its canonical text shows no bare `<`, `>` or
/// `&`.
pub proof fn law_canonical_text_html_safe(snap: SnapshotView)
    ensures
        html_safe(canonical_text(snap)),
{
    reveal_strlit("{\"id\":");
    reveal_strlit(",\"parent\":");
    reveal_strlit("null");
    reveal_strlit(",\"timestamp\":");
    reveal_strlit(",\"root\":");
    reveal_strlit(",\"files\":[");
    reveal_strlit("],\"signer_pub\":");
    reveal_strlit("}");
    let files = canonical_files(snap.files);
    assert forall|i: int| 0 <= i < files.len() implies html_safe(#[trigger] files[i]) by {
        lemma_canonical_file_html_safe(snap.files[i]);
    }
    lemma_comma_separated_html_safe(files);
    law_canonical_string_html_safe(snap.id);
    match snap.parent {
        Some(p) => {
            law_canonical_string_html_safe(p);
        },
        None => {},
    }
    law_canonical_string_html_safe(snap.timestamp);
    law_canonical_string_html_safe(snap.root);
    law_canonical_string_html_safe(snap.signer_pub);
    let a1 = "{\"id\":"@ + canonical_string(snap.id);
    lemma_html_safe_concat("{\"id\":"@, canonical_string(snap.id));
    let a2 = a1 + ",\"parent\":"@;
    lemma_html_safe_concat(a1, ",\"parent\":"@);
    let a3 = a2 + canonical_parent(snap.parent);
    lemma_html_safe_concat(a2, canonical_parent(snap.parent));
    let a4 = a3 + ",\"timestamp\":"@;
    lemma_html_safe_concat(a3, ",\"timestamp\":"@);
    let a5 = a4 + canonical_string(snap.timestamp);
    lemma_html_safe_concat(a4, canonical_string(snap.timestamp));
    let a6 = a5 + ",\"root\":"@;
    lemma_html_safe_concat(a5, ",\"root\":"@);
    let a7 = a6 + canonical_string(snap.root);
    lemma_html_safe_concat(a6, canonical_string(snap.root));
    let a8 = a7 + ",\"files\":["@;
    lemma_html_safe_concat(a7, ",\"files\":["@);
    let a9 = a8 + comma_separated(files);
    lemma_html_safe_concat(a8, comma_separated(files));
    let a10 = a9 + "],\"signer_pub\":"@;
    lemma_html_safe_concat(a9, "],\"signer_pub\":"@);
    let a11 = a10 + canonical_string(snap.signer_pub);
    lemma_html_safe_concat(a10, canonical_string(snap.signer_pub));
    lemma_html_safe_concat(a11, "}"@);
}

/// Appends the comma-separated canonical literals of `hashes` to `out`.
fn push_chunk_hashes(out: &mut String, hashes: &Vec<String>)
    ensures
        final(out)@ == old(out)@ + comma_separated(canonical_strings(hashes.deep_view())),
{
    let ghost all = canonical_strings(hashes.deep_view());
    let ghost start = out@;
    assert(all.take(0) =~= Seq::<Seq<char>>::empty());
    assert(out@ =~= start + comma_separated(all.take(0)));
    let mut i: usize = 0;
    while i < hashes.len()
        invariant
            0 <= i <= hashes.len(),
            all == canonical_strings(hashes.deep_view()),
            all.len() == hashes.len(),
            out@ == start + comma_separated(all.take(i as int)),
        decreases hashes.len() - i,
    {
        proof {
            reveal_strlit(",");
            lemma_comma_separated_push(all.take(i as int), all[i as int]);
            assert(all.take(i as int).push(all[i as int]) =~= all.take(i + 1));
            assert(all[i as int] == canonical_string(hashes[i as int]@));
        }
        if i > 0 {
            out.append(",");
        }
        push_canonical_string(out, hashes[i].as_str());
        assert(out@ =~= start + comma_separated(all.take(i + 1)));
        i += 1;
    }
    assert(all.take(hashes.len() as int) =~= all);
}

/// Appends the canonical object of `file` to `out`.
fn push_canonical_file(out: &mut String, file: &FileEntry)
    ensures
        final(out)@ == old(out)@ + canonical_file(file@),
{
    let ghost start = out@;
    out.append("{\"path\":");
    push_canonical_string(out, file.path.as_str());
    out.append(",\"mode\":");
    push_decimal(out, file.mode as u64);
    out.append(",\"mod_time\":");
    push_canonical_string(out, file.mod_time.as_str());
    out.append(",\"size\":");
    push_decimal(out, file.size);
    out.append(",\"chunk_hashes\":[");
    push_chunk_hashes(out, &file.chunk_hashes);
    out.append("]}");
    assert(out@ =~= start + canonical_file(file@));
}

/// Appends the comma-separated canonical objects of `files` to `out`.
fn push_canonical_files(out: &mut String, files: &Vec<FileEntry>)
    ensures
        final(out)@ == old(out)@ + comma_separated(canonical_files(files.deep_view())),
{
    let ghost all = canonical_files(files.deep_view());
    let ghost start = out@;
    assert(all.take(0) =~= Seq::<Seq<char>>::empty());
    assert(out@ =~= start + comma_separated(all.take(0)));
    let mut i: usize = 0;
    while i < files.len()
        invariant
            0 <= i <= files.len(),
            all == canonical_files(files.deep_view()),
            all.len() == files.len(),
            out@ == start + comma_separated(all.take(i as int)),
        decreases files.len() - i,
    {
        proof {
            reveal_strlit(",");
            lemma_comma_separated_push(all.take(i as int), all[i as int]);
            assert(all.take(i as int).push(all[i as int]) =~= all.take(i + 1));
            assert(all[i as int] == canonical_file(files[i as int]@));
        }
        if i > 0 {
            out.append(",");
        }
        push_canonical_file(out, &files[i]);
        assert(out@ =~= start + comma_separated(all.take(i + 1)));
        i += 1;
    }
    assert(all.take(files.len() as int) =~= all);
}

/// The canonical form of `snap` as text.
pub fn canonical_snapshot_text(snap: &SnapshotMetadata) -> (text: String)
    ensures
        text@ == canonical_text(snap@),
{
    let mut out = String::new();
    out.append("{\"id\":");
    push_canonical_string(&mut out, snap.id.as_str());
    out.append(",\"parent\":");
    match &snap.parent {
        Some(p) => {
            push_canonical_string(&mut out, p.as_str());
        },
        None => {
            out.append("null");
        },
    }
    out.append(",\"timestamp\":");
    push_canonical_string(&mut out, snap.timestamp.as_str());
    out.append(",\"root\":");
    push_canonical_string(&mut out, snap.root.as_str());
    out.append(",\"files\":[");
    push_canonical_files(&mut out, &snap.files);
    out.append("],\"signer_pub\":");
    push_canonical_string(&mut out, snap.signer_pub.as_str());
    out.append("}");
    assert(out@ =~= canonical_text(snap@));
    out
}

/// The canonical bytes of `snap`: what its signature is computed over.
///
/// The result depends on the record's fields alone, `signature` excepted,
/// and the function cannot fail.
pub fn canonical_snapshot_bytes(snap: &SnapshotMetadata) -> (bytes: Vec<u8>)
    ensures
        bytes@ == canonical_bytes(snap@),
{
    let text = canonical_snapshot_text(snap);
    text.as_str().as_bytes_vec()
}

} // verus!
