//! The whole check of a snapshot, and when it counts as failed.

use vstd::prelude::*;
use crate::canonical::canonical_bytes;
use crate::chunks::{
    missing_among, missing_from, missing_report, truncated, unique_chunk_hashes, unique_chunks,
    MissingReport, ObjectStore,
};
use crate::record::{total_size, SnapshotMetadata};
use crate::signature::{
    effective_key, resolve_key, signature_check, text_of, verify_signature, KeySource, VerifyError,
};

verus! {

/// What checking a snapshot found.
#[derive(Debug, PartialEq, Eq)]
pub struct Report {
    /// Number of files in the snapshot.
    pub file_count: usize,
    /// Sum of the declared sizes of the files.
    pub total_size: u128,
    /// Where the verification key came from.
    pub key_source: KeySource,
    /// Whether the signature holds, and if not, why.
    pub signature: Result<(), VerifyError>,
    /// Number of distinct chunks that the snapshot refers to.
    pub unique_chunks: usize,
    /// The chunks that the object store lacks, cut down for display.
    pub missing: MissingReport,
}

impl Report {
    /// Whether the check as a whole failed. It fails exactly when the
    /// signature does not hold; missing chunks alone are reported and leave
    /// the decision to the caller.
    pub fn failed(&self) -> (failed: bool)
        ensures
            failed == self.signature is Err,
    {
        self.signature.is_err()
    }

    /// Whether the signature holds only with respect to a key that the
    /// record itself supplied, which shows consistency and not provenance.
    pub fn self_signed(&self) -> (weak: bool)
        ensures
            weak == (self.key_source == KeySource::Embedded),
    {
        match self.key_source {
            KeySource::Embedded => true,
            KeySource::Pinned => false,
        }
    }
}

/// Checks `snap`: its signature over its canonical bytes, under `pinned` if
/// given and else under the key it names, and the presence in `store` of
/// every chunk it refers to. The chunk check is made whether or not the
/// signature holds. At most `limit` missing chunks are listed.
pub fn verify_snapshot(
    snap: &SnapshotMetadata,
    pinned: Option<&str>,
    store: &ObjectStore,
    limit: usize,
) -> (report: Report)
    ensures
        report.file_count == snap@.files.len(),
        report.total_size == total_size(snap@.files),
        report.key_source == if pinned is Some {
            KeySource::Pinned
        } else {
            KeySource::Embedded
        },
        report.signature == signature_check(
            effective_key(snap@.signer_pub, text_of(pinned)),
            snap@.signature,
            canonical_bytes(snap@),
        ),
        report.unique_chunks == unique_chunk_hashes(snap@.files).len(),
        report.missing@ == truncated(
            missing_among(unique_chunk_hashes(snap@.files), store@),
            limit as nat,
        ),
{
    let (_, key_source) = resolve_key(snap, pinned);
    let signature = verify_signature(snap, pinned);
    let unique = unique_chunks(snap);
    let missing = missing_from(&unique, store);
    Report {
        file_count: snap.file_count(),
        total_size: snap.total_declared_size(),
        key_source,
        signature,
        unique_chunks: unique.len(),
        missing: missing_report(&missing, limit),
    }
}

} // verus!
