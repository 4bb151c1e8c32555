//! Authentication of backup snapshot records against a content-addressed
//! object store.
//!
//! A snapshot record is signed over its canonical form, a byte string that
//! signer and verifier must produce alike to the last byte. This library
//! produces that form, checks an Ed25519 signature over it, and finds the
//! chunks of the snapshot that an object store lacks.
//!
//! - [`canonical`] defines the canonical form and encodes a record;
//!   [`text`] holds its string literals and numbers, and [`unambiguous`]
//!   proves that the form determines the record.
//! - [`signature`] decodes key and signature from base64 and checks the
//!   signature. The key is the one the caller pins or, failing that, the one
//!   the record names; in the second case a valid signature shows that the
//!   record is consistent with itself, not who made it.
//! - [`chunks`] lists the distinct chunks of a snapshot and tests them
//!   against the paths known to exist in an object store, in its flat and
//!   its sharded layout.
//! - [`report`] runs both checks and says when the whole is to count as
//!   failed.
//!
//! The library reads no file and probes no directory: the caller decodes the
//! record, probes the paths that [`chunks::paths_to_probe`] names, and hands
//! over those that exist.
//!
//! Three outside crates do work that is taken on trust: `serde_json` quotes
//! strings, `base64` decodes text, and `ed25519-dalek` parses keys and
//! signatures and verifies. Each call stands in one private function whose
//! documentation says what is assumed of it.

pub mod canonical;
pub mod chunks;
pub mod record;
pub mod report;
pub mod signature;
pub mod text;
pub mod unambiguous;

pub use canonical::{canonical_snapshot_bytes, canonical_snapshot_text};
pub use chunks::{
    chunk_exists, missing_chunks, missing_from, missing_report, paths_to_probe, probe_paths,
    unique_chunks, MissingReport, ObjectStore, DEFAULT_DISPLAY_LIMIT,
};
pub use record::{FileEntry, SnapshotMetadata};
pub use report::{verify_snapshot, Report};
pub use signature::{check_signature, resolve_key, verify_signature, KeySource, VerifyError};
