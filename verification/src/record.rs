//! The snapshot record and its mathematical model.

use vstd::prelude::*;

verus! {

/// One file of a snapshot.
#[derive(Debug, PartialEq, Eq)]
pub struct FileEntry {
    /// Relative path, kept as opaque text.
    pub path: String,
    /// Permission and type bits.
    pub mode: u32,
    /// Modification time, kept verbatim.
    pub mod_time: String,
    /// Declared size in bytes.
    pub size: u64,
    /// Content hashes of the file's chunks, in chunk order.
    pub chunk_hashes: Vec<String>,
}

/// What a [`FileEntry`] stands for in contracts.
pub struct FileEntryView {
    pub path: Seq<char>,
    pub mode: u32,
    pub mod_time: Seq<char>,
    pub size: u64,
    pub chunk_hashes: Seq<Seq<char>>,
}

impl View for FileEntry {
    type V = FileEntryView;

    open spec fn view(&self) -> FileEntryView {
        FileEntryView {
            path: self.path@,
            mode: self.mode,
            mod_time: self.mod_time@,
            size: self.size,
            chunk_hashes: self.chunk_hashes.deep_view(),
        }
    }
}

impl DeepView for FileEntry {
    type V = FileEntryView;

    open spec fn deep_view(&self) -> FileEntryView {
        self.view()
    }
}

/// A signed snapshot description.
#[derive(Debug, PartialEq, Eq)]
pub struct SnapshotMetadata {
    /// Identifier of the snapshot.
    pub id: String,
    /// Identifier of the snapshot this one follows, if any.
    pub parent: Option<String>,
    /// Creation time, kept verbatim.
    pub timestamp: String,
    /// Hash summarising the file tree.
    pub root: String,
    /// The files, in signed order.
    pub files: Vec<FileEntry>,
    /// Base64 text of the signer's public key.
    pub signer_pub: String,
    /// Base64 text of the signature.
    pub signature: String,
}

/// What a [`SnapshotMetadata`] stands for in contracts.
pub struct SnapshotView {
    pub id: Seq<char>,
    pub parent: Option<Seq<char>>,
    pub timestamp: Seq<char>,
    pub root: Seq<char>,
    pub files: Seq<FileEntryView>,
    pub signer_pub: Seq<char>,
    pub signature: Seq<char>,
}

impl View for SnapshotMetadata {
    type V = SnapshotView;

    open spec fn view(&self) -> SnapshotView {
        SnapshotView {
            id: self.id@,
            parent: match self.parent {
                Some(p) => Some(p@),
                None => None,
            },
            timestamp: self.timestamp@,
            root: self.root@,
            files: self.files.deep_view(),
            signer_pub: self.signer_pub@,
            signature: self.signature@,
        }
    }
}

/// Sum of the declared sizes of `files`.
pub open spec fn total_size(files: Seq<FileEntryView>) -> nat
    decreases files.len(),
{
    if files.len() == 0 {
        0
    } else {
        total_size(files.drop_last()) + files.last().size as nat
    }
}

impl SnapshotMetadata {
    /// Number of files in the snapshot.
    pub fn file_count(&self) -> (n: usize)
        ensures
            n == self@.files.len(),
    {
        self.files.len()
    }

    /// Sum of the declared sizes of all files. The sum of any number of
    /// 64-bit sizes that a vector can hold fits into 128 bits.
    pub fn total_declared_size(&self) -> (total: u128)
        ensures
            total == total_size(self@.files),
    {
        let ghost files = self@.files;
        let mut total: u128 = 0;
        assert(files.take(0) =~= Seq::<FileEntryView>::empty());
        let mut i: usize = 0;
        while i < self.files.len()
            invariant
                0 <= i <= self.files.len(),
                files == self@.files,
                files.len() == self.files.len(),
                total == total_size(files.take(i as int)),
                total <= i * u64::MAX,
            decreases self.files.len() - i,
        {
            proof {
                assert(files.take(i + 1).drop_last() =~= files.take(i as int));
                assert(files.take(i + 1).last().size == self.files[i as int].size);
                assert((i + 1) * u64::MAX == i * u64::MAX + u64::MAX) by (nonlinear_arith);
                assert(i * u64::MAX <= usize::MAX * u64::MAX) by (nonlinear_arith)
                    requires
                        i <= usize::MAX,
                ;
            }
            total = total + self.files[i].size as u128;
            i += 1;
        }
        assert(files.take(files.len() as int) =~= files);
        total
    }
}

} // verus!
