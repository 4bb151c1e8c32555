//! Which chunks a snapshot refers to, and which of them the object store
//! lacks.
//!
//! A chunk with hash `h` is stored either flat, at `h`, or sharded, at the
//! first two characters of `h`, a slash, and the rest of `h`. Paths are
//! relative to the root of the object store.

use vstd::prelude::*;
use vstd::hash_set::StringHashSet;
use vstd::string::*;
use crate::record::{total_size, FileEntry, FileEntryView, SnapshotMetadata};

verus! {

/// Number of leading characters of a hash that name its shard directory.
pub const SHARD_PREFIX_LENGTH: usize = 2;

/// How many missing chunks a report lists when the caller names no limit.
pub const DEFAULT_DISPLAY_LIMIT: usize = 20;

/// The chunk hashes of `files`, file after file, each file's in its order.
pub open spec fn all_chunk_hashes(files: Seq<FileEntryView>) -> Seq<Seq<char>>
    decreases files.len(),
{
    if files.len() == 0 {
        Seq::empty()
    } else {
        all_chunk_hashes(files.drop_last()) + files.last().chunk_hashes
    }
}

/// `items` without repetitions: each item where it first occurs.
pub open spec fn first_occurrences(items: Seq<Seq<char>>) -> Seq<Seq<char>>
    decreases items.len(),
{
    if items.len() == 0 {
        Seq::empty()
    } else {
        let earlier = first_occurrences(items.drop_last());
        if earlier.contains(items.last()) {
            earlier
        } else {
            earlier.push(items.last())
        }
    }
}

/// The distinct chunk hashes of `files`, in the order of first reference.
pub open spec fn unique_chunk_hashes(files: Seq<FileEntryView>) -> Seq<Seq<char>> {
    first_occurrences(all_chunk_hashes(files))
}

/// Where the sharded layout keeps the chunk `hash`, for a hash of more than
/// two characters.
pub open spec fn sharded_path(hash: Seq<char>) -> Seq<char>
    recommends
        hash.len() > SHARD_PREFIX_LENGTH,
{
    hash.take(SHARD_PREFIX_LENGTH as int) + seq!['/'] + hash.skip(SHARD_PREFIX_LENGTH as int)
}

/// The paths at which the chunk `hash` may be stored, in the order in which
/// they are tried.
pub open spec fn candidate_paths(hash: Seq<char>) -> Seq<Seq<char>> {
    if hash.len() > SHARD_PREFIX_LENGTH {
        seq![hash, sharded_path(hash)]
    } else {
        seq![hash]
    }
}

/// The candidate paths of all of `hashes`, hash after hash.
pub open spec fn all_candidate_paths(hashes: Seq<Seq<char>>) -> Seq<Seq<char>>
    decreases hashes.len(),
{
    if hashes.len() == 0 {
        Seq::empty()
    } else {
        all_candidate_paths(hashes.drop_last()) + candidate_paths(hashes.last())
    }
}

/// Whether a store holding exactly the paths `present` has the chunk `hash`
/// in either layout.
pub open spec fn chunk_present(present: Set<Seq<char>>, hash: Seq<char>) -> bool {
    present.contains(hash) || (hash.len() > SHARD_PREFIX_LENGTH && present.contains(
        sharded_path(hash),
    ))
}

/// The test that keeps the hashes which `present` lacks.
pub open spec fn is_missing_from(present: Set<Seq<char>>) -> spec_fn(Seq<char>) -> bool {
    |hash: Seq<char>| !chunk_present(present, hash)
}

/// The hashes among `hashes` that `present` lacks, in their order.
pub open spec fn missing_among(hashes: Seq<Seq<char>>, present: Set<Seq<char>>) -> Seq<
    Seq<char>,
> {
    hashes.filter(is_missing_from(present))
}

/// A chunk is present exactly when one of its candidate paths exists.
pub proof fn law_present_iff_candidate_exists(present: Set<Seq<char>>, hash: Seq<char>)
    ensures
        chunk_present(present, hash) <==> exists|i: int|
            0 <= i < candidate_paths(hash).len() && present.contains(
                #[trigger] candidate_paths(hash)[i],
            ),
{
    let paths = candidate_paths(hash);
    if chunk_present(present, hash) {
        if present.contains(hash) {
            assert(present.contains(paths[0]));
        } else {
            assert(present.contains(paths[1]));
        }
    }
}

/// Every candidate path of every hash of a list is among the candidate
/// paths of the list.
proof fn lemma_candidates_listed(hashes: Seq<Seq<char>>, k: int, i: int)
    requires
        0 <= k < hashes.len(),
        0 <= i < candidate_paths(hashes[k]).len(),
    ensures
        all_candidate_paths(hashes).contains(candidate_paths(hashes[k])[i]),
    decreases hashes.len(),
{
    let front = all_candidate_paths(hashes.drop_last());
    let last = candidate_paths(hashes.last());
    let path = candidate_paths(hashes[k])[i];
    if k == hashes.len() - 1 {
        assert((front + last)[front.len() + i] == path);
    } else {
        lemma_candidates_listed(hashes.drop_last(), k, i);
        let j = choose|j: int| 0 <= j < front.len() && front[j] == path;
        assert((front + last)[j] == path);
    }
}

/// Probing the candidate paths is enough: a store that knows, of the
/// candidate paths of `hashes`, exactly those that exist, finds the same
/// chunks present and the same chunks missing as one that knows every path
/// that exists.
pub proof fn law_probing_candidates_suffices(hashes: Seq<Seq<char>>, existing: Set<Seq<char>>)
    ensures
        forall|k: int|
            0 <= k < hashes.len() ==> (chunk_present(
                all_candidate_paths(hashes).to_set().intersect(existing),
                #[trigger] hashes[k],
            ) <==> chunk_present(existing, hashes[k])),
        missing_among(hashes, all_candidate_paths(hashes).to_set().intersect(existing))
            == missing_among(hashes, existing),
{
    let probed = all_candidate_paths(hashes).to_set().intersect(existing);
    assert forall|k: int| 0 <= k < hashes.len() implies (chunk_present(
        probed,
        #[trigger] hashes[k],
    ) <==> chunk_present(existing, hashes[k])) by {
        let h = hashes[k];
        lemma_candidates_listed(hashes, k, 0);
        assert(candidate_paths(h)[0] == h);
        if h.len() > SHARD_PREFIX_LENGTH {
            lemma_candidates_listed(hashes, k, 1);
            assert(candidate_paths(h)[1] == sharded_path(h));
        }
    }
    lemma_filter_agrees(hashes, is_missing_from(probed), is_missing_from(existing));
}

/// Two tests that agree on every item of a list keep the same items.
proof fn lemma_filter_agrees(
    items: Seq<Seq<char>>,
    p: spec_fn(Seq<char>) -> bool,
    q: spec_fn(Seq<char>) -> bool,
)
    requires
        forall|k: int| 0 <= k < items.len() ==> p(#[trigger] items[k]) == q(items[k]),
    ensures
        items.filter(p) == items.filter(q),
    decreases items.len(),
{
    reveal(Seq::filter);
    if items.len() > 0 {
        let front = items.drop_last();
        assert forall|k: int| 0 <= k < front.len() implies p(#[trigger] front[k]) == q(
            front[k],
        ) by {
            assert(front[k] == items[k]);
        }
        lemma_filter_agrees(front, p, q);
        assert(p(items[items.len() - 1]) == q(items[items.len() - 1]));
    }
}

/// A list of first occurrences holds exactly the items of the list it was
/// made from.
pub proof fn law_first_occurrences_cover(items: Seq<Seq<char>>)
    ensures
        forall|x: Seq<char>| first_occurrences(items).contains(x) <==> items.contains(x),
    decreases items.len(),
{
    if items.len() > 0 {
        let front = items.drop_last();
        let earlier = first_occurrences(front);
        let kept = first_occurrences(items);
        law_first_occurrences_cover(front);
        assert forall|x: Seq<char>| kept.contains(x) <==> items.contains(x) by {
            if kept.contains(x) {
                let k = choose|k: int| 0 <= k < kept.len() && kept[k] == x;
                if k < earlier.len() {
                    assert(earlier[k] == x);
                    assert(earlier.contains(x));
                    assert(front.contains(x));
                    let m = choose|m: int| 0 <= m < front.len() && front[m] == x;
                    assert(items[m] == x);
                } else {
                    assert(items[items.len() - 1] == x);
                }
            }
            if items.contains(x) {
                let m = choose|m: int| 0 <= m < items.len() && items[m] == x;
                if m < front.len() {
                    assert(front[m] == x);
                    assert(front.contains(x));
                    assert(earlier.contains(x));
                    let k = choose|k: int| 0 <= k < earlier.len() && earlier[k] == x;
                    assert(kept[k] == x);
                } else if earlier.contains(x) {
                } else {
                    assert(kept[kept.len() - 1] == x);
                }
            }
        }
    }
}

/// No item occurs twice in a list of first occurrences: a chunk that
/// several files share is listed, and so checked, once.
pub proof fn law_first_occurrences_distinct(items: Seq<Seq<char>>)
    ensures
        first_occurrences(items).no_duplicates(),
    decreases items.len(),
{
    if items.len() > 0 {
        law_first_occurrences_distinct(items.drop_last());
    }
}

/// A snapshot without files has size zero, refers to no chunk and misses
/// none, whatever the store holds.
pub proof fn law_empty_snapshot(files: Seq<FileEntryView>, present: Set<Seq<char>>)
    requires
        files.len() == 0,
    ensures
        total_size(files) == 0,
        unique_chunk_hashes(files) == Seq::<Seq<char>>::empty(),
        missing_among(unique_chunk_hashes(files), present) == Seq::<Seq<char>>::empty(),
{
    reveal(Seq::filter);
}

/// The paths known to exist below the root of an object store.
pub struct ObjectStore {
    present: StringHashSet,
}

impl View for ObjectStore {
    type V = Set<Seq<char>>;

    closed spec fn view(&self) -> Set<Seq<char>> {
        self.present@
    }
}

impl ObjectStore {
    /// A store in which nothing is known to exist.
    pub fn new() -> (store: Self)
        ensures
            store@ == Set::<Seq<char>>::empty(),
    {
        ObjectStore { present: StringHashSet::new() }
    }

    /// A store in which exactly `paths` are known to exist.
    pub fn from_paths(paths: &Vec<String>) -> (store: Self)
        ensures
            store@ == paths.deep_view().to_set(),
    {
        let ghost all = paths.deep_view();
        let mut store = ObjectStore::new();
        assert(store@ =~= all.take(0).to_set());
        let mut i: usize = 0;
        while i < paths.len()
            invariant
                0 <= i <= paths.len(),
                all == paths.deep_view(),
                store@ == all.take(i as int).to_set(),
            decreases paths.len() - i,
        {
            store.insert(paths[i].clone());
            proof {
                let before = all.take(i as int);
                let after = all.take(i + 1);
                assert(after =~= before.push(all[i as int]));
                assert(after.to_set() =~= before.to_set().insert(all[i as int])) by {
                    assert forall|x: Seq<char>|
                        after.contains(x) <==> (before.contains(x) || x == all[i as int]) by {
                        if before.contains(x) {
                            let k = choose|k: int| 0 <= k < before.len() && before[k] == x;
                            assert(after[k] == x);
                        }
                        if x == all[i as int] {
                            assert(after[i as int] == x);
                        }
                    }
                }
            }
            i += 1;
        }
        assert(all.take(paths.len() as int) =~= all);
        store
    }

    /// Records that `path` exists.
    pub fn insert(&mut self, path: String)
        ensures
            final(self)@ == old(self)@.insert(path@),
    {
        self.present.insert(path);
    }

    /// Whether `path` is known to exist.
    pub fn contains(&self, path: &str) -> (known: bool)
        ensures
            known == self@.contains(path@),
    {
        self.present.contains(path)
    }
}

/// The sharded path of `hash`, for a hash long enough to have one.
pub fn sharded_path_of(hash: &str) -> (path: Option<String>)
    ensures
        match path {
            Some(p) => hash@.len() > SHARD_PREFIX_LENGTH && p@ == sharded_path(hash@),
            None => hash@.len() <= SHARD_PREFIX_LENGTH,
        },
{
    let length = hash.unicode_len();
    if length > SHARD_PREFIX_LENGTH {
        let mut path = String::new();
        path.append(hash.substring_char(0, SHARD_PREFIX_LENGTH));
        path.append("/");
        path.append(hash.substring_char(SHARD_PREFIX_LENGTH, length));
        proof {
            reveal_strlit("/");
            assert(path@ =~= sharded_path(hash@));
        }
        Some(path)
    } else {
        None
    }
}

/// The paths to probe for the chunk `hash`, in order: the flat one, then
/// the sharded one if the hash has more than two characters.
pub fn probe_paths(hash: &str) -> (paths: Vec<String>)
    ensures
        paths.deep_view() == candidate_paths(hash@),
{
    let mut paths: Vec<String> = Vec::new();
    paths.push(hash.to_owned());
    match sharded_path_of(hash) {
        Some(p) => {
            paths.push(p);
        },
        None => {},
    }
    assert(paths.deep_view() =~= candidate_paths(hash@));
    paths
}

/// The paths to probe for all chunks of `snap`: the candidate paths of its
/// distinct chunk hashes, in the order of first reference.
pub fn paths_to_probe(snap: &SnapshotMetadata) -> (paths: Vec<String>)
    ensures
        paths.deep_view() == all_candidate_paths(unique_chunk_hashes(snap@.files)),
{
    let unique = unique_chunks(snap);
    let ghost hashes = unique.deep_view();
    let mut paths: Vec<String> = Vec::new();
    assert(paths.deep_view() =~= all_candidate_paths(hashes.take(0)));
    let mut i: usize = 0;
    while i < unique.len()
        invariant
            0 <= i <= unique.len(),
            hashes == unique.deep_view(),
            paths.deep_view() == all_candidate_paths(hashes.take(i as int)),
        decreases unique.len() - i,
    {
        let ghost before = paths.deep_view();
        let mut candidates = probe_paths(unique[i].as_str());
        let ghost added = candidates.deep_view();
        paths.append(&mut candidates);
        proof {
            assert(hashes.take(i + 1).drop_last() =~= hashes.take(i as int));
            assert(hashes.take(i + 1).last() == unique[i as int]@);
            assert(paths.deep_view() =~= before + added);
        }
        i += 1;
    }
    assert(hashes.take(unique.len() as int) =~= hashes);
    paths
}

/// Whether the store has the chunk `hash`, flat or sharded.
pub fn chunk_exists(store: &ObjectStore, hash: &str) -> (present: bool)
    ensures
        present == chunk_present(store@, hash@),
{
    if store.contains(hash) {
        return true;
    }
    match sharded_path_of(hash) {
        Some(p) => store.contains(p.as_str()),
        None => false,
    }
}

/// Appends to `unique` the hashes of `file` that `seen` does not hold yet.
fn collect_new_hashes(
    unique: &mut Vec<String>,
    seen: &mut StringHashSet,
    file: &FileEntry,
    Ghost(earlier): Ghost<Seq<Seq<char>>>,
)
    requires
        old(unique).deep_view() == first_occurrences(earlier),
        old(seen)@ == first_occurrences(earlier).to_set(),
    ensures
        final(unique).deep_view() == first_occurrences(earlier + file@.chunk_hashes),
        final(seen)@ == first_occurrences(earlier + file@.chunk_hashes).to_set(),
{
    let ghost hashes = file@.chunk_hashes;
    assert(earlier + hashes.take(0) =~= earlier);
    let mut j: usize = 0;
    while j < file.chunk_hashes.len()
        invariant
            0 <= j <= file.chunk_hashes.len(),
            hashes == file@.chunk_hashes,
            hashes.len() == file.chunk_hashes.len(),
            unique.deep_view() == first_occurrences(earlier + hashes.take(j as int)),
            seen@ == unique.deep_view().to_set(),
        decreases file.chunk_hashes.len() - j,
    {
        let ghost so_far = earlier + hashes.take(j as int);
        let ghost kept = unique.deep_view();
        let hash = &file.chunk_hashes[j];
        proof {
            assert(hashes[j as int] == hash@);
            assert((earlier + hashes.take(j + 1)).drop_last() =~= so_far);
            assert((earlier + hashes.take(j + 1)).last() == hash@);
        }
        if seen.insert(hash.clone()) {
            unique.push(hash.clone());
            proof {
                assert(unique.deep_view() =~= kept.push(hash@));
                assert(kept.push(hash@).to_set() =~= kept.to_set().insert(hash@)) by {
                    assert forall|x: Seq<char>|
                        kept.push(hash@).contains(x) <==> (kept.contains(x) || x == hash@) by {
                        if kept.contains(x) {
                            let k = choose|k: int| 0 <= k < kept.len() && kept[k] == x;
                            assert(kept.push(hash@)[k] == x);
                        }
                        if x == hash@ {
                            assert(kept.push(hash@)[kept.len() as int] == x);
                        }
                    }
                }
            }
        } else {
            proof {
                assert(kept.to_set().insert(hash@) =~= kept.to_set());
            }
        }
        j += 1;
    }
    assert(hashes.take(hashes.len() as int) =~= hashes);
}

/// The distinct chunk hashes of `snap`, in the order of first reference. A
/// chunk that several files share is listed once.
pub fn unique_chunks(snap: &SnapshotMetadata) -> (unique: Vec<String>)
    ensures
        unique.deep_view() == unique_chunk_hashes(snap@.files),
{
    let ghost files = snap@.files;
    let mut unique: Vec<String> = Vec::new();
    let mut seen = StringHashSet::new();
    proof {
        assert(unique.deep_view() =~= first_occurrences(all_chunk_hashes(files.take(0))));
        assert(seen@ =~= unique.deep_view().to_set());
    }
    let mut i: usize = 0;
    while i < snap.files.len()
        invariant
            0 <= i <= snap.files.len(),
            files == snap@.files,
            files.len() == snap.files.len(),
            unique.deep_view() == first_occurrences(all_chunk_hashes(files.take(i as int))),
            seen@ == unique.deep_view().to_set(),
        decreases snap.files.len() - i,
    {
        proof {
            assert(files.take(i + 1).drop_last() =~= files.take(i as int));
            assert(files.take(i + 1).last() == snap.files[i as int]@);
        }
        collect_new_hashes(
            &mut unique,
            &mut seen,
            &snap.files[i],
            Ghost(all_chunk_hashes(files.take(i as int))),
        );
        i += 1;
    }
    assert(files.take(files.len() as int) =~= files);
    unique
}

/// The distinct chunk hashes of `snap` that `store` has in neither layout,
/// in the order of first reference.
pub fn missing_chunks(snap: &SnapshotMetadata, store: &ObjectStore) -> (missing: Vec<String>)
    ensures
        missing.deep_view() == missing_among(unique_chunk_hashes(snap@.files), store@),
{
    let unique = unique_chunks(snap);
    missing_from(&unique, store)
}

/// The hashes among `hashes` that `store` has in neither layout, in their
/// order.
pub fn missing_from(hashes: &Vec<String>, store: &ObjectStore) -> (missing: Vec<String>)
    ensures
        missing.deep_view() == missing_among(hashes.deep_view(), store@),
{
    let ghost all = hashes.deep_view();
    let ghost test = is_missing_from(store@);
    let mut missing: Vec<String> = Vec::new();
    proof {
        reveal(Seq::filter);
        assert(missing.deep_view() =~= all.take(0).filter(test));
    }
    let mut i: usize = 0;
    while i < hashes.len()
        invariant
            0 <= i <= hashes.len(),
            all == hashes.deep_view(),
            test == is_missing_from(store@),
            missing.deep_view() == all.take(i as int).filter(test),
        decreases hashes.len() - i,
    {
        let ghost kept = missing.deep_view();
        proof {
            all.take(i as int).lemma_filter_push(all[i as int], test);
            assert(all.take(i as int).push(all[i as int]) =~= all.take(i + 1));
            assert(all[i as int] == hashes[i as int]@);
        }
        if !chunk_exists(store, hashes[i].as_str()) {
            missing.push(hashes[i].clone());
            assert(missing.deep_view() =~= kept.push(hashes[i as int]@));
        }
        i += 1;
    }
    assert(all.take(hashes.len() as int) =~= all);
    missing
}

/// What to show of a list of missing chunks.
#[derive(Debug, PartialEq, Eq)]
pub struct MissingReport {
    /// How many chunks are missing.
    pub total: usize,
    /// The first of them, up to the display limit.
    pub shown: Vec<String>,
    /// How many are missing beyond those shown.
    pub more: usize,
}

/// What a [`MissingReport`] stands for in contracts.
pub struct MissingReportView {
    pub total: nat,
    pub shown: Seq<Seq<char>>,
    pub more: nat,
}

impl View for MissingReport {
    type V = MissingReportView;

    open spec fn view(&self) -> MissingReportView {
        MissingReportView {
            total: self.total as nat,
            shown: self.shown.deep_view(),
            more: self.more as nat,
        }
    }
}

/// How many of `total` entries a display limited to `limit` shows.
pub open spec fn shown_count(total: nat, limit: nat) -> nat {
    if total <= limit {
        total
    } else {
        limit
    }
}

/// The report on `missing` under a display limit: the first `limit`
/// entries, and the count of the rest.
pub open spec fn truncated(missing: Seq<Seq<char>>, limit: nat) -> MissingReportView {
    MissingReportView {
        total: missing.len(),
        shown: missing.take(shown_count(missing.len(), limit) as int),
        more: (missing.len() - shown_count(missing.len(), limit)) as nat,
    }
}

/// A report shows at most `limit` entries, and the entries shown and those
/// counted as left out make up the whole list.
pub proof fn law_truncation_accounts_for_all(missing: Seq<Seq<char>>, limit: nat)
    ensures
        truncated(missing, limit).shown.len() <= limit,
        truncated(missing, limit).shown.len() + truncated(missing, limit).more == missing.len(),
        truncated(missing, limit).more > 0 <==> missing.len() > limit,
        truncated(missing, limit).shown.is_prefix_of(missing),
{
}

/// Cuts the list of missing chunks down to at most `limit` entries for
/// display, and counts the entries left out.
pub fn missing_report(missing: &Vec<String>, limit: usize) -> (report: MissingReport)
    ensures
        report@ == truncated(missing.deep_view(), limit as nat),
{
    let total = missing.len();
    let count = if total <= limit {
        total
    } else {
        limit
    };
    let ghost all = missing.deep_view();
    let mut shown: Vec<String> = Vec::new();
    assert(shown.deep_view() =~= all.take(0));
    let mut i: usize = 0;
    while i < count
        invariant
            0 <= i <= count <= missing.len(),
            all == missing.deep_view(),
            shown.deep_view() == all.take(i as int),
        decreases count - i,
    {
        let ghost kept = shown.deep_view();
        shown.push(missing[i].clone());
        assert(shown.deep_view() =~= kept.push(missing[i as int]@));
        assert(all.take(i as int).push(all[i as int]) =~= all.take(i + 1));
        i += 1;
    }
    MissingReport { total, shown, more: total - count }
}

} // verus!
