//! What a scan reports about a tree of filesystem entries.
//!
//! The tree is what was read from the filesystem: for each entry its path,
//! its kind, a file's length, a directory's listing and the errors met while
//! reading it. `analyze` turns it into a `ScanReport`: totals, counts, the
//! files and directories with their sizes, the cleanup candidates and the
//! errors. Symbolic links are counted and not followed.
use vstd::prelude::*;
use crate::cleanup::{cleanup_reason, cleanup_reason_of, dot_prefixed, has_dot_prefix, CleanupReason, PathInfo};
use crate::tree_counts::{
    count_where, hidden_and_counted, lemma_counts_are_entry_counts, tree_entries,
};
use crate::tree_paths::{
    at_or_under, lemma_sorted_lists_under, lemma_tally_under, lies_under, paths_nested, total_under,
};
use crate::order::{
    is_rearrangement, is_stable_order, is_stable_sort_desc, lemma_rearrangement_without_last,
    lemma_stable_sort_rearrangement, stable_order_desc,
};

verus! {

/// An error met while reading the filesystem: where, and what was said.
#[derive(Debug)]
pub struct ScanError {
    pub path: String,
    pub message: String,
}

/// A file or directory with its size in bytes (for a directory, the sum of
/// the sizes of the files below it).
#[derive(Clone, Debug)]
pub struct SizedEntry {
    pub path: String,
    pub size: u64,
}

/// An entry that is likely safe to clean up, with its size and the reason.
#[derive(Debug)]
pub struct CleanupCandidate {
    pub path: String,
    pub size: u64,
    pub reason: CleanupReason,
}

/// Everything a scan found.
#[derive(Debug)]
pub struct ScanReport {
    /// The path the scan started at.
    pub root: String,
    /// The total size of all files below the root.
    pub total_size: u64,
    pub files_scanned: u64,
    pub dirs_scanned: u64,
    /// Entries that are hidden (dot-named, or marked hidden by the system).
    pub hidden_entries: u64,
    pub symlinks_skipped: u64,
    /// Entries that are neither files, directories nor symbolic links.
    pub other_entries: u64,
    pub errors: Vec<ScanError>,
    /// Files, largest first.
    pub files: Vec<SizedEntry>,
    /// Directories, largest first.
    pub dirs: Vec<SizedEntry>,
    /// Cleanup candidates, largest first.
    pub candidates: Vec<CleanupCandidate>,
}

/// One entry read from the filesystem.
pub struct ScanNode {
    pub path: PathInfo,
    /// Whether the operating system marks the entry hidden (a file attribute
    /// on Windows; never set elsewhere).
    pub hidden_attribute: bool,
    pub kind: EntryKind,
}

/// What kind of entry a path is, as its own metadata says (links not followed).
pub enum EntryKind {
    Symlink,
    /// A regular file of the given length in bytes.
    File(u64),
    Directory(DirListing),
    /// Anything else: a device, a socket, a pipe.
    Other,
}

/// The result of listing a directory.
pub enum DirListing {
    /// The entries, in the order the listing gave them.
    Entries(Vec<DirEntry>),
    /// The directory could not be listed; the message says why.
    Unreadable(String),
}

/// One item of a directory listing.
pub enum DirEntry {
    /// An entry whose metadata could be read.
    Scanned(ScanNode),
    /// An entry whose metadata could not be read: its path and the message.
    MetadataFailed(ScanError),
    /// The listing failed to produce the next entry; the message says why.
    Unlisted(String),
}

/// What scanning a part of the tree adds to a report.
pub struct Tally {
    pub size: nat,
    pub files_scanned: nat,
    pub dirs_scanned: nat,
    pub hidden_entries: nat,
    pub symlinks_skipped: nat,
    pub other_entries: nat,
    pub errors: Seq<ScanError>,
    pub files: Seq<SizedEntry>,
    pub dirs: Seq<SizedEntry>,
    pub candidates: Seq<CleanupCandidate>,
}

/// A tally of nothing.
pub open spec fn empty_tally() -> Tally {
    Tally {
        size: 0,
        files_scanned: 0,
        dirs_scanned: 0,
        hidden_entries: 0,
        symlinks_skipped: 0,
        other_entries: 0,
        errors: Seq::empty(),
        files: Seq::empty(),
        dirs: Seq::empty(),
        candidates: Seq::empty(),
    }
}

/// Scanning `a`, then `b`.
pub open spec fn join(a: Tally, b: Tally) -> Tally {
    Tally {
        size: a.size + b.size,
        files_scanned: a.files_scanned + b.files_scanned,
        dirs_scanned: a.dirs_scanned + b.dirs_scanned,
        hidden_entries: a.hidden_entries + b.hidden_entries,
        symlinks_skipped: a.symlinks_skipped + b.symlinks_skipped,
        other_entries: a.other_entries + b.other_entries,
        errors: a.errors + b.errors,
        files: a.files + b.files,
        dirs: a.dirs + b.dirs,
        candidates: a.candidates + b.candidates,
    }
}

/// A tally holding one error.
pub open spec fn error_tally(e: ScanError) -> Tally {
    Tally { errors: seq![e], ..empty_tally() }
}

/// The candidate entry (none or one) for an entry at `path` of `size` bytes.
pub open spec fn candidate_for(path: PathInfo, is_dir: bool, size: nat) -> Seq<CleanupCandidate> {
    match cleanup_reason_of(path, is_dir) {
        Some(reason) => seq![CleanupCandidate { path: path.display, size: size as u64, reason }],
        None => Seq::empty(),
    }
}

/// Whether an entry counts as hidden: the system marks it hidden, or its
/// name starts with a dot.
pub open spec fn counts_as_hidden(node: ScanNode) -> bool {
    node.hidden_attribute || dot_prefixed(node.path)
}

/// Whether an entry counts as hidden: the system marks it hidden, or its
/// name starts with a dot (and is not `.` or `..`).
pub fn is_hidden(node: &ScanNode) -> (r: bool)
    ensures
        r == counts_as_hidden(*node),
{
    node.hidden_attribute || has_dot_prefix(&node.path)
}

/// What scanning `node` and everything below it adds to a report, in the
/// order a depth-first walk meets it: a file is listed when it is reached,
/// a directory after everything below it.
pub open spec fn node_tally(node: ScanNode) -> Tally
    decreases node, 0nat,
{
    let hidden: nat = if counts_as_hidden(node) { 1 } else { 0 };
    match node.kind {
        EntryKind::Symlink => Tally { symlinks_skipped: 1, ..empty_tally() },
        EntryKind::File(size) => Tally {
            size: size as nat,
            files_scanned: 1,
            hidden_entries: hidden,
            files: seq![SizedEntry { path: node.path.display, size }],
            candidates: candidate_for(node.path, false, size as nat),
            ..empty_tally()
        },
        EntryKind::Directory(listing) => {
            let inner = match listing {
                DirListing::Entries(entries) => entries_tally(
                    node.path.display,
                    entries@,
                    entries@.len(),
                ),
                DirListing::Unreadable(message) => error_tally(
                    ScanError { path: node.path.display, message },
                ),
            };
            Tally {
                dirs_scanned: inner.dirs_scanned + 1,
                hidden_entries: inner.hidden_entries + hidden,
                dirs: inner.dirs.push(SizedEntry { path: node.path.display, size: inner.size as u64 }),
                candidates: inner.candidates + candidate_for(node.path, true, inner.size),
                ..inner
            }
        },
        EntryKind::Other => Tally { other_entries: 1, hidden_entries: hidden, ..empty_tally() },
    }
}

/// What scanning the first `n` items of the listing of the directory at
/// `dir` adds to a report.
pub open spec fn entries_tally(dir: String, entries: Seq<DirEntry>, n: nat) -> Tally
    decreases entries, n,
{
    if n == 0 || n > entries.len() {
        empty_tally()
    } else {
        let last = match entries[n - 1] {
            DirEntry::Scanned(child) => node_tally(child),
            DirEntry::MetadataFailed(e) => error_tally(e),
            DirEntry::Unlisted(message) => error_tally(ScanError { path: dir, message }),
        };
        join(entries_tally(dir, entries, (n - 1) as nat), last)
    }
}

/// What scanning the listing of the directory at `dir` adds to a report.
pub open spec fn listing_tally(dir: String, listing: DirListing) -> Tally {
    match listing {
        DirListing::Entries(entries) => entries_tally(dir, entries@, entries@.len()),
        DirListing::Unreadable(message) => error_tally(ScanError { path: dir, message }),
    }
}

/// Whether every number of `a` is at most the same number of `b`.
pub open spec fn tally_le(a: Tally, b: Tally) -> bool {
    &&& a.size <= b.size
    &&& a.files_scanned <= b.files_scanned
    &&& a.dirs_scanned <= b.dirs_scanned
    &&& a.hidden_entries <= b.hidden_entries
    &&& a.symlinks_skipped <= b.symlinks_skipped
    &&& a.other_entries <= b.other_entries
}

/// Whether adding `t` to the report `r` keeps every number within `u64`.
pub open spec fn room_for(r: ScanReport, t: Tally) -> bool {
    &&& t.size <= u64::MAX
    &&& r.files_scanned + t.files_scanned <= u64::MAX
    &&& r.dirs_scanned + t.dirs_scanned <= u64::MAX
    &&& r.hidden_entries + t.hidden_entries <= u64::MAX
    &&& r.symlinks_skipped + t.symlinks_skipped <= u64::MAX
    &&& r.other_entries + t.other_entries <= u64::MAX
}

/// Whether the report `after` is `before` with `t` added.
pub open spec fn added(before: ScanReport, after: ScanReport, t: Tally) -> bool {
    &&& after.root == before.root
    &&& after.total_size == before.total_size
    &&& after.files_scanned == before.files_scanned + t.files_scanned
    &&& after.dirs_scanned == before.dirs_scanned + t.dirs_scanned
    &&& after.hidden_entries == before.hidden_entries + t.hidden_entries
    &&& after.symlinks_skipped == before.symlinks_skipped + t.symlinks_skipped
    &&& after.other_entries == before.other_entries + t.other_entries
    &&& after.errors@ == before.errors@ + t.errors
    &&& after.files@ == before.files@ + t.files
    &&& after.dirs@ == before.dirs@ + t.dirs
    &&& after.candidates@ == before.candidates@ + t.candidates
}

/// Adding `t1` and then `t2` is adding both at once.
proof fn lemma_added_twice(a: ScanReport, b: ScanReport, c: ScanReport, t1: Tally, t2: Tally)
    requires
        added(a, b, t1),
        added(b, c, t2),
    ensures
        added(a, c, join(t1, t2)),
{
    assert(c.errors@ =~= a.errors@ + (t1.errors + t2.errors));
    assert(c.files@ =~= a.files@ + (t1.files + t2.files));
    assert(c.dirs@ =~= a.dirs@ + (t1.dirs + t2.dirs));
    assert(c.candidates@ =~= a.candidates@ + (t1.candidates + t2.candidates));
}

/// Adding a tally to a report keeps what the report held: its lists keep
/// their entries as a prefix, no count goes down, and the root and the total
/// stay as they were.
pub proof fn lemma_added_keeps_report(before: ScanReport, after: ScanReport, t: Tally)
    requires
        added(before, after, t),
    ensures
        after.errors@.take(before.errors@.len() as int) == before.errors@,
        after.files@.take(before.files@.len() as int) == before.files@,
        after.dirs@.take(before.dirs@.len() as int) == before.dirs@,
        after.candidates@.take(before.candidates@.len() as int) == before.candidates@,
        after.files_scanned >= before.files_scanned,
        after.dirs_scanned >= before.dirs_scanned,
        after.hidden_entries >= before.hidden_entries,
        after.symlinks_skipped >= before.symlinks_skipped,
        after.other_entries >= before.other_entries,
        after.root == before.root,
        after.total_size == before.total_size,
{
    assert(after.errors@.take(before.errors@.len() as int) =~= before.errors@);
    assert(after.files@.take(before.files@.len() as int) =~= before.files@);
    assert(after.dirs@.take(before.dirs@.len() as int) =~= before.dirs@);
    assert(after.candidates@.take(before.candidates@.len() as int) =~= before.candidates@);
}

/// A prefix of a listing adds no more than a longer prefix.
proof fn lemma_entries_grow(dir: String, entries: Seq<DirEntry>, i: nat, j: nat)
    requires
        i <= j <= entries.len(),
    ensures
        tally_le(entries_tally(dir, entries, i), entries_tally(dir, entries, j)),
    decreases j,
{
    if i < j {
        lemma_entries_grow(dir, entries, i, (j - 1) as nat);
    }
}

/// The size of each entry of a listing is at most the size of the listing.
pub(crate) proof fn lemma_entry_within(dir: String, entries: Seq<DirEntry>, i: nat)
    requires
        i < entries.len(),
    ensures
        tally_le(entries_tally(dir, entries, i), entries_tally(dir, entries, entries.len())),
        entries[i as int] is Scanned ==> tally_le(
            join(entries_tally(dir, entries, i), node_tally(entries[i as int]->Scanned_0)),
            entries_tally(dir, entries, entries.len()),
        ),
{
    lemma_entries_grow(dir, entries, i, entries.len());
    lemma_entries_grow(dir, entries, i + 1, entries.len());
}

/// Walks `node` and everything below it, adding what it finds to `report`;
/// returns the size of `node`.
fn scan_entry(node: &ScanNode, report: &mut ScanReport) -> (size: u64)
    requires
        room_for(*old(report), node_tally(*node)),
    ensures
        added(*old(report), *final(report), node_tally(*node)),
        size == node_tally(*node).size,
    decreases node,
{
    if let EntryKind::Symlink = &node.kind {
        report.symlinks_skipped = report.symlinks_skipped + 1;
        return 0;
    }
    if is_hidden(node) {
        report.hidden_entries = report.hidden_entries + 1;
    }
    match &node.kind {
        EntryKind::File(size) => {
            let size = *size;
            report.files_scanned = report.files_scanned + 1;
            report.files.push(SizedEntry { path: node.path.display.clone(), size });
            if let Some(reason) = cleanup_reason(&node.path, false) {
                report.candidates.push(
                    CleanupCandidate { path: node.path.display.clone(), size, reason },
                );
            }
            assert(report.files@ =~= old(report).files@ + node_tally(*node).files);
            assert(report.candidates@ =~= old(report).candidates@ + node_tally(*node).candidates);
            assert(report.errors@ =~= old(report).errors@ + node_tally(*node).errors);
            assert(report.dirs@ =~= old(report).dirs@ + node_tally(*node).dirs);
            size
        },
        EntryKind::Directory(listing) => {
            report.dirs_scanned = report.dirs_scanned + 1;
            let ghost start = *report;
            let ghost whole = node_tally(*node);
            let ghost inner = listing_tally(node.path.display, *listing);
            let mut total: u64 = 0;
            match listing {
                DirListing::Entries(entries) => {
                    let ghost dir = node.path.display;
                    let n = entries.len();
                    proof {
                        lemma_entries_grow(dir, entries@, 0, n as nat);
                    }
                    for i in 0..n
                        invariant
                            n == entries@.len(),
                            dir == node.path.display,
                            node.kind == EntryKind::Directory(DirListing::Entries(*entries)),
                            whole == node_tally(*node),
                            room_for(start, entries_tally(dir, entries@, n as nat)),
                            added(start, *report, entries_tally(dir, entries@, i as nat)),
                            total == entries_tally(dir, entries@, i as nat).size,
                    {
                        let ghost before = *report;
                        proof {
                            lemma_entry_within(dir, entries@, i as nat);
                        }
                        let ghost item = match entries@[i as int] {
                            DirEntry::Scanned(child) => node_tally(child),
                            DirEntry::MetadataFailed(e) => error_tally(e),
                            DirEntry::Unlisted(message) => error_tally(
                                ScanError { path: dir, message },
                            ),
                        };
                        match &entries[i] {
                            DirEntry::Scanned(child) => {
                                let s = scan_entry(child, report);
                                total = total + s;
                            },
                            DirEntry::MetadataFailed(e) => {
                                report.errors.push(
                                    ScanError { path: e.path.clone(), message: e.message.clone() },
                                );
                            },
                            DirEntry::Unlisted(message) => {
                                report.errors.push(
                                    ScanError {
                                        path: node.path.display.clone(),
                                        message: message.clone(),
                                    },
                                );
                            },
                        }
                        assert(added(before, *report, item)) by {
                            if !(entries@[i as int] is Scanned) {
                                assert(report.errors@ =~= before.errors@ + item.errors);
                                assert(report.files@ =~= before.files@ + item.files);
                                assert(report.dirs@ =~= before.dirs@ + item.dirs);
                                assert(report.candidates@ =~= before.candidates@ + item.candidates);
                            }
                        }
                        proof {
                            lemma_added_twice(start, before, *report, entries_tally(dir, entries@, i as nat), item);
                        }
                        assert(entries_tally(dir, entries@, (i + 1) as nat) == join(
                            entries_tally(dir, entries@, i as nat),
                            item,
                        ));
                    }
                },
                DirListing::Unreadable(message) => {
                    report.errors.push(
                        ScanError { path: node.path.display.clone(), message: message.clone() },
                    );
                    assert(report.errors@ =~= start.errors@ + inner.errors);
                    assert(report.files@ =~= start.files@ + inner.files);
                    assert(report.dirs@ =~= start.dirs@ + inner.dirs);
                    assert(report.candidates@ =~= start.candidates@ + inner.candidates);
                },
            }
            assert(added(start, *report, inner));
            assert(total == inner.size);
            report.dirs.push(SizedEntry { path: node.path.display.clone(), size: total });
            if let Some(reason) = cleanup_reason(&node.path, true) {
                report.candidates.push(
                    CleanupCandidate { path: node.path.display.clone(), size: total, reason },
                );
            }
            assert(report.files@ =~= old(report).files@ + whole.files);
            assert(report.candidates@ =~= old(report).candidates@ + whole.candidates);
            assert(report.errors@ =~= old(report).errors@ + whole.errors);
            assert(report.dirs@ =~= old(report).dirs@ + whole.dirs);
            total
        },
        EntryKind::Other => {
            report.other_entries = report.other_entries + 1;
            0
        },
        EntryKind::Symlink => 0,
    }
}

/// The sum of the sizes of a sequence of entries.
pub open spec fn total_of(s: Seq<SizedEntry>) -> nat
    decreases s.len(),
{
    if s.len() == 0 {
        0
    } else {
        total_of(s.drop_last()) + s.last().size as nat
    }
}

/// The sum over two sequences one after the other is the sum of the sums.
proof fn lemma_total_of_concat(a: Seq<SizedEntry>, b: Seq<SizedEntry>)
    ensures
        total_of(a + b) == total_of(a) + total_of(b),
    decreases b.len(),
{
    if b.len() > 0 {
        lemma_total_of_concat(a, b.drop_last());
        assert((a + b).drop_last() =~= a + b.drop_last());
    } else {
        assert(a + b =~= a);
    }
}

/// Taking one entry out of a sequence takes its size off the sum.
proof fn lemma_total_of_remove(s: Seq<SizedEntry>, m: int)
    requires
        0 <= m < s.len(),
    ensures
        total_of(s) == total_of(s.remove(m)) + s[m].size,
    decreases s.len(),
{
    if m == s.len() - 1 {
        assert(s.remove(m) =~= s.drop_last());
    } else {
        lemma_total_of_remove(s.drop_last(), m);
        assert(s.remove(m).drop_last() =~= s.drop_last().remove(m));
        assert(s.remove(m).last() == s.last());
    }
}

/// Rearranging entries keeps the sum of their sizes.
proof fn lemma_rearranged_total(input: Seq<SizedEntry>, p: Seq<usize>, output: Seq<SizedEntry>)
    requires
        is_rearrangement(input, p, output),
        input.len() <= usize::MAX,
    ensures
        total_of(output) == total_of(input),
    decreases input.len(),
{
    if input.len() == 0 {
        assert(output.len() == 0);
    } else {
        let m = lemma_rearrangement_without_last(input, p, output);
        lemma_rearranged_total(input.drop_last(), p.remove(m), output.remove(m));
        lemma_total_of_remove(output, m);
    }
}

/// Sorting entries by size keeps the sum of their sizes.
pub proof fn lemma_sorted_entries_keep_total(input: Seq<SizedEntry>, output: Seq<SizedEntry>)
    requires
        is_stable_sort_desc(input, entry_sizes(input), output),
        input.len() <= usize::MAX,
    ensures
        total_of(output) == total_of(input),
{
    let p = lemma_stable_sort_rearrangement(input, entry_sizes(input), output);
    lemma_rearranged_total(input, p, output);
}

/// Entries sorted by size come largest first.
pub proof fn lemma_sorted_entries_largest_first(input: Seq<SizedEntry>, output: Seq<SizedEntry>)
    requires
        is_stable_sort_desc(input, entry_sizes(input), output),
    ensures
        forall|i: int, j: int| 0 <= i < j < output.len() ==> #[trigger] output[i].size >= #[trigger] output[j].size,
{
    let p = lemma_stable_sort_rearrangement(input, entry_sizes(input), output);
    assert forall|i: int, j: int| 0 <= i < j < output.len() implies #[trigger] output[i].size
        >= #[trigger] output[j].size by {
        assert(crate::order::goes_before(entry_sizes(input), p[i] as int, p[j] as int));
    }
}

/// Candidates sorted by size come largest first.
pub proof fn lemma_sorted_candidates_largest_first(input: Seq<CleanupCandidate>, output: Seq<CleanupCandidate>)
    requires
        is_stable_sort_desc(input, candidate_sizes(input), output),
    ensures
        forall|i: int, j: int| 0 <= i < j < output.len() ==> #[trigger] output[i].size >= #[trigger] output[j].size,
{
    let p = lemma_stable_sort_rearrangement(input, candidate_sizes(input), output);
    assert forall|i: int, j: int| 0 <= i < j < output.len() implies #[trigger] output[i].size
        >= #[trigger] output[j].size by {
        assert(crate::order::goes_before(candidate_sizes(input), p[i] as int, p[j] as int));
    }
}

/// Whether a tally's size is the sum of the sizes of its files, and its file
/// and directory counts are the lengths of its file and directory lists.
pub open spec fn tally_consistent(t: Tally) -> bool {
    &&& t.size == total_of(t.files)
    &&& t.files_scanned == t.files.len()
    &&& t.dirs_scanned == t.dirs.len()
}

/// Joining consistent tallies gives a consistent tally.
proof fn lemma_join_consistent(a: Tally, b: Tally)
    requires
        tally_consistent(a),
        tally_consistent(b),
    ensures
        tally_consistent(join(a, b)),
{
    lemma_total_of_concat(a.files, b.files);
}

/// The size of any entry (for a directory: of the tree below it) is the sum
/// of the sizes of the files found in it, one file is listed for each file
/// counted, and one directory for each directory counted.
pub proof fn lemma_size_is_sum_of_files(node: ScanNode)
    ensures
        tally_consistent(node_tally(node)),
    decreases node, 0nat,
{
    match node.kind {
        EntryKind::Directory(listing) => {
            match listing {
                DirListing::Entries(entries) => {
                    lemma_listing_consistent(node.path.display, entries@, entries@.len());
                },
                DirListing::Unreadable(_) => {},
            }
            let inner = listing_tally(node.path.display, listing);
            assert(tally_consistent(inner));
            let t = node_tally(node);
            assert(t.files == inner.files && t.size == inner.size);
            assert(t.dirs.len() == inner.dirs.len() + 1);
            assert(t.size == total_of(t.files));
            assert(t.files_scanned == t.files.len());
            assert(t.dirs_scanned == t.dirs.len());
            assert(tally_consistent(t));
        },
        EntryKind::File(size) => {
            let t = node_tally(node);
            assert(t.files.drop_last() =~= Seq::<SizedEntry>::empty());
        },
        _ => {
            assert(total_of(Seq::<SizedEntry>::empty()) == 0);
        },
    }
}

/// The first `n` items of a listing add a consistent tally.
proof fn lemma_listing_consistent(dir: String, entries: Seq<DirEntry>, n: nat)
    ensures
        tally_consistent(entries_tally(dir, entries, n)),
    decreases entries, n,
{
    if n == 0 || n > entries.len() {
    } else {
        lemma_listing_consistent(dir, entries, (n - 1) as nat);
        match entries[n - 1] {
            DirEntry::Scanned(child) => {
                lemma_size_is_sum_of_files(child);
            },
            _ => {},
        }
        let last = match entries[n - 1] {
            DirEntry::Scanned(child) => node_tally(child),
            DirEntry::MetadataFailed(e) => error_tally(e),
            DirEntry::Unlisted(message) => error_tally(ScanError { path: dir, message }),
        };
        lemma_join_consistent(entries_tally(dir, entries, (n - 1) as nat), last);
    }
}

/// The sizes of a sequence of entries, in order.
pub open spec fn entry_sizes(s: Seq<SizedEntry>) -> Seq<u64> {
    Seq::new(s.len(), |i: int| s[i].size)
}

/// The sizes of a sequence of candidates, in order.
pub open spec fn candidate_sizes(s: Seq<CleanupCandidate>) -> Seq<u64> {
    Seq::new(s.len(), |i: int| s[i].size)
}

/// Whether every number of a tally fits in a `u64`.
pub open spec fn fits_u64(t: Tally) -> bool {
    &&& t.size <= u64::MAX
    &&& t.files_scanned <= u64::MAX
    &&& t.dirs_scanned <= u64::MAX
    &&& t.hidden_entries <= u64::MAX
    &&& t.symlinks_skipped <= u64::MAX
    &&& t.other_entries <= u64::MAX
}

/// The entries of `v`, largest first, equally large ones in their order in `v`.
fn sort_entries_desc(v: &Vec<SizedEntry>) -> (r: Vec<SizedEntry>)
    ensures
        is_stable_sort_desc(v@, entry_sizes(v@), r@),
{
    let n = v.len();
    let mut keys: Vec<u64> = Vec::new();
    for i in 0..n
        invariant
            n == v@.len(),
            keys@ == entry_sizes(v@).take(i as int),
    {
        keys.push(v[i].size);
        assert(keys@ =~= entry_sizes(v@).take(i + 1));
    }
    assert(keys@ =~= entry_sizes(v@));
    let p = stable_order_desc(&keys);
    let mut r: Vec<SizedEntry> = Vec::new();
    for i in 0..n
        invariant
            n == v@.len(),
            keys@ == entry_sizes(v@),
            is_stable_order(keys@, p@),
            r@.len() == i,
            forall|k: int| 0 <= k < i ==> r@[k] == v@[#[trigger] p@[k] as int],
    {
        let e = &v[p[i]];
        r.push(SizedEntry { path: e.path.clone(), size: e.size });
    }
    assert(is_stable_order(entry_sizes(v@), p@));
    r
}

/// The candidates of `v`, largest first, equally large ones in their order in `v`.
fn sort_candidates_desc(v: &Vec<CleanupCandidate>) -> (r: Vec<CleanupCandidate>)
    ensures
        is_stable_sort_desc(v@, candidate_sizes(v@), r@),
{
    let n = v.len();
    let mut keys: Vec<u64> = Vec::new();
    for i in 0..n
        invariant
            n == v@.len(),
            keys@ == candidate_sizes(v@).take(i as int),
    {
        keys.push(v[i].size);
        assert(keys@ =~= candidate_sizes(v@).take(i + 1));
    }
    assert(keys@ =~= candidate_sizes(v@));
    let p = stable_order_desc(&keys);
    let mut r: Vec<CleanupCandidate> = Vec::new();
    for i in 0..n
        invariant
            n == v@.len(),
            keys@ == candidate_sizes(v@),
            is_stable_order(keys@, p@),
            r@.len() == i,
            forall|k: int| 0 <= k < i ==> r@[k] == v@[#[trigger] p@[k] as int],
    {
        let e = &v[p[i]];
        r.push(CleanupCandidate { path: e.path.clone(), size: e.size, reason: e.reason });
    }
    assert(is_stable_order(candidate_sizes(v@), p@));
    r
}

/// Scans the tree at `root`: counts its entries by kind, adds up the sizes of
/// its files, lists its files and directories with their sizes and its
/// cleanup candidates, each largest first, and collects the errors met while
/// reading it, in the order they were met.
pub fn analyze(root: &ScanNode) -> (report: ScanReport)
    requires
        fits_u64(node_tally(*root)),
    ensures
        ({
            let t = node_tally(*root);
            &&& report.root == root.path.display
            &&& report.total_size == t.size
            &&& report.files_scanned == t.files_scanned
            &&& report.dirs_scanned == t.dirs_scanned
            &&& report.hidden_entries == t.hidden_entries
            &&& report.symlinks_skipped == t.symlinks_skipped
            &&& report.other_entries == t.other_entries
            &&& report.errors@ == t.errors
            &&& is_stable_sort_desc(t.files, entry_sizes(t.files), report.files@)
            &&& is_stable_sort_desc(t.dirs, entry_sizes(t.dirs), report.dirs@)
            &&& is_stable_sort_desc(t.candidates, candidate_sizes(t.candidates), report.candidates@)
        }),
        report.total_size == total_of(report.files@),
        report.hidden_entries == count_where(tree_entries(*root), |n: ScanNode| hidden_and_counted(n)),
        report.files_scanned == count_where(tree_entries(*root), |n: ScanNode| n.kind is File),
        report.dirs_scanned == count_where(tree_entries(*root), |n: ScanNode| n.kind is Directory),
        report.symlinks_skipped == count_where(tree_entries(*root), |n: ScanNode| n.kind is Symlink),
        report.other_entries == count_where(tree_entries(*root), |n: ScanNode| n.kind is Other),
        report.files@.len() == report.files_scanned,
        report.dirs@.len() == report.dirs_scanned,
        forall|i: int, j: int|
            0 <= i < j < report.files@.len() ==> #[trigger] report.files@[i].size
                >= #[trigger] report.files@[j].size,
        forall|i: int, j: int|
            0 <= i < j < report.dirs@.len() ==> #[trigger] report.dirs@[i].size
                >= #[trigger] report.dirs@[j].size,
        forall|i: int, j: int|
            0 <= i < j < report.candidates@.len() ==> #[trigger] report.candidates@[i].size
                >= #[trigger] report.candidates@[j].size,
        paths_nested(*root) ==> forall|i: int|
            0 <= i < report.files@.len() ==> at_or_under(
                #[trigger] report.files@[i].path@,
                root.path.display@,
            ),
        paths_nested(*root) && root.kind is Directory ==> forall|i: int|
            0 <= i < report.files@.len() ==> lies_under(
                #[trigger] report.files@[i].path@,
                root.path.display@,
            ),
        paths_nested(*root) ==> forall|i: int|
            0 <= i < report.dirs@.len() ==> at_or_under(
                #[trigger] report.dirs@[i].path@,
                root.path.display@,
            ),
        paths_nested(*root) ==> forall|i: int|
            0 <= i < report.dirs@.len() ==> #[trigger] report.dirs@[i].size == total_under(
                report.files@,
                report.dirs@[i].path@,
            ),
{
    let mut report = ScanReport {
        root: root.path.display.clone(),
        total_size: 0,
        files_scanned: 0,
        dirs_scanned: 0,
        hidden_entries: 0,
        symlinks_skipped: 0,
        other_entries: 0,
        errors: Vec::new(),
        files: Vec::new(),
        dirs: Vec::new(),
        candidates: Vec::new(),
    };
    let total = scan_entry(root, &mut report);
    report.total_size = total;
    assert(report.files@ =~= node_tally(*root).files);
    assert(report.dirs@ =~= node_tally(*root).dirs);
    assert(report.candidates@ =~= node_tally(*root).candidates);
    assert(report.errors@ =~= node_tally(*root).errors);
    let ghost found = node_tally(*root);
    proof {
        lemma_size_is_sum_of_files(*root);
        lemma_counts_are_entry_counts(*root);
    }
    report.files = sort_entries_desc(&report.files);
    report.dirs = sort_entries_desc(&report.dirs);
    report.candidates = sort_candidates_desc(&report.candidates);
    proof {
        lemma_sorted_entries_keep_total(found.files, report.files@);
        lemma_sorted_entries_largest_first(found.files, report.files@);
        lemma_sorted_entries_largest_first(found.dirs, report.dirs@);
        lemma_sorted_candidates_largest_first(found.candidates, report.candidates@);
        if paths_nested(*root) {
            lemma_tally_under(*root);
            lemma_sorted_lists_under(
                found,
                root.path.display@,
                root.kind is Directory,
                report.files@,
                report.dirs@,
            );
        }
    }
    report
}

} // verus!
