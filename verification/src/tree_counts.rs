//! What the counts of a scan report count, entry by entry.
//!
//! Each count of a report is the number of entries of the tree with some
//! property: the files, the directories, the symbolic links, the other
//! entries, and the hidden entries (any entry but a symbolic link that the
//! system marks hidden or whose name starts with a dot).
use vstd::prelude::*;
use crate::scan::{
    counts_as_hidden, entries_tally, error_tally, join, node_tally, DirEntry, DirListing,
    EntryKind, ScanError, ScanNode, Tally,
};

verus! {

/// Every entry of the tree at `node` that was read: the node first, then,
/// for a directory, the entries of each child in listing order.
pub open spec fn tree_entries(node: ScanNode) -> Seq<ScanNode>
    decreases node, 0nat,
{
    match node.kind {
        EntryKind::Directory(DirListing::Entries(entries)) => seq![node] + listing_entries(
            entries@,
            entries@.len(),
        ),
        _ => seq![node],
    }
}

/// The entries of the trees at the first `n` items of a listing.
pub open spec fn listing_entries(entries: Seq<DirEntry>, n: nat) -> Seq<ScanNode>
    decreases entries, n,
{
    if n == 0 || n > entries.len() {
        Seq::empty()
    } else {
        listing_entries(entries, (n - 1) as nat) + match entries[n - 1] {
            DirEntry::Scanned(child) => tree_entries(child),
            _ => Seq::empty(),
        }
    }
}

/// How many entries of `s` have the property `p`.
pub open spec fn count_where(s: Seq<ScanNode>, p: spec_fn(ScanNode) -> bool) -> nat
    decreases s.len(),
{
    if s.len() == 0 {
        0
    } else {
        count_where(s.drop_last(), p) + if p(s.last()) {
            1nat
        } else {
            0
        }
    }
}

/// Whether an entry is hidden and counted so: not a symbolic link, and marked
/// hidden or dot-named.
pub open spec fn hidden_and_counted(n: ScanNode) -> bool {
    !(n.kind is Symlink) && counts_as_hidden(n)
}

/// Whether a tally's counts are the numbers of the given entries of each kind.
pub open spec fn counts_match(t: Tally, s: Seq<ScanNode>) -> bool {
    &&& t.hidden_entries == count_where(s, |n: ScanNode| hidden_and_counted(n))
    &&& t.files_scanned == count_where(s, |n: ScanNode| n.kind is File)
    &&& t.dirs_scanned == count_where(s, |n: ScanNode| n.kind is Directory)
    &&& t.symlinks_skipped == count_where(s, |n: ScanNode| n.kind is Symlink)
    &&& t.other_entries == count_where(s, |n: ScanNode| n.kind is Other)
}

/// Counting over two sequences one after the other adds the counts.
proof fn lemma_count_concat(a: Seq<ScanNode>, b: Seq<ScanNode>, p: spec_fn(ScanNode) -> bool)
    ensures
        count_where(a + b, p) == count_where(a, p) + count_where(b, p),
    decreases b.len(),
{
    if b.len() > 0 {
        lemma_count_concat(a, b.drop_last(), p);
        assert((a + b).drop_last() =~= a + b.drop_last());
    } else {
        assert(a + b =~= a);
    }
}

/// Counts match over two sequences when they match over each.
proof fn lemma_counts_join(t1: Tally, s1: Seq<ScanNode>, t2: Tally, s2: Seq<ScanNode>)
    requires
        counts_match(t1, s1),
        counts_match(t2, s2),
    ensures
        counts_match(join(t1, t2), s1 + s2),
{
    lemma_count_concat(s1, s2, |n: ScanNode| hidden_and_counted(n));
    lemma_count_concat(s1, s2, |n: ScanNode| n.kind is File);
    lemma_count_concat(s1, s2, |n: ScanNode| n.kind is Directory);
    lemma_count_concat(s1, s2, |n: ScanNode| n.kind is Symlink);
    lemma_count_concat(s1, s2, |n: ScanNode| n.kind is Other);
}

/// Counting over a single entry.
proof fn lemma_count_single(m: ScanNode, p: spec_fn(ScanNode) -> bool)
    ensures
        count_where(seq![m], p) == if p(m) { 1nat } else { 0 },
{
    assert(seq![m].drop_last() =~= Seq::<ScanNode>::empty());
    assert(count_where(Seq::<ScanNode>::empty(), p) == 0);
    assert(count_where(seq![m].drop_last(), p) == 0);
    assert(seq![m].last() == m);
}

/// Counts of a single entry.
proof fn lemma_counts_single(m: ScanNode)
    ensures
        counts_match(
            Tally {
                hidden_entries: if hidden_and_counted(m) { 1 } else { 0 },
                files_scanned: if m.kind is File { 1 } else { 0 },
                dirs_scanned: if m.kind is Directory { 1 } else { 0 },
                symlinks_skipped: if m.kind is Symlink { 1 } else { 0 },
                other_entries: if m.kind is Other { 1 } else { 0 },
                ..crate::scan::empty_tally()
            },
            seq![m],
        ),
{
    lemma_count_single(m, |n: ScanNode| hidden_and_counted(n));
    lemma_count_single(m, |n: ScanNode| n.kind is File);
    lemma_count_single(m, |n: ScanNode| n.kind is Directory);
    lemma_count_single(m, |n: ScanNode| n.kind is Symlink);
    lemma_count_single(m, |n: ScanNode| n.kind is Other);
}

/// Each count that scanning a node reports is the number of entries of its
/// tree of that kind: hidden entries are the entries other than symbolic
/// links that are marked hidden or dot-named (files, directories and other
/// entries alike); files, directories, symbolic links and other entries are
/// the entries of that kind.
pub proof fn lemma_counts_are_entry_counts(node: ScanNode)
    ensures
        counts_match(node_tally(node), tree_entries(node)),
    decreases node, 0nat,
{
    lemma_counts_single(node);
    let t = node_tally(node);
    match node.kind {
        EntryKind::Directory(DirListing::Entries(entries)) => {
            lemma_listing_counts(node.path.display, entries@, entries@.len());
            let inner = entries_tally(node.path.display, entries@, entries@.len());
            let own = Tally {
                hidden_entries: if hidden_and_counted(node) { 1 } else { 0 },
                files_scanned: 0,
                dirs_scanned: 1,
                symlinks_skipped: 0,
                other_entries: 0,
                ..crate::scan::empty_tally()
            };
            lemma_counts_join(own, seq![node], inner, listing_entries(entries@, entries@.len()));
        },
        EntryKind::Directory(DirListing::Unreadable(_)) => {},
        _ => {},
    }
}

/// The counts of the first `n` items of a listing are the numbers of entries
/// of their trees.
proof fn lemma_listing_counts(dir: String, entries: Seq<DirEntry>, n: nat)
    ensures
        counts_match(entries_tally(dir, entries, n), listing_entries(entries, n)),
    decreases entries, n,
{
    if n == 0 || n > entries.len() {
    } else {
        lemma_listing_counts(dir, entries, (n - 1) as nat);
        match entries[n - 1] {
            DirEntry::Scanned(child) => {
                lemma_counts_are_entry_counts(child);
                lemma_counts_join(
                    entries_tally(dir, entries, (n - 1) as nat),
                    listing_entries(entries, (n - 1) as nat),
                    node_tally(child),
                    tree_entries(child),
                );
            },
            DirEntry::MetadataFailed(e) => {
                lemma_counts_join(
                    entries_tally(dir, entries, (n - 1) as nat),
                    listing_entries(entries, (n - 1) as nat),
                    error_tally(e),
                    Seq::empty(),
                );
                assert(listing_entries(entries, (n - 1) as nat) + Seq::empty() =~= listing_entries(entries, (n - 1) as nat));
            },
            DirEntry::Unlisted(message) => {
                lemma_counts_join(
                    entries_tally(dir, entries, (n - 1) as nat),
                    listing_entries(entries, (n - 1) as nat),
                    error_tally(ScanError { path: dir, message }),
                    Seq::empty(),
                );
                assert(listing_entries(entries, (n - 1) as nat) + Seq::empty() =~= listing_entries(entries, (n - 1) as nat));
            },
        }
    }
}

} // verus!
