//! Where the entries of a scan lie, by path.
//!
//! A tree read from disk names each child by its parent's path followed by
//! a separator and the child's name, and no two children of one directory
//! lie one under the other. On such a tree every file and directory that a
//! scan lists lies under the directory the scan was started at, and the
//! size listed for each directory is the total size of the files listed
//! under its path.
use vstd::prelude::*;
use crate::order::{is_rearrangement, is_stable_sort_desc, lemma_rearrangement_without_last, lemma_stable_sort_rearrangement};
use crate::scan::{
    entry_sizes,
    entries_tally, error_tally, join, lemma_entry_within, lemma_size_is_sum_of_files,
    listing_tally, node_tally, tally_consistent, total_of, DirEntry, DirListing, EntryKind,
    ScanError, ScanNode, SizedEntry, Tally,
};

verus! {

/// Whether `c` separates the components of a path.
pub open spec fn is_separator(c: char) -> bool {
    c == '/' || c == '\\'
}

/// Whether the path `child` lies strictly under the path `parent`: it
/// starts with `parent`, and a separator comes right after it (or ends it).
pub open spec fn lies_under(child: Seq<char>, parent: Seq<char>) -> bool {
    &&& parent.len() < child.len()
    &&& child.take(parent.len() as int) == parent
    &&& (is_separator(child[parent.len() as int]) || (parent.len() > 0 && is_separator(
        parent.last(),
    )))
}

/// Whether the path `child` is `parent` or lies under it.
pub open spec fn at_or_under(child: Seq<char>, parent: Seq<char>) -> bool {
    child == parent || lies_under(child, parent)
}

/// Whether no entry of a listing is at or under another one.
pub open spec fn siblings_apart(entries: Seq<DirEntry>) -> bool {
    forall|i: int, j: int|
        0 <= i < entries.len() && 0 <= j < entries.len() && i != j && #[trigger] entries[i] is Scanned
            && #[trigger] entries[j] is Scanned ==> !at_or_under(
            entries[i]->Scanned_0.path.display@,
            entries[j]->Scanned_0.path.display@,
        )
}

/// Whether the paths of a tree nest: every child lies under its directory,
/// no two children of a directory lie one under the other, and so on all
/// the way down.
pub open spec fn paths_nested(node: ScanNode) -> bool
    decreases node, 0nat,
{
    match node.kind {
        EntryKind::Directory(DirListing::Entries(entries)) => {
            &&& siblings_apart(entries@)
            &&& children_nested(node.path.display@, entries@, entries@.len())
        },
        _ => true,
    }
}

/// Whether the first `n` entries of a listing lie under `dir` and nest.
pub open spec fn children_nested(dir: Seq<char>, entries: Seq<DirEntry>, n: nat) -> bool
    decreases entries, n,
{
    if n == 0 || n > entries.len() {
        true
    } else {
        &&& children_nested(dir, entries, (n - 1) as nat)
        &&& match entries[n - 1] {
            DirEntry::Scanned(child) => lies_under(child.path.display@, dir) && paths_nested(child),
            _ => true,
        }
    }
}

/// The total size of the entries of `s` that are at or under the path `dir`.
pub open spec fn total_under(s: Seq<SizedEntry>, dir: Seq<char>) -> nat
    decreases s.len(),
{
    if s.len() == 0 {
        0
    } else {
        total_under(s.drop_last(), dir) + if at_or_under(s.last().path@, dir) {
            s.last().size as nat
        } else {
            0
        }
    }
}

/// Being at or under a path is transitive, and strictness carries through.
pub proof fn lemma_under_transitive(x: Seq<char>, y: Seq<char>, z: Seq<char>)
    requires
        at_or_under(x, y),
        at_or_under(y, z),
    ensures
        at_or_under(x, z),
        lies_under(x, y) || lies_under(y, z) ==> lies_under(x, z),
{
    if lies_under(x, y) && lies_under(y, z) {
        assert(x.take(z.len() as int) =~= y.take(z.len() as int));
        assert(x[z.len() as int] == y[z.len() as int]);
    }
}

/// Two paths that some path is at or under are one at or under the other.
proof fn lemma_under_comparable(x: Seq<char>, a: Seq<char>, b: Seq<char>)
    requires
        at_or_under(x, a),
        at_or_under(x, b),
    ensures
        at_or_under(a, b) || at_or_under(b, a),
{
    if a.len() <= b.len() {
        if a.len() == b.len() {
            assert(a =~= b) by {
                assert(a == x.take(a.len() as int) || a == x);
                assert(b == x.take(b.len() as int) || b == x);
            }
        } else {
            assert(b.take(a.len() as int) =~= a) by {
                assert(x.take(a.len() as int) == a);
                assert(b == x.take(b.len() as int) || b == x);
            }
            assert(b[a.len() as int] == x[a.len() as int]) by {
                assert(b == x.take(b.len() as int) || b == x);
            }
        }
    } else {
        assert(a.take(b.len() as int) =~= b) by {
            assert(x.take(b.len() as int) == b);
            assert(a == x.take(a.len() as int) || a == x);
        }
        assert(a[b.len() as int] == x[b.len() as int]) by {
            assert(a == x.take(a.len() as int) || a == x);
        }
    }
}

/// The total under a path of two sequences one after the other.
proof fn lemma_total_under_concat(a: Seq<SizedEntry>, b: Seq<SizedEntry>, dir: Seq<char>)
    ensures
        total_under(a + b, dir) == total_under(a, dir) + total_under(b, dir),
    decreases b.len(),
{
    if b.len() > 0 {
        lemma_total_under_concat(a, b.drop_last(), dir);
        assert((a + b).drop_last() =~= a + b.drop_last());
    } else {
        assert(a + b =~= a);
    }
}

/// Entries none of which is at or under `dir` add nothing under it; entries
/// all at or under it add their whole size.
proof fn lemma_total_under_all_or_none(s: Seq<SizedEntry>, dir: Seq<char>)
    ensures
        (forall|i: int| 0 <= i < s.len() ==> !at_or_under(#[trigger] s[i].path@, dir)) ==> total_under(s, dir) == 0,
        (forall|i: int| 0 <= i < s.len() ==> at_or_under(#[trigger] s[i].path@, dir)) ==> total_under(s, dir) == total_of(s),
    decreases s.len(),
{
    if s.len() > 0 {
        lemma_total_under_all_or_none(s.drop_last(), dir);
        if forall|i: int| 0 <= i < s.len() ==> !at_or_under(#[trigger] s[i].path@, dir) {
            assert(!at_or_under(s[s.len() - 1].path@, dir));
        }
        if forall|i: int| 0 <= i < s.len() ==> at_or_under(#[trigger] s[i].path@, dir) {
            assert(at_or_under(s[s.len() - 1].path@, dir));
        }
    }
}

/// What the path laws say of a node's tally: every file and directory listed
/// is at or under the node's path (strictly, apart from the node's own
/// entry), and each directory's size is the total of the files listed at or
/// under its path.
pub open spec fn tally_under(t: Tally, path: Seq<char>, is_dir: bool) -> bool {
    &&& forall|i: int| 0 <= i < t.files.len() ==> at_or_under(#[trigger] t.files[i].path@, path)
    &&& is_dir ==> forall|i: int| 0 <= i < t.files.len() ==> lies_under(#[trigger] t.files[i].path@, path)
    &&& forall|i: int| 0 <= i < t.dirs.len() ==> at_or_under(#[trigger] t.dirs[i].path@, path)
    &&& forall|i: int| 0 <= i < t.dirs.len() - 1 ==> lies_under(#[trigger] t.dirs[i].path@, path)
    &&& forall|i: int| 0 <= i < t.dirs.len() ==> #[trigger] t.dirs[i].size == total_under(t.files, t.dirs[i].path@)
}

/// Whether the path `p` is at or under the `j`-th entry of `entries` (a
/// scanned one).
pub open spec fn under_entry(p: Seq<char>, entries: Seq<DirEntry>, j: int) -> bool {
    entries[j] is Scanned && at_or_under(p, entries[j]->Scanned_0.path.display@)
}

/// Whether the path `p` is at or under one of the first `n` entries of `entries`.
pub open spec fn under_some_entry(p: Seq<char>, entries: Seq<DirEntry>, n: int) -> bool {
    exists|j: int| 0 <= j < n && #[trigger] under_entry(p, entries, j)
}

/// What the path laws say of the tally of the first `n` entries of a listing.
pub open spec fn listing_under(t: Tally, entries: Seq<DirEntry>, n: nat) -> bool {
    &&& forall|i: int| 0 <= i < t.files.len() ==> under_some_entry(#[trigger] t.files[i].path@, entries, n as int)
    &&& forall|i: int| 0 <= i < t.dirs.len() ==> under_some_entry(#[trigger] t.dirs[i].path@, entries, n as int)
    &&& forall|i: int| 0 <= i < t.dirs.len() ==> #[trigger] t.dirs[i].size == total_under(t.files, t.dirs[i].path@)
}

/// On a tree whose paths nest, every file and directory that scanning a node
/// lists lies at or under the node's path, and strictly under it apart from
/// the node's own entry; and the size listed for each directory is the total
/// size of the files listed at or under its path.
pub proof fn lemma_tally_under(node: ScanNode)
    requires
        paths_nested(node),
        node_tally(node).size <= u64::MAX,
    ensures
        tally_under(node_tally(node), node.path.display@, node.kind is Directory),
    decreases node, 0nat,
{
    let t = node_tally(node);
    let path = node.path.display@;
    match node.kind {
        EntryKind::Directory(listing) => {
            let inner = listing_tally(node.path.display, listing);
            lemma_size_is_sum_of_files(node);
            assert(t.size == inner.size);
            match listing {
                DirListing::Entries(entries) => {
                    lemma_listing_under(node.path.display, entries@, entries@.len());
                    assert forall|i: int| 0 <= i < inner.files.len() implies lies_under(
                        #[trigger] inner.files[i].path@,
                        path,
                    ) by {
                        let j = choose|j: int| 0 <= j < entries@.len() && #[trigger] under_entry(inner.files[i].path@, entries@, j);
                        lemma_child_under(path, entries@, entries@.len(), j);
                        lemma_under_transitive(inner.files[i].path@, entries@[j]->Scanned_0.path.display@, path);
                    }
                    assert forall|i: int| 0 <= i < inner.dirs.len() implies lies_under(
                        #[trigger] inner.dirs[i].path@,
                        path,
                    ) by {
                        let j = choose|j: int| 0 <= j < entries@.len() && #[trigger] under_entry(inner.dirs[i].path@, entries@, j);
                        lemma_child_under(path, entries@, entries@.len(), j);
                        lemma_under_transitive(inner.dirs[i].path@, entries@[j]->Scanned_0.path.display@, path);
                    }
                },
                DirListing::Unreadable(_) => {},
            }
            assert(t.files == inner.files);
            assert(t.dirs == inner.dirs.push(SizedEntry { path: node.path.display, size: inner.size as u64 }));
            lemma_total_under_all_or_none(inner.files, path);
            assert(tally_consistent(t));
            assert(t.dirs[t.dirs.len() - 1].size == total_under(t.files, path));
            assert forall|i: int| 0 <= i < t.dirs.len() implies #[trigger] t.dirs[i].size == total_under(t.files, t.dirs[i].path@) by {
                if i < inner.dirs.len() {
                    assert(t.dirs[i] == inner.dirs[i]);
                }
            }
            assert forall|i: int| 0 <= i < t.dirs.len() implies at_or_under(#[trigger] t.dirs[i].path@, path) by {
                if i < inner.dirs.len() {
                    assert(t.dirs[i] == inner.dirs[i]);
                }
            }
            assert forall|i: int| 0 <= i < t.dirs.len() - 1 implies lies_under(#[trigger] t.dirs[i].path@, path) by {
                assert(t.dirs[i] == inner.dirs[i]);
            }
        },
        EntryKind::File(size) => {
            assert(t.files[0].path@ == path);
            assert(t.files.drop_last() =~= Seq::<SizedEntry>::empty());
        },
        _ => {},
    }
}

/// A scanned entry of a nested listing lies under the directory.
proof fn lemma_child_under(dir: Seq<char>, entries: Seq<DirEntry>, n: nat, j: int)
    requires
        children_nested(dir, entries, n),
        n <= entries.len(),
        0 <= j < n,
        entries[j] is Scanned,
    ensures
        lies_under(entries[j]->Scanned_0.path.display@, dir),
        paths_nested(entries[j]->Scanned_0),
    decreases n,
{
    if j < n - 1 {
        lemma_child_under(dir, entries, (n - 1) as nat, j);
    }
}

/// The path laws for the first `n` entries of a nested listing.
proof fn lemma_listing_under(dir: String, entries: Seq<DirEntry>, n: nat)
    requires
        siblings_apart(entries),
        children_nested(dir@, entries, entries.len()),
        n <= entries.len(),
        entries_tally(dir, entries, entries.len()).size <= u64::MAX,
    ensures
        listing_under(entries_tally(dir, entries, n), entries, n),
    decreases entries, n,
{
    if n > 0 {
        let prev = entries_tally(dir, entries, (n - 1) as nat);
        lemma_listing_under(dir, entries, (n - 1) as nat);
        let k = n - 1;
        let last = match entries[k] {
            DirEntry::Scanned(child) => node_tally(child),
            DirEntry::MetadataFailed(e) => error_tally(e),
            DirEntry::Unlisted(message) => error_tally(ScanError { path: dir, message }),
        };
        let t = entries_tally(dir, entries, n);
        assert(t == join(prev, last));
        if entries[k] is Scanned {
            let child = entries[k]->Scanned_0;
            let cpath = child.path.display@;
            lemma_child_under(dir@, entries, entries.len(), k as int);
            lemma_entry_within(dir, entries, k as nat);
            lemma_tally_under(child);
            lemma_total_under_concat(prev.files, last.files, cpath);
            // Files of earlier entries are not under this child, nor the
            // other way round.
            assert forall|i: int, q: Seq<char>| #![trigger at_or_under(last.files[i].path@, q)] 0 <= i < last.files.len() && under_some_entry(q, entries, k) implies !at_or_under(
                last.files[i].path@,
                q,
            ) by {
                let j = choose|j: int| 0 <= j < k && #[trigger] under_entry(q, entries, j);
                if at_or_under(last.files[i].path@, q) {
                    lemma_under_transitive(last.files[i].path@, q, entries[j]->Scanned_0.path.display@);
                    lemma_under_comparable(last.files[i].path@, entries[j]->Scanned_0.path.display@, cpath);
                    assert(entries[j] is Scanned && entries[k as int] is Scanned);
                }
            }
            assert forall|i: int, q: Seq<char>| #![trigger at_or_under(prev.files[i].path@, q)] 0 <= i < prev.files.len() && at_or_under(q, cpath) implies !at_or_under(
                prev.files[i].path@,
                q,
            ) by {
                let j = choose|j: int| 0 <= j < k && #[trigger] under_entry(prev.files[i].path@, entries, j);
                if at_or_under(prev.files[i].path@, q) {
                    lemma_under_transitive(prev.files[i].path@, q, cpath);
                    lemma_under_comparable(prev.files[i].path@, entries[j]->Scanned_0.path.display@, cpath);
                    assert(entries[j] is Scanned && entries[k as int] is Scanned);
                }
            }
            assert forall|i: int| 0 <= i < t.dirs.len() implies #[trigger] t.dirs[i].size == total_under(t.files, t.dirs[i].path@) by {
                let p = t.dirs[i].path@;
                lemma_total_under_concat(prev.files, last.files, p);
                if i < prev.dirs.len() {
                    assert(t.dirs[i] == prev.dirs[i]);
                    assert(under_some_entry(p, entries, k));
                    assert forall|m: int| 0 <= m < last.files.len() implies !at_or_under(#[trigger] last.files[m].path@, p) by {
                        assert(!at_or_under(last.files[m].path@, p));
                    }
                    lemma_total_under_all_or_none(last.files, p);
                } else {
                    let m = i - prev.dirs.len();
                    assert(t.dirs[i] == last.dirs[m]);
                    assert(at_or_under(p, cpath));
                    assert forall|r: int| 0 <= r < prev.files.len() implies !at_or_under(#[trigger] prev.files[r].path@, p) by {
                        assert(!at_or_under(prev.files[r].path@, p));
                    }
                    lemma_total_under_all_or_none(prev.files, p);
                }
            }
            assert forall|i: int| 0 <= i < t.files.len() implies under_some_entry(#[trigger] t.files[i].path@, entries, n as int) by {
                if i < prev.files.len() {
                    assert(t.files[i] == prev.files[i]);
                    let j = choose|j: int| 0 <= j < k && #[trigger] under_entry(prev.files[i].path@, entries, j);
                    assert(under_entry(t.files[i].path@, entries, j));
                } else {
                    assert(t.files[i] == last.files[i - prev.files.len()]);
                    assert(under_entry(t.files[i].path@, entries, k as int));
                }
            }
            assert forall|i: int| 0 <= i < t.dirs.len() implies under_some_entry(#[trigger] t.dirs[i].path@, entries, n as int) by {
                if i < prev.dirs.len() {
                    assert(t.dirs[i] == prev.dirs[i]);
                    let j = choose|j: int| 0 <= j < k && #[trigger] under_entry(prev.dirs[i].path@, entries, j);
                    assert(under_entry(t.dirs[i].path@, entries, j));
                } else {
                    assert(t.dirs[i] == last.dirs[i - prev.dirs.len()]);
                    assert(under_entry(t.dirs[i].path@, entries, k as int));
                }
            }
            assert(listing_under(t, entries, n));
        } else {
            assert(t.files =~= prev.files);
            assert(t.dirs =~= prev.dirs);
            assert forall|i: int| 0 <= i < t.dirs.len() implies #[trigger] t.dirs[i].size == total_under(t.files, t.dirs[i].path@) by {
                assert(t.dirs[i] == prev.dirs[i]);
            }
            assert forall|i: int| 0 <= i < t.files.len() implies under_some_entry(#[trigger] t.files[i].path@, entries, n as int) by {
                assert(t.files[i] == prev.files[i]);
                let j = choose|j: int| 0 <= j < k && #[trigger] under_entry(prev.files[i].path@, entries, j);
                assert(under_entry(t.files[i].path@, entries, j));
            }
            assert forall|i: int| 0 <= i < t.dirs.len() implies under_some_entry(#[trigger] t.dirs[i].path@, entries, n as int) by {
                assert(t.dirs[i] == prev.dirs[i]);
                let j = choose|j: int| 0 <= j < k && #[trigger] under_entry(prev.dirs[i].path@, entries, j);
                assert(under_entry(t.dirs[i].path@, entries, j));
            }
            assert(listing_under(t, entries, n));
        }
    } else {
        assert(entries_tally(dir, entries, 0) == crate::scan::empty_tally());
    }
}

/// Taking one entry out takes its size off the total under a path, when it
/// is at or under that path.
proof fn lemma_total_under_remove(s: Seq<SizedEntry>, m: int, dir: Seq<char>)
    requires
        0 <= m < s.len(),
    ensures
        total_under(s, dir) == total_under(s.remove(m), dir) + if at_or_under(s[m].path@, dir) {
            s[m].size as nat
        } else {
            0
        },
    decreases s.len(),
{
    if m == s.len() - 1 {
        assert(s.remove(m) =~= s.drop_last());
    } else {
        lemma_total_under_remove(s.drop_last(), m, dir);
        assert(s.remove(m).drop_last() =~= s.drop_last().remove(m));
        assert(s.remove(m).last() == s.last());
    }
}

/// Rearranging entries keeps the total under any path.
proof fn lemma_rearranged_total_under(input: Seq<SizedEntry>, p: Seq<usize>, output: Seq<SizedEntry>, dir: Seq<char>)
    requires
        is_rearrangement(input, p, output),
        input.len() <= usize::MAX,
    ensures
        total_under(output, dir) == total_under(input, dir),
    decreases input.len(),
{
    if input.len() == 0 {
        assert(output.len() == 0);
    } else {
        let m = lemma_rearrangement_without_last(input, p, output);
        lemma_rearranged_total_under(input.drop_last(), p.remove(m), output.remove(m), dir);
        lemma_total_under_remove(output, m, dir);
    }
}

/// The path laws carry over from a tally to its lists sorted by size: every
/// file and directory listed is at or under `path` (files strictly, when
/// `path` is a directory), and each directory's size is the total size of
/// the files listed at or under its path.
pub proof fn lemma_sorted_lists_under(
    t: Tally,
    path: Seq<char>,
    is_dir: bool,
    files: Seq<SizedEntry>,
    dirs: Seq<SizedEntry>,
)
    requires
        tally_under(t, path, is_dir),
        is_stable_sort_desc(t.files, entry_sizes(t.files), files),
        is_stable_sort_desc(t.dirs, entry_sizes(t.dirs), dirs),
        t.files.len() <= usize::MAX,
    ensures
        forall|i: int| 0 <= i < files.len() ==> at_or_under(#[trigger] files[i].path@, path),
        is_dir ==> forall|i: int| 0 <= i < files.len() ==> lies_under(#[trigger] files[i].path@, path),
        forall|i: int| 0 <= i < dirs.len() ==> at_or_under(#[trigger] dirs[i].path@, path),
        forall|i: int| 0 <= i < dirs.len() ==> #[trigger] dirs[i].size == total_under(files, dirs[i].path@),
{
    let pf = lemma_stable_sort_rearrangement(t.files, entry_sizes(t.files), files);
    let pd = lemma_stable_sort_rearrangement(t.dirs, entry_sizes(t.dirs), dirs);
    assert forall|i: int| 0 <= i < files.len() implies at_or_under(#[trigger] files[i].path@, path) by {
        assert(files[i] == t.files[pf[i] as int]);
    }
    if is_dir {
        assert forall|i: int| 0 <= i < files.len() implies lies_under(#[trigger] files[i].path@, path) by {
            assert(files[i] == t.files[pf[i] as int]);
        }
    }
    assert forall|i: int| 0 <= i < dirs.len() implies at_or_under(#[trigger] dirs[i].path@, path) by {
        assert(dirs[i] == t.dirs[pd[i] as int]);
    }
    assert forall|i: int| 0 <= i < dirs.len() implies #[trigger] dirs[i].size == total_under(files, dirs[i].path@) by {
        assert(dirs[i] == t.dirs[pd[i] as int]);
        lemma_rearranged_total_under(t.files, pf, files, dirs[i].path@);
    }
}

} // verus!
