//! Stable ordering by size, largest first.
//!
//! An ordering of `n` items is given as the sequence of their indices in
//! output order. The stable largest-first ordering puts item `a` before
//! item `b` exactly when `a` is larger, or both are equally large and `a`
//! came first.
use vstd::prelude::*;

verus! {

/// Whether item `a` goes before item `b` when ordering by `keys`, largest
/// first, ties in original order.
pub open spec fn goes_before(keys: Seq<u64>, a: int, b: int) -> bool {
    keys[a] > keys[b] || (keys[a] == keys[b] && a < b)
}

/// Whether `p` lists indices of `keys`, each strictly before the next in the
/// largest-first stable order.
pub open spec fn strictly_ordered(keys: Seq<u64>, p: Seq<usize>) -> bool {
    forall|i: int, j: int| 0 <= i < j < p.len() ==> goes_before(keys, #[trigger] p[i] as int, #[trigger] p[j] as int)
}

/// Whether `p` is the stable largest-first ordering of all items of `keys`:
/// it has one position per item, only indices of items, in strict order
/// (so each item exactly once).
pub open spec fn is_stable_order(keys: Seq<u64>, p: Seq<usize>) -> bool {
    &&& p.len() == keys.len()
    &&& forall|i: int| 0 <= i < p.len() ==> #[trigger] p[i] < keys.len()
    &&& strictly_ordered(keys, p)
}

/// Whether `output` holds the items of `input` in the stable largest-first
/// order of their sizes `keys` (`keys[i]` is the size of `input[i]`).
pub open spec fn is_stable_sort_desc<E>(input: Seq<E>, keys: Seq<u64>, output: Seq<E>) -> bool {
    &&& keys.len() == input.len()
    &&& exists|p: Seq<usize>|
        #![trigger is_stable_order(keys, p)]
        is_stable_order(keys, p) && output.len() == p.len() && forall|i: int|
            0 <= i < output.len() ==> output[i] == input[#[trigger] p[i] as int]
}

/// Merges two strictly ordered runs of indices, the first all below `mid`,
/// the second all at or above it.
fn merge(keys: &Vec<u64>, a: Vec<usize>, b: Vec<usize>, mid: usize) -> (r: Vec<usize>)
    requires
        strictly_ordered(keys@, a@),
        strictly_ordered(keys@, b@),
        forall|i: int| 0 <= i < a@.len() ==> #[trigger] a@[i] < mid,
        forall|i: int| 0 <= i < b@.len() ==> mid <= #[trigger] b@[i] < keys@.len(),
    ensures
        r@.len() == a@.len() + b@.len(),
        strictly_ordered(keys@, r@),
        forall|i: int| 0 <= i < r@.len() ==> (#[trigger] r@[i] < mid && a@.contains(r@[i])) || (
        mid <= r@[i] && b@.contains(r@[i])),
{
    let mut r: Vec<usize> = Vec::new();
    let mut i: usize = 0;
    let mut j: usize = 0;
    while i < a.len() || j < b.len()
        invariant
            i <= a@.len(),
            j <= b@.len(),
            r@.len() == i + j,
            strictly_ordered(keys@, a@),
            strictly_ordered(keys@, b@),
            forall|k: int| 0 <= k < a@.len() ==> #[trigger] a@[k] < mid,
            forall|k: int| 0 <= k < b@.len() ==> mid <= #[trigger] b@[k] < keys@.len(),
            strictly_ordered(keys@, r@),
            forall|k: int, l: int|
                0 <= k < r@.len() && i <= l < a@.len() ==> goes_before(
                    keys@,
                    #[trigger] r@[k] as int,
                    #[trigger] a@[l] as int,
                ),
            forall|k: int, l: int|
                0 <= k < r@.len() && j <= l < b@.len() ==> goes_before(
                    keys@,
                    #[trigger] r@[k] as int,
                    #[trigger] b@[l] as int,
                ),
            forall|k: int|
                0 <= k < r@.len() ==> (#[trigger] r@[k] < mid && a@.contains(r@[k])) || (mid
                    <= r@[k] && b@.contains(r@[k])),
        decreases a@.len() + b@.len() - i - j,
    {
        let take_a = if i < a.len() && j < b.len() {
            let x = a[i];
            let y = b[j];
            keys[x] > keys[y] || (keys[x] == keys[y] && x < y)
        } else {
            i < a.len()
        };
        if take_a {
            let x = a[i];
            assert(a@.contains(x)) by { assert(a@[i as int] == x); }
            assert forall|l: int| i < l < a@.len() implies goes_before(keys@, x as int, #[trigger] a@[l] as int) by {
                assert(goes_before(keys@, a@[i as int] as int, a@[l] as int));
            }
            assert forall|l: int| j <= l < b@.len() implies goes_before(keys@, x as int, #[trigger] b@[l] as int) by {
                assert(goes_before(keys@, b@[j as int] as int, b@[l] as int) || l == j);
            }
            r.push(x);
            i = i + 1;
        } else {
            let y = b[j];
            assert(b@.contains(y)) by { assert(b@[j as int] == y); }
            assert forall|l: int| i <= l < a@.len() implies goes_before(keys@, y as int, #[trigger] a@[l] as int) by {
                assert(a@[l] < mid);
                assert(goes_before(keys@, a@[i as int] as int, a@[l] as int) || l == i);
            }
            assert forall|l: int| j < l < b@.len() implies goes_before(keys@, y as int, #[trigger] b@[l] as int) by {
                assert(goes_before(keys@, b@[j as int] as int, b@[l] as int));
            }
            r.push(y);
            j = j + 1;
        }
    }
    r
}

/// The stable largest-first ordering of the items with indices in `lo..hi`.
fn order_range(keys: &Vec<u64>, lo: usize, hi: usize) -> (r: Vec<usize>)
    requires
        lo <= hi <= keys@.len(),
    ensures
        r@.len() == hi - lo,
        strictly_ordered(keys@, r@),
        forall|i: int| 0 <= i < r@.len() ==> lo <= #[trigger] r@[i] < hi,
    decreases hi - lo,
{
    if hi - lo == 0 {
        Vec::new()
    } else if hi - lo == 1 {
        let mut r: Vec<usize> = Vec::new();
        r.push(lo);
        r
    } else {
        let mid = lo + (hi - lo) / 2;
        let a = order_range(keys, lo, mid);
        let b = order_range(keys, mid, hi);
        let ghost ga = a@;
        let ghost gb = b@;
        let r = merge(keys, a, b, mid);
        assert forall|i: int| 0 <= i < r@.len() implies lo <= #[trigger] r@[i] < hi by {
            if r@[i] < mid {
                let k = choose|k: int| 0 <= k < ga.len() && ga[k] == r@[i];
            } else {
                let k = choose|k: int| 0 <= k < gb.len() && gb[k] == r@[i];
            }
        }
        r
    }
}

/// The stable largest-first ordering of all items of `keys`.
pub fn stable_order_desc(keys: &Vec<u64>) -> (p: Vec<usize>)
    ensures
        is_stable_order(keys@, p@),
{
    order_range(keys, 0, keys.len())
}

/// Whether `output` is `input` rearranged by `p`: `output[i]` is
/// `input[p[i]]`, and `p` lists each index of `input` once.
pub open spec fn is_rearrangement<E>(input: Seq<E>, p: Seq<usize>, output: Seq<E>) -> bool {
    &&& p.len() == input.len()
    &&& output.len() == p.len()
    &&& p.no_duplicates()
    &&& forall|i: int| 0 <= i < p.len() ==> #[trigger] p[i] < input.len()
    &&& forall|i: int| 0 <= i < output.len() ==> output[i] == input[#[trigger] p[i] as int]
}

/// A sequence of `n` distinct indices below `n` holds every index below `n`.
proof fn lemma_indices_cover(p: Seq<usize>, n: nat)
    requires
        p.len() == n,
        p.no_duplicates(),
        forall|i: int| 0 <= i < p.len() ==> #[trigger] p[i] < n,
    ensures
        forall|x: usize| x < n ==> p.contains(x),
{
    let q = p.map_values(|x: usize| x as int);
    assert(q.no_duplicates()) by {
        assert forall|i: int, j: int| 0 <= i < q.len() && 0 <= j < q.len() && i != j implies q[i]
            != q[j] by {
            assert(p[i] != p[j]);
        }
    }
    q.unique_seq_to_set();
    vstd::set_lib::lemma_int_range(0, n as int);
    assert(q.to_set().subset_of(vstd::set_lib::set_int_range(0, n as int))) by {
        assert forall|x: int| q.to_set().contains(x) implies vstd::set_lib::set_int_range(
            0,
            n as int,
        ).contains(x) by {
            assert(q.contains(x));
            let i = choose|i: int| 0 <= i < q.len() && q[i] == x;
            assert(p[i] < n);
        }
    }
    vstd::set_lib::lemma_subset_equality(q.to_set(), vstd::set_lib::set_int_range(0, n as int));
    assert forall|x: usize| x < n implies p.contains(x) by {
        assert(vstd::set_lib::set_int_range(0, n as int).contains(x as int));
        assert(q.to_set().contains(x as int));
        assert(q.contains(x as int));
        let i = choose|i: int| 0 <= i < q.len() && q[i] == x as int;
        assert(p[i] == x);
    }
}

/// The indices of a stable order are distinct.
proof fn lemma_stable_order_distinct(keys: Seq<u64>, p: Seq<usize>)
    requires
        is_stable_order(keys, p),
    ensures
        p.no_duplicates(),
{
    assert forall|i: int, j: int| 0 <= i < p.len() && 0 <= j < p.len() && i != j implies p[i]
        != p[j] by {
        if i < j {
            assert(goes_before(keys, p[i] as int, p[j] as int));
        } else {
            assert(goes_before(keys, p[j] as int, p[i] as int));
        }
    }
}

/// A stable order lists every item: each index below the number of items
/// occurs in it.
proof fn lemma_stable_order_covers(keys: Seq<u64>, p: Seq<usize>)
    requires
        is_stable_order(keys, p),
    ensures
        forall|x: usize| x < keys.len() ==> p.contains(x),
{
    lemma_stable_order_distinct(keys, p);
    lemma_indices_cover(p, keys.len());
}

/// Taking the last item of the input out of a rearrangement leaves a
/// rearrangement of the rest; `m` is where that item stood in the output.
pub proof fn lemma_rearrangement_without_last<E>(input: Seq<E>, p: Seq<usize>, output: Seq<E>) -> (m: int)
    requires
        is_rearrangement(input, p, output),
        0 < input.len() <= usize::MAX,
    ensures
        0 <= m < output.len(),
        output[m] == input.last(),
        is_rearrangement(input.drop_last(), p.remove(m), output.remove(m)),
{
    let n = input.len();
    lemma_indices_cover(p, n);
    assert(p.contains((n - 1) as usize));
    let m = choose|m: int| 0 <= m < p.len() && p[m] == (n - 1) as usize;
    p.remove_ensures(m);
    output.remove_ensures(m);
    let p2 = p.remove(m);
    assert forall|i: int, j: int| 0 <= i < p2.len() && 0 <= j < p2.len() && i != j implies p2[i]
        != p2[j] by {
        let a = if i < m { i } else { i + 1 };
        let b = if j < m { j } else { j + 1 };
        assert(p2[i] == p[a] && p2[j] == p[b]);
    }
    assert forall|i: int| 0 <= i < p2.len() implies #[trigger] p2[i] < n - 1 by {
        let a = if i < m { i } else { i + 1 };
        assert(p2[i] == p[a]);
        assert(a != m);
    }
    assert forall|i: int| 0 <= i < output.remove(m).len() implies output.remove(m)[i]
        == input.drop_last()[#[trigger] p2[i] as int] by {
        let a = if i < m { i } else { i + 1 };
        assert(p2[i] == p[a]);
        assert(output.remove(m)[i] == output[a]);
    }
    m
}

/// A rearrangement holds the same items, as many times each.
pub proof fn lemma_rearrangement_same_items<E>(input: Seq<E>, p: Seq<usize>, output: Seq<E>)
    requires
        is_rearrangement(input, p, output),
        input.len() <= usize::MAX,
    ensures
        output.to_multiset() == input.to_multiset(),
    decreases input.len(),
{
    broadcast use vstd::seq_lib::group_to_multiset_ensures;

    if input.len() == 0 {
        assert(output =~= Seq::<E>::empty());
        assert(input =~= Seq::<E>::empty());
    } else {
        let m = lemma_rearrangement_without_last(input, p, output);
        lemma_rearrangement_same_items(input.drop_last(), p.remove(m), output.remove(m));
        assert(input.drop_last().push(input.last()) =~= input);
        assert(output.to_multiset().count(output[m]) > 0) by {
            assert(output.contains(output[m]));
        }
        assert(output.to_multiset() =~= output.remove(m).to_multiset().insert(output[m]));
    }
}

/// A stably sorted sequence holds the same items as the input, as many
/// times each.
pub proof fn lemma_stable_sort_same_items<E>(input: Seq<E>, keys: Seq<u64>, output: Seq<E>)
    requires
        is_stable_sort_desc(input, keys, output),
        input.len() <= usize::MAX,
    ensures
        output.to_multiset() == input.to_multiset(),
{
    let p = lemma_stable_sort_rearrangement(input, keys, output);
    lemma_rearrangement_same_items(input, p, output);
}

/// A stable sort is a rearrangement of its input.
pub proof fn lemma_stable_sort_rearrangement<E>(input: Seq<E>, keys: Seq<u64>, output: Seq<E>) -> (p: Seq<usize>)
    requires
        is_stable_sort_desc(input, keys, output),
    ensures
        is_rearrangement(input, p, output),
        is_stable_order(keys, p),
{
    let p = choose|p: Seq<usize>|
        #![trigger is_stable_order(keys, p)]
        is_stable_order(keys, p) && output.len() == p.len() && forall|i: int|
            0 <= i < output.len() ==> output[i] == input[#[trigger] p[i] as int];
    lemma_stable_order_distinct(keys, p);
    p
}

/// Two stable orders of the same items agree up to position `i`.
proof fn lemma_stable_orders_agree(keys: Seq<u64>, p: Seq<usize>, q: Seq<usize>, i: int)
    requires
        is_stable_order(keys, p),
        is_stable_order(keys, q),
        forall|x: usize| x < keys.len() ==> p.contains(x),
        forall|x: usize| x < keys.len() ==> q.contains(x),
        0 <= i < p.len(),
    ensures
        forall|j: int| 0 <= j <= i ==> p[j] == q[j],
    decreases i,
{
    if i > 0 {
        lemma_stable_orders_agree(keys, p, q, i - 1);
    }
    if p[i] != q[i] {
        assert(q.contains(p[i]));
        let m = choose|m: int| 0 <= m < q.len() && q[m] == p[i];
        if m < i {
            assert(p[m] == q[m]);
            assert(goes_before(keys, p[m] as int, p[i] as int));
        }
        assert(goes_before(keys, q[i] as int, q[m] as int));
        assert(p.contains(q[i]));
        let k = choose|k: int| 0 <= k < p.len() && p[k] == q[i];
        if k < i {
            assert(p[k] == q[k]);
            assert(goes_before(keys, q[k] as int, q[i] as int));
        }
        assert(goes_before(keys, p[i] as int, p[k] as int));
    }
}

/// There is only one stable largest-first ordering of a list of sizes.
pub proof fn lemma_stable_order_unique(keys: Seq<u64>, p: Seq<usize>, q: Seq<usize>)
    requires
        is_stable_order(keys, p),
        is_stable_order(keys, q),
    ensures
        p == q,
{
    lemma_stable_order_covers(keys, p);
    lemma_stable_order_covers(keys, q);
    if p.len() > 0 {
        lemma_stable_orders_agree(keys, p, q, p.len() - 1);
    }
    assert(p =~= q);
}

/// Sorting largest first, stably, has exactly one result: two results for
/// the same items are equal.
pub proof fn lemma_stable_sort_unique<E>(input: Seq<E>, keys: Seq<u64>, a: Seq<E>, b: Seq<E>)
    requires
        is_stable_sort_desc(input, keys, a),
        is_stable_sort_desc(input, keys, b),
    ensures
        a == b,
{
    let p = choose|p: Seq<usize>|
        #![trigger is_stable_order(keys, p)]
        is_stable_order(keys, p) && a.len() == p.len() && forall|i: int|
            0 <= i < a.len() ==> a[i] == input[#[trigger] p[i] as int];
    let q = choose|q: Seq<usize>|
        #![trigger is_stable_order(keys, q)]
        is_stable_order(keys, q) && b.len() == q.len() && forall|i: int|
            0 <= i < b.len() ==> b[i] == input[#[trigger] q[i] as int];
    lemma_stable_order_unique(keys, p, q);
    assert forall|i: int| 0 <= i < a.len() implies a[i] == b[i] by {
        assert(a[i] == input[p[i] as int]);
        assert(b[i] == input[q[i] as int]);
    }
    assert(a =~= b);
}

} // verus!
