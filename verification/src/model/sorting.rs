//! A stable insertion sort of course positions by a list of columns.

use vstd::prelude::*;
use crate::commands::Column;
use crate::model::course::Course;
use crate::model::order::{not_after, ties, comes_after, lemma_not_after_total, lemma_not_after_trans};

verus! {

/// The course at position `idx[a]` of `cs`.
pub open spec fn course_at(cs: Seq<Course>, idx: Seq<usize>, a: int) -> Course {
    cs[idx[a] as int]
}

/// Whether every position in `idx` is a position of `cs`.
pub open spec fn positions_in(cs: Seq<Course>, idx: Seq<usize>) -> bool {
    forall|k: int| 0 <= k < idx.len() ==> #[trigger] idx[k] < cs.len()
}

/// Whether the courses at the positions `idx` come in the sort order.
pub open spec fn is_sorted_by(cs: Seq<Course>, idx: Seq<usize>, keys: Seq<Column>, descending: bool) -> bool {
    forall|a: int, b: int|
        0 <= a < b < idx.len() ==> not_after(keys, descending, #[trigger] course_at(cs, idx, a), #[trigger] course_at(cs, idx, b))
}

/// Whether `p` is a permutation of the positions `0..n`.
pub open spec fn is_permutation(p: Seq<int>, n: int) -> bool {
    &&& p.len() == n
    &&& forall|k: int| 0 <= k < n ==> 0 <= #[trigger] p[k] < n
    &&& forall|a: int, b: int| 0 <= a < b < n ==> #[trigger] p[a] != #[trigger] p[b]
}

/// Whether `new` holds the positions of `old` moved by `p` (`new[k] == old[p[k]]`),
/// with courses that tie in the sort order kept in their order in `old`.
pub open spec fn is_stable_rearrangement(
    cs: Seq<Course>,
    new: Seq<usize>,
    old: Seq<usize>,
    p: Seq<int>,
    keys: Seq<Column>,
    descending: bool,
) -> bool {
    &&& new.len() == old.len()
    &&& is_permutation(p, old.len() as int)
    &&& forall|k: int| 0 <= k < new.len() ==> #[trigger] new[k] == old[p[k]]
    &&& forall|a: int, b: int|
        0 <= a < b < new.len() && ties(keys, descending, #[trigger] course_at(cs, new, a), #[trigger] course_at(cs, new, b))
            ==> p[a] < p[b]
}

/// Whether `new` is what a stable sort of the positions `old` by `keys` gives:
/// the same positions, in the sort order, ties kept in their order.
pub open spec fn is_stable_sort_of(cs: Seq<Course>, new: Seq<usize>, old: Seq<usize>, keys: Seq<Column>, descending: bool) -> bool {
    &&& is_sorted_by(cs, new, keys, descending)
    &&& exists|p: Seq<int>| is_stable_rearrangement(cs, new, old, p, keys, descending)
}

/// `s` with the element at `i` moved to `j <= i`.
pub open spec fn moved<T>(s: Seq<T>, i: int, j: int) -> Seq<T> {
    s.subrange(0, j) + seq![s[i]] + s.subrange(j, i) + s.subrange(i + 1, s.len() as int)
}

proof fn lemma_moved_index<T>(s: Seq<T>, i: int, j: int, k: int)
    requires
        0 <= j <= i < s.len(),
        0 <= k < s.len(),
    ensures
        moved(s, i, j).len() == s.len(),
        k < j ==> moved(s, i, j)[k] == s[k],
        k == j ==> moved(s, i, j)[k] == s[i],
        j < k <= i ==> moved(s, i, j)[k] == s[k - 1],
        i < k ==> moved(s, i, j)[k] == s[k],
{
}

/// Whether the courses at the first `i` positions of `idx` are sorted and
/// stable under `p`.
pub open spec fn prefix_sorted(cs: Seq<Course>, idx: Seq<usize>, p: Seq<int>, i: int, keys: Seq<Column>, descending: bool) -> bool {
    &&& forall|a: int, b: int|
        0 <= a < b < i ==> not_after(keys, descending, #[trigger] course_at(cs, idx, a), #[trigger] course_at(cs, idx, b))
    &&& forall|a: int, b: int|
        0 <= a < b < i && ties(keys, descending, #[trigger] course_at(cs, idx, a), #[trigger] course_at(cs, idx, b))
            ==> p[a] < p[b]
}

/// One step of insertion: moving position `i` to `j` keeps the sorted
/// prefix sorted and stable.
proof fn lemma_insert_step(
    cs: Seq<Course>,
    idx: Seq<usize>,
    orig: Seq<usize>,
    p: Seq<int>,
    i: int,
    j: int,
    keys: Seq<Column>,
    descending: bool,
)
    requires
        0 <= j <= i < idx.len(),
        idx.len() == orig.len(),
        p.len() == idx.len(),
        positions_in(cs, idx),
        forall|k: int| 0 <= k < idx.len() ==> #[trigger] idx[k] == orig[p[k]],
        forall|k: int| 0 <= k < idx.len() ==> 0 <= #[trigger] p[k] < idx.len(),
        forall|k: int| i <= k < idx.len() ==> #[trigger] p[k] == k,
        forall|k: int| 0 <= k < i ==> #[trigger] p[k] < i,
        forall|a: int, b: int| 0 <= a < b < idx.len() ==> #[trigger] p[a] != #[trigger] p[b],
        prefix_sorted(cs, idx, p, i, keys, descending),
        forall|k: int| 0 <= k < j ==> not_after(keys, descending, #[trigger] course_at(cs, idx, k), course_at(cs, idx, i)),
        j < i ==> !not_after(keys, descending, course_at(cs, idx, j), course_at(cs, idx, i)),
    ensures
        ({
            let idx2 = moved(idx, i, j);
            let p2 = moved(p, i, j);
            &&& idx2.len() == idx.len()
            &&& p2.len() == p.len()
            &&& positions_in(cs, idx2)
            &&& forall|k: int| 0 <= k < idx2.len() ==> #[trigger] idx2[k] == orig[p2[k]]
            &&& forall|k: int| 0 <= k < idx2.len() ==> 0 <= #[trigger] p2[k] < idx2.len()
            &&& forall|k: int| i + 1 <= k < idx2.len() ==> #[trigger] p2[k] == k
            &&& forall|k: int| 0 <= k < i + 1 ==> #[trigger] p2[k] < i + 1
            &&& forall|a: int, b: int| 0 <= a < b < idx2.len() ==> #[trigger] p2[a] != #[trigger] p2[b]
            &&& prefix_sorted(cs, idx2, p2, i + 1, keys, descending)
        }),
{
    let idx2 = moved(idx, i, j);
    let p2 = moved(p, i, j);
    let x = course_at(cs, idx, i);
    assert forall|k: int| 0 <= k < idx2.len() implies #[trigger] idx2[k] < cs.len() by {
        lemma_moved_index(idx, i, j, k);
    }
    assert forall|k: int| 0 <= k < idx2.len() implies #[trigger] idx2[k] == orig[p2[k]] by {
        lemma_moved_index(idx, i, j, k);
        lemma_moved_index(p, i, j, k);
    }
    assert forall|k: int| 0 <= k < idx2.len() implies 0 <= #[trigger] p2[k] < idx2.len() by {
        lemma_moved_index(p, i, j, k);
    }
    assert forall|k: int| i + 1 <= k < idx2.len() implies #[trigger] p2[k] == k by {
        lemma_moved_index(p, i, j, k);
    }
    assert forall|k: int| 0 <= k < i + 1 implies #[trigger] p2[k] < i + 1 by {
        lemma_moved_index(p, i, j, k);
    }
    assert forall|a: int, b: int| 0 <= a < b < idx2.len() implies #[trigger] p2[a] != #[trigger] p2[b] by {
        lemma_moved_index(p, i, j, a);
        lemma_moved_index(p, i, j, b);
    }
    // the moved course comes strictly before every course it passes
    assert forall|k: int| j < k <= i implies not_after(keys, descending, x, #[trigger] course_at(cs, idx2, k))
        && !ties(keys, descending, x, course_at(cs, idx2, k)) by {
        lemma_moved_index(idx, i, j, k);
        let w = course_at(cs, idx, k - 1);
        assert(course_at(cs, idx2, k) == w);
        let y = course_at(cs, idx, j);
        if k - 1 > j {
            assert(not_after(keys, descending, y, w));
            if not_after(keys, descending, w, x) {
                lemma_not_after_trans(keys, descending, y, w, x);
            }
        }
        lemma_not_after_total(keys, descending, w, x);
    }
    assert forall|a: int, b: int| 0 <= a < b < i + 1 implies not_after(keys, descending, #[trigger] course_at(cs, idx2, a), #[trigger] course_at(cs, idx2, b)) by {
        lemma_moved_index(idx, i, j, a);
        lemma_moved_index(idx, i, j, b);
        if a < j && b == j {
            assert(course_at(cs, idx2, a) == course_at(cs, idx, a));
        } else if a < j && b > j {
            assert(course_at(cs, idx2, a) == course_at(cs, idx, a));
            assert(course_at(cs, idx2, b) == course_at(cs, idx, b - 1));
        } else if a == j {
        } else if a > j {
            assert(course_at(cs, idx2, a) == course_at(cs, idx, a - 1));
            assert(course_at(cs, idx2, b) == course_at(cs, idx, b - 1));
        } else {
            assert(course_at(cs, idx2, a) == course_at(cs, idx, a));
            assert(course_at(cs, idx2, b) == course_at(cs, idx, b));
        }
    }
    assert forall|a: int, b: int| 0 <= a < b < i + 1 && ties(keys, descending, #[trigger] course_at(cs, idx2, a), #[trigger] course_at(cs, idx2, b)) implies p2[a] < p2[b] by {
        lemma_moved_index(idx, i, j, a);
        lemma_moved_index(idx, i, j, b);
        lemma_moved_index(p, i, j, a);
        lemma_moved_index(p, i, j, b);
        if a < j && b == j {
        } else if a < j && b > j {
            assert(course_at(cs, idx2, a) == course_at(cs, idx, a));
            assert(course_at(cs, idx2, b) == course_at(cs, idx, b - 1));
        } else if a == j {
        } else if a > j {
            assert(course_at(cs, idx2, a) == course_at(cs, idx, a - 1));
            assert(course_at(cs, idx2, b) == course_at(cs, idx, b - 1));
        } else {
            assert(course_at(cs, idx2, a) == course_at(cs, idx, a));
            assert(course_at(cs, idx2, b) == course_at(cs, idx, b));
        }
    }
}

/// Sorts the positions `idx` of courses in `cs` stably by `keys`, descending
/// when `descending`.
pub fn sort_positions(cs: &Vec<Course>, idx: &mut Vec<usize>, keys: &[Column], descending: bool)
    requires
        positions_in(cs@, old(idx)@),
    ensures
        is_stable_sort_of(cs@, final(idx)@, old(idx)@, keys@, descending),
        positions_in(cs@, final(idx)@),
{
    let n = idx.len();
    let ghost orig = idx@;
    let ghost mut p: Seq<int> = Seq::new(n as nat, |k: int| k);
    let mut i: usize = 0;
    while i < n
        invariant
            n == idx@.len(),
            orig.len() == n,
            i <= n,
            p.len() == n,
            positions_in(cs@, idx@),
            forall|k: int| 0 <= k < n ==> #[trigger] idx@[k] == orig[p[k]],
            forall|k: int| 0 <= k < n ==> 0 <= #[trigger] p[k] < n,
            forall|k: int| i <= k < n ==> #[trigger] p[k] == k,
            forall|k: int| 0 <= k < i ==> #[trigger] p[k] < i,
            forall|a: int, b: int| 0 <= a < b < n ==> #[trigger] p[a] != #[trigger] p[b],
            prefix_sorted(cs@, idx@, p, i as int, keys@, descending),
        decreases n - i,
    {
        let x = idx[i];
        let mut j: usize = 0;
        while j < i
            invariant
                i < n == idx@.len(),
                j <= i,
                x == idx@[i as int],
                positions_in(cs@, idx@),
                forall|k: int| 0 <= k < j ==> not_after(keys@, descending, #[trigger] course_at(cs@, idx@, k), course_at(cs@, idx@, i as int)),
            ensures
                j <= i,
                forall|k: int| 0 <= k < j ==> not_after(keys@, descending, #[trigger] course_at(cs@, idx@, k), course_at(cs@, idx@, i as int)),
                j < i ==> !not_after(keys@, descending, course_at(cs@, idx@, j as int), course_at(cs@, idx@, i as int)),
            decreases i - j,
        {
            if comes_after(keys, descending, &cs[idx[j]], &cs[x]) {
                break;
            }
            j = j + 1;
        }
        proof {
            lemma_insert_step(cs@, idx@, orig, p, i as int, j as int, keys@, descending);
        }
        let ghost before = idx@;
        idx.remove(i);
        idx.insert(j, x);
        proof {
            assert(idx@ =~= moved(before, i as int, j as int));
            p = moved(p, i as int, j as int);
        }
        i = i + 1;
    }
    proof {
        assert(is_stable_rearrangement(cs@, idx@, orig, p, keys@, descending));
    }
}

/// The positions `0..n` in order.
pub open spec fn all_positions(n: nat) -> Seq<usize> {
    Seq::new(n, |k: int| k as usize)
}

/// The courses of `cs` at the positions `idx`, in that order.
pub open spec fn arranged(cs: Seq<Course>, idx: Seq<usize>) -> Seq<Course> {
    idx.map_values(|i: usize| cs[i as int])
}

/// Whether `new` holds the courses of `old` sorted stably by `keys`,
/// descending when `descending`.
pub open spec fn is_sorted_stably(new: Seq<Course>, old: Seq<Course>, keys: Seq<Column>, descending: bool) -> bool {
    exists|idx: Seq<usize>|
        is_stable_sort_of(old, idx, all_positions(old.len()), keys, descending) && new == #[trigger] arranged(old, idx)
}

/// Sorts the courses `cs` stably by `keys`, descending when `descending`.
pub fn sort_courses(cs: &mut Vec<Course>, keys: &[Column], descending: bool)
    ensures
        is_sorted_stably(final(cs)@, old(cs)@, keys@, descending),
{
    let n = cs.len();
    let mut idx: Vec<usize> = Vec::new();
    let mut i: usize = 0;
    while i < n
        invariant
            n == cs@.len(),
            i <= n,
            idx@ == all_positions(i as nat),
        decreases n - i,
    {
        idx.push(i);
        i = i + 1;
        proof {
            assert(idx@ =~= all_positions(i as nat));
        }
    }
    sort_positions(cs, &mut idx, keys, descending);
    let ghost order = idx@;
    let ghost p = choose|p: Seq<int>| is_stable_rearrangement(cs@, order, all_positions(n as nat), p, keys@, descending);
    assert forall|a: int, b: int| 0 <= a < b < n implies #[trigger] order[a] != #[trigger] order[b] by {
        assert(order[a] == all_positions(n as nat)[p[a]]);
        assert(order[b] == all_positions(n as nat)[p[b]]);
    }
    let mut src: Vec<Course> = Vec::new();
    std::mem::swap(cs, &mut src);
    let ghost orig = src@;
    let mut slots: Vec<Option<Course>> = Vec::new();
    while src.len() > 0
        invariant
            orig.len() == n,
            slots@.len() + src@.len() == n,
            forall|j: int| 0 <= j < slots@.len() ==> #[trigger] slots@[j] == Some(orig[j]),
            forall|j: int| 0 <= j < src@.len() ==> #[trigger] src@[j] == orig[slots@.len() + j],
        decreases src@.len(),
    {
        let c = src.remove(0);
        slots.push(Some(c));
    }
    let mut out: Vec<Course> = Vec::new();
    let mut k: usize = 0;
    while k < n
        invariant
            k <= n,
            orig.len() == n,
            slots@.len() == n,
            order.len() == n,
            idx@ == order,
            forall|a: int| 0 <= a < n ==> #[trigger] order[a] < n,
            forall|a: int, b: int| 0 <= a < b < n ==> #[trigger] order[a] != #[trigger] order[b],
            forall|j: int| 0 <= j < n ==>
                #[trigger] slots@[j] == if (exists|t: int| 0 <= t < k && order[t] == j) { None } else { Some(orig[j]) },
            out@ == arranged(orig, order.subrange(0, k as int)),
        decreases n - k,
    {
        let at = idx[k];
        assert(slots@[at as int] == Some(orig[at as int])) by {
            if exists|t: int| 0 <= t < k && order[t] == at {
                let t = choose|t: int| 0 <= t < k && order[t] == at;
                assert(order[t] != order[k as int]);
            }
        }
        let taken = slots[at].take();
        match taken {
            Some(c) => {
                out.push(c);
            },
            None => {},
        }
        k = k + 1;
        proof {
            assert forall|j: int| 0 <= j < n implies
                #[trigger] slots@[j] == if (exists|t: int| 0 <= t < k && order[t] == j) { None } else { Some(orig[j]) } by {
                if j == at {
                    assert(order[k - 1] == j);
                } else {
                    if exists|t: int| 0 <= t < k && order[t] == j {
                        let t = choose|t: int| 0 <= t < k && order[t] == j;
                        assert(t != k - 1);
                    }
                }
            }
            assert(out@ =~= arranged(orig, order.subrange(0, k as int)));
        }
    }
    proof {
        assert(order.subrange(0, n as int) =~= order);
    }
    *cs = out;
}

/// The elements of `old` taken in the order the positions `p` give.
pub open spec fn permuted<T>(old: Seq<T>, p: Seq<int>) -> Seq<T> {
    p.map_values(|k: int| old[k])
}

/// `p` without its last position, the positions above `m` moved down by one.
pub open spec fn close_gap(p: Seq<int>, m: int) -> Seq<int> {
    p.drop_last().map_values(|k: int| if k > m { k - 1 } else { k })
}

/// Taking the elements of a sequence in the order of a permutation keeps
/// the same elements, each as often.
pub proof fn lemma_permuted_multiset<T>(old: Seq<T>, p: Seq<int>)
    requires
        is_permutation(p, old.len() as int),
    ensures
        permuted(old, p).to_multiset() =~= old.to_multiset(),
    decreases old.len(),
{
    broadcast use vstd::seq_lib::group_to_multiset_ensures;
    let n = old.len() as int;
    if n > 0 {
        let m = p[n - 1];
        let rest = old.remove(m);
        let q = close_gap(p, m);
        assert forall|k: int| 0 <= k < n - 1 implies 0 <= #[trigger] q[k] < n - 1 by {
            assert(p[k] != p[n - 1]);
        }
        assert forall|a: int, b: int| 0 <= a < b < n - 1 implies #[trigger] q[a] != #[trigger] q[b] by {
            assert(p[a] != p[b]);
            assert(p[a] != p[n - 1]);
            assert(p[b] != p[n - 1]);
        }
        lemma_permuted_multiset(rest, q);
        assert(permuted(old, p) =~= permuted(rest, q).push(old[m])) by {
            assert forall|k: int| 0 <= k < n - 1 implies #[trigger] permuted(rest, q)[k] == old[p[k]] by {
                assert(p[k] != p[n - 1]);
            }
        }
        assert(old.to_multiset().remove(old[m]).insert(old[m]) =~= old.to_multiset()) by {
            broadcast use vstd::multiset::group_multiset_axioms;
            assert(old.to_multiset().count(old[m]) > 0) by {
                assert(old.contains(old[m]));
            }
        }
    }
}

/// Sorting keeps the same courses, each as often.
pub proof fn law_sort_keeps_courses(new: Seq<Course>, old: Seq<Course>, keys: Seq<Column>, descending: bool)
    requires
        old.len() <= usize::MAX,
        is_sorted_stably(new, old, keys, descending),
    ensures
        new.to_multiset() =~= old.to_multiset(),
{
    let idx = choose|idx: Seq<usize>|
        is_stable_sort_of(old, idx, all_positions(old.len()), keys, descending) && new == #[trigger] arranged(old, idx);
    let p = choose|p: Seq<int>| is_stable_rearrangement(old, idx, all_positions(old.len()), p, keys, descending);
    lemma_permuted_multiset(old, p);
    assert(new == arranged(old, idx));
    assert(idx.len() == old.len());
    assert forall|k: int| 0 <= k < new.len() implies #[trigger] new[k] == permuted(old, p)[k] by {
        assert(new[k] == old[idx[k] as int]);
        assert(0 <= p[k] < old.len());
        assert(idx[k] == all_positions(old.len())[p[k]]);
        assert(idx[k] as int == p[k]);
    }
    assert(new =~= permuted(old, p));
}

/// Sorting puts the courses in the sort order.
pub proof fn law_sort_orders_courses(new: Seq<Course>, old: Seq<Course>, keys: Seq<Column>, descending: bool)
    requires
        is_sorted_stably(new, old, keys, descending),
    ensures
        new.len() == old.len(),
        forall|a: int, b: int| 0 <= a < b < new.len() ==> not_after(keys, descending, #[trigger] new[a], #[trigger] new[b]),
{
    let idx = choose|idx: Seq<usize>|
        is_stable_sort_of(old, idx, all_positions(old.len()), keys, descending) && new == #[trigger] arranged(old, idx);
    assert forall|a: int, b: int| 0 <= a < b < new.len() implies not_after(keys, descending, #[trigger] new[a], #[trigger] new[b]) by {
        assert(new[a] == course_at(old, idx, a));
        assert(new[b] == course_at(old, idx, b));
    }
}

/// Every position `0..n` is taken by a permutation of `0..n`.
pub proof fn lemma_permutation_onto(p: Seq<int>, n: int, j: int)
    requires
        is_permutation(p, n),
        0 <= j < n,
    ensures
        exists|k: int| 0 <= k < n && p[k] == j,
{
    broadcast use vstd::set::group_set_axioms;
    broadcast use vstd::seq_lib::seq_to_set_is_finite;
    assert(p.no_duplicates()) by {
        assert forall|a: int, b: int| 0 <= a < p.len() && 0 <= b < p.len() && a != b implies p[a] != p[b] by {
            if a < b {
                assert(p[a] != p[b]);
            } else {
                assert(p[b] != p[a]);
            }
        }
    }
    p.unique_seq_to_set();
    vstd::set_lib::lemma_int_range(0, n);
    let range = vstd::set_lib::set_int_range(0, n);
    assert(p.to_set().subset_of(range)) by {
        assert forall|x: int| p.to_set().contains(x) implies range.contains(x) by {
            assert(p.contains(x));
            let k = choose|k: int| 0 <= k < p.len() && p[k] == x;
            assert(0 <= p[k] < n);
        }
    }
    vstd::set_lib::lemma_subset_equality(p.to_set(), range);
    assert(range.contains(j));
    assert(p.to_set().contains(j));
    assert(p.contains(j));
}

/// A stable sort has one result: two stable sorts of the same distinct
/// positions by the same columns agree.
pub proof fn law_stable_sort_unique(
    cs: Seq<Course>,
    a: Seq<usize>,
    b: Seq<usize>,
    old: Seq<usize>,
    keys: Seq<Column>,
    descending: bool,
)
    requires
        forall|i: int, j: int| 0 <= i < j < old.len() ==> old[i] != old[j],
        is_stable_sort_of(cs, a, old, keys, descending),
        is_stable_sort_of(cs, b, old, keys, descending),
    ensures
        a == b,
{
    let n = old.len() as int;
    let pa = choose|p: Seq<int>| is_stable_rearrangement(cs, a, old, p, keys, descending);
    let pb = choose|p: Seq<int>| is_stable_rearrangement(cs, b, old, p, keys, descending);
    lemma_same_rearrangement(cs, a, b, old, pa, pb, keys, descending, n);
    assert forall|k: int| 0 <= k < n implies #[trigger] a[k] == b[k] by {
        assert(a[k] == old[pa[k]]);
        assert(b[k] == old[pb[k]]);
    }
    assert(a =~= b);
}

/// The two stable rearrangements `pa` and `pb` agree on their first `m` positions.
proof fn lemma_same_rearrangement(
    cs: Seq<Course>,
    a: Seq<usize>,
    b: Seq<usize>,
    old: Seq<usize>,
    pa: Seq<int>,
    pb: Seq<int>,
    keys: Seq<Column>,
    descending: bool,
    m: int,
)
    requires
        0 <= m <= old.len(),
        forall|i: int, j: int| 0 <= i < j < old.len() ==> old[i] != old[j],
        is_sorted_by(cs, a, keys, descending),
        is_sorted_by(cs, b, keys, descending),
        is_stable_rearrangement(cs, a, old, pa, keys, descending),
        is_stable_rearrangement(cs, b, old, pb, keys, descending),
    ensures
        forall|k: int| 0 <= k < m ==> #[trigger] pa[k] == pb[k],
    decreases m,
{
    if m > 0 {
        let k = m - 1;
        lemma_same_rearrangement(cs, a, b, old, pa, pb, keys, descending, k);
        let n = old.len() as int;
        let p = pa[k];
        let q = pb[k];
        if p != q {
            lemma_permutation_onto(pb, n, p);
            let mb = choose|i: int| 0 <= i < n && pb[i] == p;
            lemma_permutation_onto(pa, n, q);
            let ma = choose|i: int| 0 <= i < n && pa[i] == q;
            if mb < k {
                assert(pa[mb] == pb[mb]);
                assert(pa[mb] != pa[k]);
            }
            if ma < k {
                assert(pa[ma] == pb[ma]);
                assert(pb[ma] != pb[k]);
            }
            assert(mb > k && ma > k);
            let x = cs[old[p] as int];
            let y = cs[old[q] as int];
            assert(course_at(cs, a, k) == x);
            assert(course_at(cs, a, ma) == y);
            assert(course_at(cs, b, k) == y);
            assert(course_at(cs, b, mb) == x);
            assert(not_after(keys, descending, x, y));
            assert(not_after(keys, descending, y, x));
            lemma_not_after_total(keys, descending, x, y);
            assert(ties(keys, descending, course_at(cs, a, k), course_at(cs, a, ma)));
            assert(ties(keys, descending, course_at(cs, b, k), course_at(cs, b, mb)));
            assert(p < q);
            assert(q < p);
        }
    }
}

/// A stable sort of positions keeps the same positions, each as often.
pub proof fn law_sorted_positions_kept(cs: Seq<Course>, new: Seq<usize>, old: Seq<usize>, keys: Seq<Column>, descending: bool)
    requires
        is_stable_sort_of(cs, new, old, keys, descending),
    ensures
        new.to_multiset() =~= old.to_multiset(),
{
    let p = choose|p: Seq<int>| is_stable_rearrangement(cs, new, old, p, keys, descending);
    lemma_permuted_multiset(old, p);
    assert(new =~= permuted(old, p));
}

} // verus!
