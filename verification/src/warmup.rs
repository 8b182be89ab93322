//! Small routines on vectors of numbers.

use std::collections::HashSet;
use vstd::prelude::*;
use vstd::std_specs::hash::*;

verus! {

/// The elements of `s` in order, each at its first occurrence only.
pub open spec fn first_occurrences(s: Seq<i32>) -> Seq<i32>
    decreases s.len(),
{
    if s.len() == 0 {
        Seq::empty()
    } else if s.drop_last().contains(s.last()) {
        first_occurrences(s.drop_last())
    } else {
        first_occurrences(s.drop_last()).push(s.last())
    }
}

/// `s` with `n` added to each element.
pub open spec fn each_plus(s: Seq<i32>, n: i32) -> Seq<int> {
    Seq::new(s.len(), |i: int| s[i] + n)
}

/// Every sum of an element of `s` and `n` is an `i32`.
pub open spec fn sums_fit(s: Seq<i32>, n: i32) -> bool {
    forall|i: int| 0 <= i < s.len() ==> i32::MIN <= #[trigger] s[i] + n <= i32::MAX
}

/// A new vector that holds each element of `v` with `n` added to it.
pub fn add_n(v: Vec<i32>, n: i32) -> (sums: Vec<i32>)
    requires
        sums_fit(v@, n),
    ensures
        sums@.len() == v@.len(),
        forall|i: int| 0 <= i < v@.len() ==> #[trigger] sums@[i] == v@[i] + n,
{
    let mut sums: Vec<i32> = Vec::new();
    let mut i: usize = 0;
    while i < v.len()
        invariant
            i <= v@.len(),
            sums_fit(v@, n),
            sums@.len() == i,
            forall|j: int| 0 <= j < i ==> #[trigger] sums@[j] == v@[j] + n,
        decreases v.len() - i,
    {
        assert(i32::MIN <= v@[i as int] + n <= i32::MAX);
        sums.push(v[i] + n);
        i += 1;
    }
    sums
}

/// Adds `n` to each element of `v`.
pub fn add_n_inplace(v: &mut Vec<i32>, n: i32)
    requires
        sums_fit(old(v)@, n),
    ensures
        final(v)@.len() == old(v)@.len(),
        forall|i: int| 0 <= i < old(v)@.len() ==> #[trigger] final(v)@[i] == old(v)@[i] + n,
{
    let ghost before = v@;
    let mut i: usize = 0;
    while i < v.len()
        invariant
            i <= v@.len(),
            v@.len() == before.len(),
            sums_fit(before, n),
            forall|j: int| 0 <= j < i ==> #[trigger] v@[j] == before[j] + n,
            forall|j: int| i <= j < v@.len() ==> #[trigger] v@[j] == before[j],
        decreases v.len() - i,
    {
        assert(i32::MIN <= before[i as int] + n <= i32::MAX);
        let sum = v[i] + n;
        v.set(i, sum);
        i += 1;
    }
}

/// Removes from `v` every element that has occurred before in it, and keeps
/// the others in their order.
pub fn dedup(v: &mut Vec<i32>)
    ensures
        final(v)@ == first_occurrences(old(v)@),
{
    broadcast use group_hash_axioms;

    let ghost before = v@;
    let mut seen: HashSet<i32> = HashSet::new();
    let mut kept: Vec<i32> = Vec::new();
    let mut i: usize = 0;
    while i < v.len()
        invariant
            i <= v@.len(),
            v@ == before,
            kept@ == first_occurrences(before.take(i as int)),
            forall|x: i32| seen@.contains(x) <==> before.take(i as int).contains(x),
        decreases v.len() - i,
    {
        let x = v[i];
        let ghost head = before.take(i as int);
        let ghost longer = before.take(i + 1);
        assert(longer.drop_last() =~= head);
        assert(longer.last() == x);
        if !seen.contains(&x) {
            seen.insert(x);
            kept.push(x);
        }
        assert forall|y: i32| seen@.contains(y) <==> longer.contains(y) by {
            if longer.contains(y) {
                let k = choose|k: int| 0 <= k < longer.len() && longer[k] == y;
                if k < head.len() {
                    assert(head[k] == y);
                }
            }
            if head.contains(y) {
                let k = choose|k: int| 0 <= k < head.len() && head[k] == y;
                assert(longer[k] == y);
            }
            assert(longer[i as int] == x);
        }
        i += 1;
    }
    assert(before.take(i as int) =~= before);
    *v = kept;
}

/// What `dedup` leaves holds exactly the elements of what it was given.
pub proof fn lemma_first_occurrences_same_elements(s: Seq<i32>, x: i32)
    ensures
        first_occurrences(s).contains(x) <==> s.contains(x),
    decreases s.len(),
{
    if s.len() > 0 {
        let head = s.drop_last();
        lemma_first_occurrences_same_elements(head, x);
        let kept = first_occurrences(head);
        if s.contains(x) {
            let k = choose|k: int| 0 <= k < s.len() && s[k] == x;
            if k < head.len() {
                assert(head[k] == x);
            }
        }
        if head.contains(x) {
            let k = choose|k: int| 0 <= k < head.len() && head[k] == x;
            assert(s[k] == x);
        }
        if head.contains(s.last()) {
        } else {
            let all = kept.push(s.last());
            assert(all[kept.len() as int] == s.last());
            if kept.contains(x) {
                let k = choose|k: int| 0 <= k < kept.len() && kept[k] == x;
                assert(all[k] == x);
            }
            if all.contains(x) {
                let k = choose|k: int| 0 <= k < all.len() && all[k] == x;
                if k < kept.len() {
                    assert(kept[k] == x);
                }
            }
        }
        assert(s[s.len() - 1] == s.last());
    }
}

/// What `dedup` leaves holds no element twice.
pub proof fn lemma_first_occurrences_no_duplicates(s: Seq<i32>)
    ensures
        first_occurrences(s).no_duplicates(),
    decreases s.len(),
{
    if s.len() > 0 {
        let head = s.drop_last();
        lemma_first_occurrences_no_duplicates(head);
        lemma_first_occurrences_same_elements(head, s.last());
        if !head.contains(s.last()) {
            let kept = first_occurrences(head);
            let all = kept.push(s.last());
            assert forall|i: int, j: int|
                0 <= i < all.len() && 0 <= j < all.len() && i != j implies all[i] != all[j] by {
                if i < kept.len() && j < kept.len() {
                } else if i < kept.len() {
                    assert(kept.contains(kept[i]));
                } else if j < kept.len() {
                    assert(kept.contains(kept[j]));
                }
            }
        }
    }
}

/// `dedup` changes nothing in a vector that holds no element twice.
pub proof fn lemma_first_occurrences_fixes_distinct(s: Seq<i32>)
    requires
        s.no_duplicates(),
    ensures
        first_occurrences(s) == s,
    decreases s.len(),
{
    if s.len() > 0 {
        let head = s.drop_last();
        lemma_first_occurrences_fixes_distinct(head);
        if head.contains(s.last()) {
            let k = choose|k: int| 0 <= k < head.len() && head[k] == s.last();
            assert(s[k] == s[s.len() - 1]);
        }
        assert(head.push(s.last()) =~= s);
    }
}

} // verus!
