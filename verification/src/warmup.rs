//! Three small exercises on vectors of numbers.

use std::collections::HashSet;
use vstd::prelude::*;

verus! {

broadcast use vstd::std_specs::hash::group_hash_axioms;

/// Whether `n` can be added to every item without leaving the range of `i32`.
pub open spec fn can_add(v: Seq<i32>, n: i32) -> bool {
    forall|i: int| 0 <= i < v.len() ==> i32::MIN <= #[trigger] v[i] + n <= i32::MAX
}

/// The items of `v`, each with `n` added.
pub open spec fn each_plus(v: Seq<i32>, n: i32) -> Seq<i32> {
    Seq::new(v.len(), |i: int| (v[i] + n) as i32)
}

/// The items of `s` without those that occurred before: of equal items the
/// first stays, and what stays keeps its order.
pub open spec fn first_occurrences(s: Seq<i32>) -> Seq<i32>
    decreases s.len(),
{
    if s.len() == 0 {
        Seq::empty()
    } else if s.drop_last().contains(s.last()) {
        first_occurrences(s.drop_last())
    } else {
        first_occurrences(s.drop_last()).push(s.last())
    }
}

/// A new vector with `n` added to every item of `v`.
pub fn add_n(v: Vec<i32>, n: i32) -> (sums: Vec<i32>)
    requires
        can_add(v@, n),
    ensures
        sums@ == each_plus(v@, n),
{
    let mut new_vec: Vec<i32> = Vec::new();
    let mut k: usize = 0;
    while k < v.len()
        invariant
            k <= v.len(),
            can_add(v@, n),
            new_vec@.len() == k,
            forall|i: int| 0 <= i < k ==> new_vec@[i] == v@[i] + n,
        decreases v.len() - k,
    {
        new_vec.push(v[k] + n);
        k += 1;
    }
    assert(new_vec@ =~= each_plus(v@, n));
    new_vec
}

/// Adds `n` to every item of `v`, in place.
pub fn add_n_inplace(v: &mut Vec<i32>, n: i32)
    requires
        can_add(old(v)@, n),
    ensures
        final(v)@ == each_plus(old(v)@, n),
{
    let ghost before = v@;
    let mut k: usize = 0;
    while k < v.len()
        invariant
            k <= v.len(),
            v@.len() == before.len(),
            can_add(before, n),
            forall|i: int| 0 <= i < k ==> v@[i] == before[i] + n,
            forall|i: int| k <= i < v@.len() ==> v@[i] == before[i],
        decreases v.len() - k,
    {
        assert(i32::MIN <= before[k as int] + n <= i32::MAX);
        let sum: i32 = v[k] + n;
        v.set(k, sum);
        k += 1;
    }
    assert(v@ =~= each_plus(before, n));
}

/// Removes from `v` every item that occurred earlier in it.
pub fn dedup(v: &mut Vec<i32>)
    ensures
        final(v)@ == first_occurrences(old(v)@),
{
    let mut elem_set: HashSet<i32> = HashSet::new();
    let mut kept: Vec<i32> = Vec::new();
    let mut k: usize = 0;
    assert(v@.take(0) =~= Seq::<i32>::empty());
    while k < v.len()
        invariant
            k <= v.len(),
            elem_set@ == v@.take(k as int).to_set(),
            kept@ == first_occurrences(v@.take(k as int)),
        decreases v.len() - k,
    {
        let elem: i32 = v[k];
        let ghost seen = v@.take(k as int);
        let ghost longer = v@.take(k + 1);
        assert(longer.drop_last() =~= seen);
        assert(longer.last() == elem);
        assert(seen.contains(elem) <==> seen.to_set().contains(elem));
        if elem_set.insert(elem) {
            kept.push(elem);
        }
        assert(elem_set@ =~= longer.to_set()) by {
            assert forall|x: i32| longer.to_set().contains(x) <==> (seen.to_set().contains(x) || x
                == elem) by {
                if longer.contains(x) {
                    let i = choose|i: int| 0 <= i < longer.len() && longer[i] == x;
                    if i < k {
                        assert(seen[i] == x);
                    }
                }
                if seen.contains(x) {
                    let i = choose|i: int| 0 <= i < seen.len() && seen[i] == x;
                    assert(longer[i] == x);
                }
                if x == elem {
                    assert(longer[k as int] == x);
                }
            }
        }
        k += 1;
    }
    assert(v@.take(k as int) =~= v@);
    *v = kept;
}

/// What [`dedup`] leaves holds no item twice, and holds exactly the items
/// that were there.
pub proof fn lemma_first_occurrences(s: Seq<i32>)
    ensures
        first_occurrences(s).no_duplicates(),
        first_occurrences(s).to_set() == s.to_set(),
        first_occurrences(s).len() <= s.len(),
    decreases s.len(),
{
    if s.len() == 0 {
        assert(first_occurrences(s).to_set() =~= s.to_set());
    } else {
        let shorter = s.drop_last();
        let last = s.last();
        lemma_first_occurrences(shorter);
        let kept = first_occurrences(shorter);
        assert forall|x: i32| s.to_set().contains(x) <==> (shorter.to_set().contains(x) || x
            == last) by {
            if s.contains(x) {
                let i = choose|i: int| 0 <= i < s.len() && s[i] == x;
                if i < shorter.len() {
                    assert(shorter[i] == x);
                }
            }
            if shorter.contains(x) {
                let i = choose|i: int| 0 <= i < shorter.len() && shorter[i] == x;
                assert(s[i] == x);
            }
            if x == last {
                assert(s[s.len() - 1] == x);
            }
        }
        if shorter.contains(last) {
            assert(first_occurrences(s).to_set() =~= s.to_set());
        } else {
            assert(!kept.to_set().contains(last));
            assert(!kept.contains(last));
            let longer = kept.push(last);
            assert forall|x: i32| longer.to_set().contains(x) <==> (kept.to_set().contains(x) || x
                == last) by {
                if longer.contains(x) {
                    let i = choose|i: int| 0 <= i < longer.len() && longer[i] == x;
                    if i < kept.len() {
                        assert(kept[i] == x);
                    }
                }
                if kept.contains(x) {
                    let i = choose|i: int| 0 <= i < kept.len() && kept[i] == x;
                    assert(longer[i] == x);
                }
                if x == last {
                    assert(longer[kept.len() as int] == x);
                }
            }
            assert(longer.to_set() =~= s.to_set());
            assert forall|i: int, j: int| 0 <= i < longer.len() && 0 <= j < longer.len() && i
                != j implies longer[i] != longer[j] by {
                if i < kept.len() && j < kept.len() {
                } else if i < kept.len() {
                    assert(kept[i] == longer[i]);
                } else if j < kept.len() {
                    assert(kept[j] == longer[j]);
                }
            }
        }
    }
}

} // verus!
