//! Small exercises on vectors of integers.

use std::collections::HashSet;
use vstd::prelude::*;

verus! {

/// The values of `s` in the order in which each is first met.
pub open spec fn first_occurrences(s: Seq<i32>) -> Seq<i32>
    decreases s.len(),
{
    if s.len() == 0 {
        Seq::empty()
    } else {
        let earlier = first_occurrences(s.drop_last());
        if s.drop_last().contains(s.last()) {
            earlier
        } else {
            earlier.push(s.last())
        }
    }
}

/// Returns a vector that holds each value of `v` increased by `n`.
pub fn add_n(v: Vec<i32>, n: i32) -> (sums: Vec<i32>)
    requires
        forall|i: int| 0 <= i < v@.len() ==> i32::MIN <= #[trigger] v@[i] + n <= i32::MAX,
    ensures
        sums@.len() == v@.len(),
        forall|i: int| 0 <= i < v@.len() ==> #[trigger] sums@[i] == v@[i] + n,
{
    let mut sums: Vec<i32> = Vec::new();
    let mut i: usize = 0;
    while i < v.len()
        invariant
            i <= v@.len(),
            sums@.len() == i,
            forall|k: int| 0 <= k < v@.len() ==> i32::MIN <= #[trigger] v@[k] + n <= i32::MAX,
            forall|k: int| 0 <= k < i ==> #[trigger] sums@[k] == v@[k] + n,
        decreases v@.len() - i,
    {
        sums.push(v[i] + n);
        i += 1;
    }
    sums
}

/// Increases each value of `v` by `n`, in place.
pub fn add_n_inplace(v: &mut Vec<i32>, n: i32)
    requires
        forall|i: int| 0 <= i < old(v)@.len() ==> i32::MIN <= #[trigger] old(v)@[i] + n <= i32::MAX,
    ensures
        final(v)@.len() == old(v)@.len(),
        forall|i: int| 0 <= i < old(v)@.len() ==> #[trigger] final(v)@[i] == old(v)@[i] + n,
{
    let mut i: usize = 0;
    while i < v.len()
        invariant
            i <= v@.len(),
            v@.len() == old(v)@.len(),
            forall|k: int|
                0 <= k < old(v)@.len() ==> i32::MIN <= #[trigger] old(v)@[k] + n <= i32::MAX,
            forall|k: int| 0 <= k < i ==> #[trigger] v@[k] == old(v)@[k] + n,
            forall|k: int| i <= k < v@.len() ==> #[trigger] v@[k] == old(v)@[k],
        decreases v@.len() - i,
    {
        let sum: i32 = v[i] + n;
        v.set(i, sum);
        i += 1;
    }
}

/// Removes every value of `v` that already occurs earlier in it, and keeps
/// the first occurrences in their order.
pub fn dedup(v: &mut Vec<i32>)
    ensures
        final(v)@ == first_occurrences(old(v)@),
{
    broadcast use vstd::std_specs::hash::group_hash_axioms;

    let ghost orig = v@;
    let ghost mut done: int = 0;
    let mut seen: HashSet<i32> = HashSet::new();
    let mut i: usize = 0;
    assert(orig.take(0) =~= Seq::<i32>::empty());
    assert(orig.skip(0) =~= orig);
    while i < v.len()
        invariant
            0 <= done <= orig.len(),
            i == first_occurrences(orig.take(done)).len(),
            v@ == first_occurrences(orig.take(done)) + orig.skip(done),
            forall|x: i32| seen@.contains(x) <==> orig.take(done).contains(x),
        decreases orig.len() - done,
    {
        let num: i32 = v[i];
        let ghost before = orig.take(done);
        let ghost after = orig.take(done + 1);
        assert(num == orig[done]);
        assert(after.drop_last() =~= before);
        assert(after.last() == num);
        if seen.contains(&num) {
            v.remove(i);
            assert(v@ =~= first_occurrences(after) + orig.skip(done + 1));
        } else {
            seen.insert(num);
            i += 1;
            assert(v@ =~= first_occurrences(after) + orig.skip(done + 1));
        }
        assert forall|x: i32| seen@.contains(x) <==> after.contains(x) by {
            if after.contains(x) {
                let k = choose|k: int| 0 <= k < after.len() && after[k] == x;
                if k < done {
                    assert(before[k] == x);
                }
            }
            if before.contains(x) {
                let k = choose|k: int| 0 <= k < before.len() && before[k] == x;
                assert(after[k] == x);
            }
            if x == num {
                assert(after[done] == x);
            }
        }
        proof {
            done = done + 1;
        }
    }
    assert(orig.take(done) =~= orig);
    assert(v@ =~= first_occurrences(orig));
}

/// The result of removing repeats holds no value twice, and holds exactly
/// the values of the input.
pub proof fn law_first_occurrences(s: Seq<i32>)
    ensures
        first_occurrences(s).no_duplicates(),
        forall|x: i32| first_occurrences(s).contains(x) <==> s.contains(x),
    decreases s.len(),
{
    if s.len() > 0 {
        let init = s.drop_last();
        law_first_occurrences(init);
        let earlier = first_occurrences(init);
        let whole = first_occurrences(s);
        assert forall|x: i32| whole.contains(x) <==> s.contains(x) by {
            if s.contains(x) {
                let k = choose|k: int| 0 <= k < s.len() && s[k] == x;
                if k < init.len() {
                    assert(init[k] == x);
                    assert(init.contains(x));
                    assert(earlier.contains(x));
                    let j = choose|j: int| 0 <= j < earlier.len() && earlier[j] == x;
                    assert(whole[j] == x);
                } else if init.contains(x) {
                    assert(earlier.contains(x));
                } else {
                    assert(whole[earlier.len() as int] == x);
                }
            }
            if whole.contains(x) {
                let j = choose|j: int| 0 <= j < whole.len() && whole[j] == x;
                if j < earlier.len() {
                    assert(earlier[j] == x);
                    assert(earlier.contains(x));
                    assert(init.contains(x));
                    let k = choose|k: int| 0 <= k < init.len() && init[k] == x;
                    assert(s[k] == x);
                } else {
                    assert(s[s.len() - 1] == x);
                }
            }
        }
        if !init.contains(s.last()) {
            assert(!earlier.contains(s.last()));
            assert forall|a: int, b: int| 0 <= a < whole.len() && 0 <= b < whole.len() && a != b
                implies whole[a] != whole[b] by {
                if a < earlier.len() && b < earlier.len() {
                    assert(earlier[a] != earlier[b]);
                } else if a < earlier.len() {
                    assert(earlier.contains(earlier[a]));
                } else {
                    assert(earlier.contains(earlier[b]));
                }
            }
        }
    }
}

} // verus!
