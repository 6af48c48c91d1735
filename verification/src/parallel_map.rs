//! Mapping a function over a vector piece by piece, so that the pieces can
//! be worked on in any order and by several workers.
//!
//! The input is cut into jobs, each an item with its position; a result
//! comes back with the position of its job; and the results are put
//! together by position, whatever order they came back in.

use vstd::prelude::*;

verus! {

/// Whether `jobs` holds the items of `input` from the last to the first,
/// each with its position in `input`.
pub open spec fn jobs_of<T>(input: Seq<T>, jobs: Seq<(T, usize)>) -> bool {
    &&& jobs.len() == input.len()
    &&& forall|k: int|
        0 <= k < jobs.len() ==> #[trigger] jobs[k] == (
            input[input.len() - 1 - k],
            (input.len() - 1 - k) as usize,
        )
}

/// Whether `results` holds exactly one result for each position below
/// `len`.
pub open spec fn covers_once<U>(len: nat, results: Seq<(U, usize)>) -> bool {
    &&& results.len() == len
    &&& forall|k: int| 0 <= k < results.len() ==> (#[trigger] results[k]).1 < len
    &&& forall|j: int, k: int| 0 <= j < k < results.len() ==> results[j].1 != results[k].1
}

/// Cuts the input into jobs, last item first.
pub fn enumerate_jobs<T>(input_vec: Vec<T>) -> (jobs: Vec<(T, usize)>)
    ensures
        jobs_of(input_vec@, jobs@),
{
    let mut input = input_vec;
    let mut jobs: Vec<(T, usize)> = Vec::new();
    let ghost all = input@;
    let mut i: usize = input.len();
    while i > 0
        invariant
            i == input@.len(),
            i <= all.len(),
            input@ == all.take(i as int),
            jobs@.len() == all.len() - i,
            forall|k: int|
                0 <= k < jobs@.len() ==> #[trigger] jobs@[k] == (
                    all[all.len() - 1 - k],
                    (all.len() - 1 - k) as usize,
                ),
        decreases i,
    {
        let item = input.pop().unwrap();
        i -= 1;
        assert(item == all[i as int]);
        jobs.push((item, i));
        assert(input@ =~= all.take(i as int));
    }
    jobs
}

/// Puts results together by position. Returns the results in the order of
/// their positions if there is exactly one for each position below `len`,
/// and `None` otherwise.
pub fn place_results<U>(len: usize, results: Vec<(U, usize)>) -> (output: Option<Vec<U>>)
    ensures
        output is Some <==> covers_once(len as nat, results@),
        output matches Some(placed) ==> {
            &&& placed@.len() == len
            &&& forall|k: int|
                0 <= k < results@.len() ==> placed@[(#[trigger] results@[k]).1 as int] == results@[k].0
        },
{
    let mut pending = results;
    let ghost all = pending@;
    if pending.len() != len {
        return None;
    }
    let mut slots: Vec<Option<U>> = Vec::new();
    while slots.len() < len
        invariant
            slots@.len() <= len,
            forall|s: int| 0 <= s < slots@.len() ==> (#[trigger] slots@[s]) is None,
        decreases len - slots@.len(),
    {
        slots.push(None);
    }
    // Results are taken from the back, so the one at position `left - 1`
    // of `all` is placed next.
    let mut left: usize = pending.len();
    while left > 0
        invariant
            all == results@,
            left == pending@.len(),
            left <= all.len(),
            all.len() == len,
            pending@ == all.take(left as int),
            slots@.len() == len,
            forall|k: int| left <= k < all.len() ==> (#[trigger] all[k]).1 < len,
            forall|j: int, k: int| left <= j < k < all.len() ==> all[j].1 != all[k].1,
            forall|k: int|
                left <= k < all.len() ==> slots@[(#[trigger] all[k]).1 as int] == Some(all[k].0),
            forall|s: int|
                0 <= s < len ==> ((#[trigger] slots@[s]) is Some <==> exists|k: int|
                    left <= k < all.len() && (#[trigger] all[k]).1 == s),
        decreases left,
    {
        let (result, position) = pending.pop().unwrap();
        left -= 1;
        assert(pending@ =~= all.take(left as int));
        assert(all[left as int] == (result, position));
        if position >= len {
            assert(!covers_once(len as nat, all));
            return None;
        }
        if slots[position].is_some() {
            proof {
                let k = choose|k: int| left < k < all.len() && (#[trigger] all[k]).1 == position;
                assert(all[left as int].1 == all[k].1);
                assert(!covers_once(len as nat, all));
            }
            return None;
        }
        let ghost before = slots@;
        slots.set(position, Some(result));
        proof {
            assert forall|s: int| 0 <= s < len implies ((#[trigger] slots@[s]) is Some <==> exists|
                k: int,
            | left <= k < all.len() && (#[trigger] all[k]).1 == s) by {
                if s == position {
                    assert(all[left as int].1 == s);
                } else {
                    if before[s] is Some {
                        let k = choose|k: int| left < k < all.len() && (#[trigger] all[k]).1 == s;
                        assert(all[k].1 == s);
                    }
                    if exists|k: int| left <= k < all.len() && (#[trigger] all[k]).1 == s {
                        let k = choose|k: int| left <= k < all.len() && (#[trigger] all[k]).1 == s;
                        assert(k != left);
                        assert(all[k].1 == s);
                    }
                }
            }
            assert forall|k: int| left <= k < all.len() implies slots@[(#[trigger] all[k]).1 as int]
                == Some(all[k].0) by {
                if k > left {
                    assert(all[left as int].1 != all[k].1);
                }
            }
        }
    }
    assert(covers_once(len as nat, all));
    // Every slot is filled now: with as many distinct positions as slots,
    // none is left out.
    proof {
        lemma_all_filled(len as nat, all, slots@);
    }
    let mut backwards: Vec<U> = Vec::new();
    let ghost filled = slots@;
    let mut n: usize = len;
    while n > 0
        invariant
            n == slots@.len(),
            n <= len,
            filled.len() == len,
            slots@ == filled.take(n as int),
            forall|s: int| 0 <= s < len ==> (#[trigger] filled[s]) is Some,
            backwards@.len() == len - n,
            forall|b: int| 0 <= b < backwards@.len() ==> Some(#[trigger] backwards@[b]) == filled[len - 1 - b],
        decreases n,
    {
        let slot = slots.pop().unwrap();
        n -= 1;
        assert(slot == filled[n as int]);
        assert(slots@ =~= filled.take(n as int));
        backwards.push(slot.unwrap());
    }
    let mut placed: Vec<U> = Vec::new();
    let ghost turned = backwards@;
    let mut m: usize = len;
    while m > 0
        invariant
            m == backwards@.len(),
            m <= len,
            turned.len() == len,
            backwards@ == turned.take(m as int),
            placed@.len() == len - m,
            forall|p: int| 0 <= p < placed@.len() ==> #[trigger] placed@[p] == turned[len - 1 - p],
        decreases m,
    {
        let value = backwards.pop().unwrap();
        m -= 1;
        assert(value == turned[m as int]);
        assert(backwards@ =~= turned.take(m as int));
        placed.push(value);
    }
    proof {
        assert forall|k: int| 0 <= k < all.len() implies placed@[(#[trigger] all[k]).1 as int]
            == all[k].0 by {
            let s = all[k].1 as int;
            assert(filled[s] == Some(all[k].0));
            assert(placed@[s] == turned[len - 1 - s]);
            assert(Some(turned[len - 1 - s]) == filled[len - 1 - (len - 1 - s)]);
        }
    }
    Some(placed)
}

/// With one result for each of `len` positions, all different and all
/// below `len`, every position has its result.
proof fn lemma_all_filled<U>(len: nat, all: Seq<(U, usize)>, slots: Seq<Option<U>>)
    requires
        covers_once(len, all),
        slots.len() == len,
        forall|s: int|
            0 <= s < len ==> ((#[trigger] slots[s]) is Some <==> exists|k: int|
                0 <= k < all.len() && (#[trigger] all[k]).1 == s),
    ensures
        forall|s: int| 0 <= s < len ==> (#[trigger] slots[s]) is Some,
{
    let positions = all.map_values(|r: (U, usize)| r.1 as int);
    assert(positions.no_duplicates()) by {
        assert forall|j: int, k: int|
            0 <= j < positions.len() && 0 <= k < positions.len() && j != k implies positions[j]
            != positions[k] by {
            if j < k {
                assert(all[j].1 != all[k].1);
            } else {
                assert(all[k].1 != all[j].1);
            }
        }
    }
    let held = positions.to_set();
    positions.unique_seq_to_set();
    let below = Set::new(|s: int| 0 <= s < len);
    vstd::set_lib::lemma_int_range(0, len as int);
    assert(vstd::set_lib::set_int_range(0, len as int) =~= below);
    assert(held.subset_of(below)) by {
        assert forall|s: int| held.contains(s) implies below.contains(s) by {
            let k = choose|k: int| 0 <= k < positions.len() && positions[k] == s;
            assert(all[k].1 < len);
        }
    }
    vstd::set_lib::lemma_subset_equality(held, below);
    assert forall|s: int| 0 <= s < len implies (#[trigger] slots[s]) is Some by {
        assert(below.contains(s));
        assert(held.contains(s));
        let k = choose|k: int| 0 <= k < positions.len() && positions[k] == s;
        assert(all[k].1 == s);
    }
}

/// Applies `f` to every item of `input_vec` and returns the results in the
/// order of the items. The number of workers has no part in the result;
/// here the jobs are done one after the other.
pub fn parallel_map<T, U, F>(input_vec: Vec<T>, num_threads: usize, f: F) -> (output_vec: Vec<U>)
    where
        F: FnOnce(T) -> U + Send + Copy + 'static,
        T: Send + 'static,
        U: Send + 'static + Default,
    requires
        forall|i: int| 0 <= i < input_vec@.len() ==> f.requires((#[trigger] input_vec@[i],)),
    ensures
        output_vec@.len() == input_vec@.len(),
        forall|i: int|
            0 <= i < input_vec@.len() ==> f.ensures((input_vec@[i],), #[trigger] output_vec@[i]),
{
    let len = input_vec.len();
    let mut jobs = enumerate_jobs(input_vec);
    let ghost sent = jobs@;
    // Jobs are taken from the back of the list, so results come in the
    // order of the input.
    let mut results: Vec<(U, usize)> = Vec::new();
    let mut left: usize = jobs.len();
    while left > 0
        invariant
            left == jobs@.len(),
            left <= len,
            sent.len() == len,
            len == input_vec@.len(),
            jobs@ == sent.take(left as int),
            jobs_of(input_vec@, sent),
            forall|i: int| 0 <= i < input_vec@.len() ==> f.requires((#[trigger] input_vec@[i],)),
            results@.len() == len - left,
            forall|r: int|
                0 <= r < results@.len() ==> (#[trigger] results@[r]).1 == r && f.ensures(
                    (input_vec@[r],),
                    results@[r].0,
                ),
        decreases left,
    {
        let (item, position) = jobs.pop().unwrap();
        left -= 1;
        assert(jobs@ =~= sent.take(left as int));
        assert(sent[left as int] == (item, position));
        assert(position == len - 1 - left);
        assert(item == input_vec@[position as int]);
        let result = f(item);
        results.push((result, position));
    }
    assert(covers_once(len as nat, results@));
    let placed = place_results(len, results).unwrap();
    assert forall|i: int| 0 <= i < input_vec@.len() implies f.ensures(
        (input_vec@[i],),
        #[trigger] placed@[i],
    ) by {
        assert(placed@[results@[i].1 as int] == results@[i].0);
    }
    placed
}

} // verus!
