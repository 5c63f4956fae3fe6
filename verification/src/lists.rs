//! Lists that are worked through in batches, or grouped by a number.
use std::collections::HashMap;
use vstd::prelude::*;

verus! {

broadcast use vstd::std_specs::hash::group_hash_axioms;

/// Where the batch that begins at `start` ends.
pub fn end_of_batch(start: usize, len: usize, size: usize) -> (r: usize)
    requires
        start <= len,
    ensures
        r == if start + size < len {
            start + size
        } else {
            len as int
        },
{
    if len - start > size {
        start + size
    } else {
        len
    }
}

/// The places among the first `n` at which a number stands in a list, in their order.
pub open spec fn places(keys: Seq<i64>, key: i64, n: int) -> Seq<int>
    decreases n,
{
    if n <= 0 {
        Seq::empty()
    } else if keys[n - 1] == key {
        places(keys, key, n - 1).push(n - 1)
    } else {
        places(keys, key, n - 1)
    }
}

/// The places as they stand in a list.
pub open spec fn as_places(list: Seq<usize>) -> Seq<int> {
    list.map_values(|i: usize| i as int)
}

/// `groups` gives to each number the places at which it stands among the first `n`, and nothing
/// to a number that does not stand there.
pub open spec fn are_groups(groups: Map<i64, Vec<usize>>, keys: Seq<i64>, n: int) -> bool {
    forall|key: i64|
        {
            &&& #[trigger] groups.contains_key(key) <==> places(keys, key, n).len() > 0
            &&& groups.contains_key(key) ==> as_places(groups[key]@) == places(keys, key, n)
        }
}

/// The places at which each number stands in a list.
pub fn group_places(keys: &Vec<i64>) -> (r: HashMap<i64, Vec<usize>>)
    ensures
        are_groups(r@, keys@, keys@.len() as int),
{
    let mut groups: HashMap<i64, Vec<usize>> = HashMap::new();
    let mut i: usize = 0;
    while i < keys.len()
        invariant
            i <= keys@.len(),
            are_groups(groups@, keys@, i as int),
        decreases keys@.len() - i,
    {
        let key = keys[i];
        let ghost before = groups@;
        let known = groups.remove(&key);
        let mut list = match known {
            Some(list) => list,
            None => Vec::new(),
        };
        let ghost old_list = list@;
        assert(as_places(old_list) =~= places(keys@, key, i as int)) by {
            assert(!before.contains_key(key) ==> places(keys@, key, i as int).len() == 0);
        }
        list.push(i);
        assert(as_places(list@) =~= as_places(old_list).push(i as int));
        groups.insert(key, list);
        assert forall|k: i64|
            {
                &&& #[trigger] groups@.contains_key(k) <==> places(keys@, k, i + 1).len() > 0
                &&& groups@.contains_key(k) ==> as_places(groups@[k]@) == places(keys@, k, i + 1)
            } by {
            assert(k != key ==> (groups@.contains_key(k) <==> before.contains_key(k)));
        }
        i += 1;
    }
    groups
}

/// Whether a number is in a list.
pub fn holds(list: &Vec<i64>, key: i64) -> (r: bool)
    ensures
        r == list@.contains(key),
{
    let mut i: usize = 0;
    while i < list.len()
        invariant
            i <= list@.len(),
            forall|j: int| 0 <= j < i ==> list@[j] != key,
        decreases list@.len() - i,
    {
        if list[i] == key {
            return true;
        }
        i += 1;
    }
    false
}

/// Each place is one of the first `n`, and the number stands at it.
pub proof fn lemma_places(keys: Seq<i64>, key: i64, n: int)
    requires
        0 <= n <= keys.len(),
    ensures
        forall|j: int|
            0 <= j < places(keys, key, n).len() ==> 0 <= #[trigger] places(keys, key, n)[j] < n
                && keys[places(keys, key, n)[j]] == key,
    decreases n,
{
    if n > 0 {
        lemma_places(keys, key, n - 1);
        let before = places(keys, key, n - 1);
        let after = places(keys, key, n);
        assert forall|j: int| 0 <= j < after.len() implies 0 <= #[trigger] after[j] < n
            && keys[after[j]] == key by {
            if j < before.len() {
                assert(after[j] == before[j]);
            }
        }
    }
}

/// The places of a number in a list are all indices below `n` at which it stands, from the lowest to
/// the highest.
pub proof fn law_places_are_all_indices(keys: Seq<i64>, key: i64, n: int)
    requires
        0 <= n <= keys.len(),
    ensures
        forall|i: int| #[trigger]
            places(keys, key, n).contains(i) <==> 0 <= i < n && keys[i] == key,
        forall|a: int, b: int|
            0 <= a < b < places(keys, key, n).len() ==> #[trigger] places(keys, key, n)[a]
                < #[trigger] places(keys, key, n)[b],
        places(keys, key, n).len() <= n,
    decreases n,
{
    if n > 0 {
        law_places_are_all_indices(keys, key, n - 1);
        let before = places(keys, key, n - 1);
        let after = places(keys, key, n);
        assert forall|i: int| #[trigger] after.contains(i) <==> 0 <= i < n && keys[i] == key by {
            assert(before.contains(i) <==> 0 <= i < n - 1 && keys[i] == key);
            if keys[n - 1] == key {
                vstd::seq_lib::lemma_seq_contains_after_push(before, n - 1, i);
            }
        }
        assert forall|a: int, b: int| 0 <= a < b < after.len() implies #[trigger] after[a]
            < #[trigger] after[b] by {
            assert(a < before.len());
            assert(after[a] == before[a]);
            assert(before.contains(before[a]));
            if b < before.len() {
                assert(after[b] == before[b]);
            }
        }
    }
}

/// Each index of a list stands in the group of the number at that index, and in no other one.
pub proof fn law_groups_share_out_the_list(groups: Map<i64, Vec<usize>>, keys: Seq<i64>, i: usize)
    requires
        are_groups(groups, keys, keys.len() as int),
        i < keys.len(),
    ensures
        groups.contains_key(keys[i as int]),
        forall|key: i64| #[trigger]
            groups.contains_key(key) ==> (groups[key]@.contains(i) <==> key == keys[i as int]),
{
    let n = keys.len() as int;
    let own = keys[i as int];
    law_places_are_all_indices(keys, own, n);
    assert(places(keys, own, n).contains(i as int));
    assert(groups.contains_key(own));
    assert forall|key: i64| #[trigger] groups.contains_key(key) implies (groups[key]@.contains(i)
        <==> key == keys[i as int]) by {
        law_places_are_all_indices(keys, key, n);
        let list = groups[key]@;
        assert(as_places(list) == places(keys, key, n));
        if list.contains(i) {
            let k = choose|k: int| 0 <= k < list.len() && list[k] == i;
            assert(as_places(list)[k] == i);
            assert(places(keys, key, n).contains(i as int));
        }
        if key == own {
            let k = choose|k: int|
                0 <= k < places(keys, key, n).len() && places(keys, key, n)[k] == i;
            assert(as_places(list)[k] == i);
            assert(list[k] == i);
        }
    }
}

} // verus!
