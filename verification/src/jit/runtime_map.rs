//! Maps: what compiled code calls for them.
//!
//! The entries of a map are pairs of a key and a value, each as a word, in the
//! order of their keys.

use vstd::prelude::*;

verus! {

/// Where the first entry of a key is.
pub open spec fn position_of(entries: Seq<(u64, u64)>, key: u64) -> Option<int>
    decreases entries.len(),
{
    if entries.len() == 0 {
        None
    } else {
        match position_of(entries.drop_last(), key) {
            Some(i) => Some(i),
            None => if entries.last().0 == key {
                Some(entries.len() - 1)
            } else {
                None
            },
        }
    }
}

/// The value of a key, if there is one.
pub open spec fn value_at(entries: Seq<(u64, u64)>, key: u64) -> Option<u64> {
    match position_of(entries, key) {
        Some(i) => Some(entries[i].1),
        None => None,
    }
}

/// The entries with the value of a key set: in its place, or behind the others.
pub open spec fn with_entry(entries: Seq<(u64, u64)>, key: u64, value: u64) -> Seq<(u64, u64)> {
    match position_of(entries, key) {
        Some(i) => entries.update(i, (key, value)),
        None => entries.push((key, value)),
    }
}

/// The entries with the first `n` updates made, one after another.
pub open spec fn with_updates(entries: Seq<(u64, u64)>, updates: Seq<(u64, u64)>, n: nat) -> Seq<
    (u64, u64),
>
    decreases n,
{
    if n == 0 {
        entries
    } else {
        with_entry(
            with_updates(entries, updates, (n - 1) as nat),
            updates[n - 1].0,
            updates[n - 1].1,
        )
    }
}

/// Whether every key that is updated is there.
pub open spec fn all_present(entries: Seq<(u64, u64)>, updates: Seq<(u64, u64)>) -> bool {
    forall|i: int| 0 <= i < updates.len() ==> position_of(entries, #[trigger] updates[i].0) is Some
}

/// Whether entries are in the order of their keys.
pub open spec fn in_order(entries: Seq<(u64, u64)>) -> bool {
    forall|i: int, j: int| 0 <= i < j < entries.len() ==> entries[i].0 <= entries[j].0
}

/// Whether the entries are the same in whatever order.
pub open spec fn same_entries(one: Seq<(u64, u64)>, other: Seq<(u64, u64)>) -> bool {
    one.to_multiset() == other.to_multiset()
}

proof fn lemma_position(entries: Seq<(u64, u64)>, key: u64)
    ensures
        match position_of(entries, key) {
            Some(i) => 0 <= i < entries.len() && entries[i].0 == key && forall|j: int|
                0 <= j < i ==> #[trigger] entries[j].0 != key,
            None => forall|j: int| 0 <= j < entries.len() ==> #[trigger] entries[j].0 != key,
        },
    decreases entries.len(),
{
    if entries.len() > 0 {
        let rest = entries.drop_last();
        lemma_position(rest, key);
        match position_of(rest, key) {
            Some(i) => {
                assert forall|j: int| 0 <= j < i implies #[trigger] entries[j].0 != key by {
                    assert(rest[j].0 != key);
                }
            },
            None => {
                assert forall|j: int| 0 <= j < entries.len() - 1 implies #[trigger] entries[j].0
                    != key by {
                    assert(rest[j].0 != key);
                }
            },
        }
    }
}

fn find(entries: &Vec<(u64, u64)>, key: u64) -> (r: Option<usize>)
    ensures
        position_of(entries@, key) == match r {
            Some(i) => Some(i as int),
            None => None::<int>,
        },
        r matches Some(i) ==> i < entries@.len(),
{
    proof {
        lemma_position(entries@, key);
    }
    let mut i: usize = 0;
    while i < entries.len()
        invariant
            i <= entries@.len(),
            forall|j: int| 0 <= j < i ==> #[trigger] entries@[j].0 != key,
            match position_of(entries@, key) {
                Some(i) => 0 <= i < entries@.len() && entries@[i].0 == key && forall|j: int|
                    0 <= j < i ==> #[trigger] entries@[j].0 != key,
                None => forall|j: int| 0 <= j < entries@.len() ==> #[trigger] entries@[j].0 != key,
            },
        decreases entries@.len() - i,
    {
        if entries[i].0 == key {
            assert(position_of(entries@, key) == Some(i as int));
            return Some(i);
        }
        i += 1;
    }
    None
}

fn put(entries: &mut Vec<(u64, u64)>, key: u64, value: u64)
    ensures
        final(entries)@ == with_entry(old(entries)@, key, value),
{
    match find(entries, key) {
        Some(i) => {
            entries.set(i, (key, value));
        },
        None => {
            entries.push((key, value));
        },
    }
}

/// Puts entries in the order of their keys.
fn sort(entries: &mut Vec<(u64, u64)>)
    ensures
        in_order(final(entries)@),
        same_entries(final(entries)@, old(entries)@),
{
    let mut sorted: Vec<(u64, u64)> = Vec::new();
    let count: usize = entries.len();
    let mut n: usize = 0;
    proof {
        broadcast use vstd::seq_lib::group_to_multiset_ensures;

    }
    assert(sorted@ =~= entries@.take(0));
    while n < count
        invariant
            n <= count == entries@.len(),
            entries@ == old(entries)@,
            sorted@.len() == n,
            in_order(sorted@),
            same_entries(sorted@, entries@.take(n as int)),
        decreases count - n,
    {
        let entry = entries[n];
        let ghost before = sorted@;
        let mut i: usize = sorted.len();
        while i > 0 && sorted[i - 1].0 > entry.0
            invariant
                i <= sorted@.len(),
                sorted@ == before,
                in_order(before),
                forall|j: int| i <= j < sorted@.len() ==> #[trigger] sorted@[j].0 > entry.0,
            decreases i,
        {
            i -= 1;
        }
        sorted.insert(i, entry);
        proof {
            broadcast use vstd::seq_lib::group_to_multiset_ensures;

            assert(sorted@ == before.insert(i as int, entry));
            assert(in_order(sorted@)) by {
                assert forall|a: int, b: int| 0 <= a < b < sorted@.len() implies sorted@[a].0
                    <= sorted@[b].0 by {
                    if a < i && b > i {
                        assert(sorted@[a] == before[a]);
                        assert(sorted@[b] == before[b - 1]);
                    } else if b == i {
                        assert(sorted@[a] == before[a]);
                        if i > 0 {
                            assert(before[a].0 <= before[i - 1].0);
                        }
                    } else if a == i {
                        assert(sorted@[b] == before[b - 1]);
                    } else if b < i {
                        assert(sorted@[a] == before[a]);
                        assert(sorted@[b] == before[b]);
                    } else {
                        assert(sorted@[a] == before[a - 1]);
                        assert(sorted@[b] == before[b - 1]);
                    }
                }
            }
            assert(entries@.take(n + 1) =~= entries@.take(n as int).push(entry));
        }
        n += 1;
    }
    assert(entries@.take(count as int) =~= entries@);
    *entries = sorted;
}

/// Whether entries are a map of a map with updates made, in the order of its keys.
/// With `exact`, there is none when a key is new.
pub open spec fn map_made(
    exact: bool,
    source: Seq<(u64, u64)>,
    updates: Seq<(u64, u64)>,
    made: Option<Seq<(u64, u64)>>,
) -> bool {
    match made {
        Some(entries) => {
            &&& exact ==> all_present(source, updates)
            &&& in_order(entries)
            &&& same_entries(entries, with_updates(source, updates, updates.len()))
        },
        None => exact && !all_present(source, updates),
    }
}

/// The map of a map with updates made. With `exact`, there is none when a key
/// is new.
pub fn map_update(source: &Vec<(u64, u64)>, updates: &Vec<(u64, u64)>, exact: bool) -> (r: Option<
    Vec<(u64, u64)>,
>)
    ensures
        map_made(
            exact,
            source@,
            updates@,
            match r {
                Some(entries) => Some(entries@),
                None => None,
            },
        ),
{
    if exact {
        let mut i: usize = 0;
        while i < updates.len()
            invariant
                exact,
                i <= updates@.len(),
                forall|j: int|
                    0 <= j < i ==> position_of(source@, #[trigger] updates@[j].0) is Some,
            decreases updates@.len() - i,
        {
            if find(source, updates[i].0).is_none() {
                assert(position_of(source@, updates@[i as int].0) is None);
                return None;
            }
            i += 1;
        }
    }
    let mut entries: Vec<(u64, u64)> = Vec::new();
    let mut i: usize = 0;
    assert(entries@ =~= source@.take(0));
    while i < source.len()
        invariant
            i <= source@.len(),
            entries@ == source@.take(i as int),
        decreases source@.len() - i,
    {
        entries.push(source[i]);
        i += 1;
        assert(entries@ =~= source@.take(i as int));
    }
    assert(source@.take(i as int) =~= source@);
    let mut i: usize = 0;
    while i < updates.len()
        invariant
            i <= updates@.len(),
            entries@ == with_updates(source@, updates@, i as nat),
        decreases updates@.len() - i,
    {
        put(&mut entries, updates[i].0, updates[i].1);
        i += 1;
    }
    sort(&mut entries);
    Some(entries)
}

/// The value of a key, if there is one.
pub fn map_get(entries: &Vec<(u64, u64)>, key: u64) -> (r: Option<u64>)
    ensures
        r == value_at(entries@, key),
{
    match find(entries, key) {
        Some(i) => Some(entries[i].1),
        None => None,
    }
}

/// Whether there is a value of a key.
pub fn map_has_key(entries: &Vec<(u64, u64)>, key: u64) -> (r: bool)
    ensures
        r == (value_at(entries@, key) is Some),
{
    find(entries, key).is_some()
}

/// How many words a map of as many entries takes: two for each, and two more.
pub fn map_word_count(entries: usize) -> (r: Option<usize>)
    ensures
        r == if 2 * entries + 2 > usize::MAX {
            None::<usize>
        } else {
            Some((2 * entries + 2) as usize)
        },
{
    if entries > (usize::MAX - 2) / 2 {
        None
    } else {
        Some(2 * entries + 2)
    }
}

/// A key that was set has its value, and the other keys keep theirs.
pub proof fn law_set_key_is_read_back(entries: Seq<(u64, u64)>, key: u64, value: u64, other: u64)
    ensures
        value_at(with_entry(entries, key, value), key) == Some(value),
        other != key ==> value_at(with_entry(entries, key, value), other) == value_at(
            entries,
            other,
        ),
{
    let after = with_entry(entries, key, value);
    lemma_position(entries, key);
    lemma_position(after, key);
    lemma_position(entries, other);
    lemma_position(after, other);
    match position_of(entries, key) {
        Some(i) => {
            assert(after[i] == (key, value));
            assert(after[i].0 == key);
            match position_of(after, key) {
                Some(p) => {
                    if p < i {
                        assert(after[p] == entries[p]);
                    }
                },
                None => {},
            }
            if other != key {
                match position_of(after, other) {
                    Some(p) => {
                        assert(after[p] == entries[p]);
                        match position_of(entries, other) {
                            Some(q) => {
                                assert(after[q] == entries[q]);
                            },
                            None => {},
                        }
                    },
                    None => {
                        match position_of(entries, other) {
                            Some(q) => {
                                assert(after[q] == entries[q]);
                            },
                            None => {},
                        }
                    },
                }
            }
        },
        None => {
            let last = entries.len() as int;
            assert(after[last] == (key, value));
            assert(after[last].0 == key);
            match position_of(after, key) {
                Some(p) => {
                    if p < last {
                        assert(after[p] == entries[p]);
                    }
                },
                None => {},
            }
            if other != key {
                match position_of(after, other) {
                    Some(p) => {
                        assert(after[p] == entries[p]);
                    },
                    None => {},
                }
                match position_of(entries, other) {
                    Some(q) => {
                        assert(after[q] == entries[q]);
                    },
                    None => {},
                }
            }
        },
    }
}

/// A key keeps its value when updates do not name it.
pub proof fn law_updates_leave_other_keys(
    entries: Seq<(u64, u64)>,
    updates: Seq<(u64, u64)>,
    n: nat,
    key: u64,
)
    requires
        n <= updates.len(),
        forall|i: int| 0 <= i < n ==> #[trigger] updates[i].0 != key,
    ensures
        value_at(with_updates(entries, updates, n), key) == value_at(entries, key),
    decreases n,
{
    if n > 0 {
        law_updates_leave_other_keys(entries, updates, (n - 1) as nat, key);
        law_set_key_is_read_back(
            with_updates(entries, updates, (n - 1) as nat),
            updates[n - 1].0,
            updates[n - 1].1,
            key,
        );
    }
}

/// Whether each key has one entry at most.
pub open spec fn keys_apart(entries: Seq<(u64, u64)>) -> bool {
    forall|i: int, j: int|
        0 <= i < j < entries.len() ==> #[trigger] entries[i].0 != #[trigger] entries[j].0
}

proof fn lemma_keys_stay_apart(entries: Seq<(u64, u64)>, updates: Seq<(u64, u64)>, n: nat)
    requires
        n <= updates.len(),
        keys_apart(entries),
    ensures
        keys_apart(with_updates(entries, updates, n)),
    decreases n,
{
    if n > 0 {
        lemma_keys_stay_apart(entries, updates, (n - 1) as nat);
        let before = with_updates(entries, updates, (n - 1) as nat);
        let key = updates[n - 1].0;
        lemma_position(before, key);
        let after = with_updates(entries, updates, n);
        assert forall|i: int, j: int| 0 <= i < j < after.len() implies #[trigger] after[i].0
            != #[trigger] after[j].0 by {
            match position_of(before, key) {
                Some(p) => {
                    assert(after[i].0 == before[i].0);
                    assert(after[j].0 == before[j].0);
                },
                None => {
                    assert(after[i] == before[i]);
                    if j < before.len() {
                        assert(after[j] == before[j]);
                    }
                },
            }
        }
    }
}

proof fn lemma_order_does_not_matter(
    entries: Seq<(u64, u64)>,
    other: Seq<(u64, u64)>,
    key: u64,
)
    requires
        keys_apart(entries),
        same_entries(other, entries),
    ensures
        value_at(other, key) == value_at(entries, key),
{
    broadcast use vstd::seq_lib::group_to_multiset_ensures;

    lemma_position(entries, key);
    lemma_position(other, key);
    if let Some(i) = position_of(entries, key) {
        assert(entries.contains(entries[i]));
        assert(entries.to_multiset().count(entries[i]) > 0);
        assert(other.contains(entries[i]));
        let j = choose|j: int| 0 <= j < other.len() && other[j] == entries[i];
        assert(other[j].0 == key);
    }
    if let Some(i) = position_of(other, key) {
        assert(other.contains(other[i]));
        assert(other.to_multiset().count(other[i]) > 0);
        assert(entries.contains(other[i]));
        let j = choose|j: int| 0 <= j < entries.len() && entries[j] == other[i];
        assert(entries[j].0 == key);
        let p = position_of(entries, key)->Some_0;
        if p != j {
            assert(entries[p].0 != entries[j].0);
        }
    }
}

proof fn lemma_last_update(entries: Seq<(u64, u64)>, updates: Seq<(u64, u64)>, n: nat, i: int)
    requires
        0 <= i < n <= updates.len(),
        forall|j: int| i < j < n ==> #[trigger] updates[j].0 != updates[i].0,
    ensures
        value_at(with_updates(entries, updates, n), updates[i].0) == Some(updates[i].1),
    decreases n,
{
    let before = with_updates(entries, updates, (n - 1) as nat);
    law_set_key_is_read_back(before, updates[n - 1].0, updates[n - 1].1, updates[i].0);
    if i < n - 1 {
        lemma_last_update(entries, updates, (n - 1) as nat, i);
    }
}

/// A map made of another reads back the last update of each key, and what the other
/// had of every key that was not updated. Its keys are in order, each once.
pub proof fn law_made_map_reads_back(
    exact: bool,
    source: Seq<(u64, u64)>,
    updates: Seq<(u64, u64)>,
    made: Seq<(u64, u64)>,
)
    requires
        keys_apart(source),
        map_made(exact, source, updates, Some(made)),
    ensures
        forall|i: int, j: int| 0 <= i < j < made.len() ==> made[i].0 <= made[j].0,
        forall|i: int|
            0 <= i < updates.len() && (forall|j: int|
                i < j < updates.len() ==> #[trigger] updates[j].0 != updates[i].0) ==> value_at(
                made,
                #[trigger] updates[i].0,
            ) == Some(updates[i].1),
        forall|key: u64|
            (forall|j: int| 0 <= j < updates.len() ==> #[trigger] updates[j].0 != key)
                ==> #[trigger] value_at(made, key) == value_at(source, key),
{
    let n = updates.len();
    let entries = with_updates(source, updates, n);
    lemma_keys_stay_apart(source, updates, n);
    assert forall|i: int|
        0 <= i < updates.len() && (forall|j: int|
            i < j < updates.len() ==> #[trigger] updates[j].0 != updates[i].0) implies value_at(
        made,
        #[trigger] updates[i].0,
    ) == Some(updates[i].1) by {
        lemma_last_update(source, updates, n, i);
        lemma_order_does_not_matter(entries, made, updates[i].0);
    }
    assert forall|key: u64|
        (forall|j: int| 0 <= j < updates.len() ==> #[trigger] updates[j].0
            != key) implies #[trigger] value_at(made, key) == value_at(source, key) by {
        law_updates_leave_other_keys(source, updates, n, key);
        lemma_order_does_not_matter(entries, made, key);
    }
}

/// Where keys may be new there always is a map; where they may not, there is one just
/// when the old map has a value of each.
pub proof fn law_new_keys_are_refused_where_they_must_be_there(
    source: Seq<(u64, u64)>,
    updates: Seq<(u64, u64)>,
    made: Option<Seq<(u64, u64)>>,
)
    ensures
        map_made(false, source, updates, made) ==> made is Some,
        map_made(true, source, updates, made) ==> (made is Some <==> forall|i: int|
            0 <= i < updates.len() ==> value_at(source, (#[trigger] updates[i]).0) is Some),
{
}

} // verus!
