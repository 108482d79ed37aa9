//! Tables keyed by text: lists of pairs in which no key occurs twice, kept in
//! the order in which the keys were first entered.

use crate::text::{lemma_prefix_len, lemma_prefix_len_is_first, prefix_len};
use vstd::prelude::*;

verus! {

/// The entries whose key is not `key`.
pub open spec fn other_than<V>(key: Seq<char>) -> spec_fn((Seq<char>, V)) -> bool {
    |e: (Seq<char>, V)| e.0 != key
}

/// Where `key` stands in `entries`; their length where it does not.
pub open spec fn position<V>(entries: Seq<(Seq<char>, V)>, key: Seq<char>) -> int {
    prefix_len(entries, other_than(key))
}

/// Whether `key` stands in `entries`.
pub open spec fn has_key<V>(entries: Seq<(Seq<char>, V)>, key: Seq<char>) -> bool {
    exists|i: int| 0 <= i < entries.len() && (#[trigger] entries[i]).0 == key
}

/// `entries` after `key` was entered with `value`: a later entry takes the
/// place of an earlier one with the same key.
pub open spec fn inserted<V>(entries: Seq<(Seq<char>, V)>, key: Seq<char>, value: V) -> Seq<
    (Seq<char>, V),
> {
    let i = position(entries, key);
    if 0 <= i < entries.len() {
        entries.update(i, (key, value))
    } else {
        entries.push((key, value))
    }
}

/// No key occurs twice.
pub open spec fn distinct_keys<V>(entries: Seq<(Seq<char>, V)>) -> bool {
    forall|i: int, j: int|
        0 <= i < j < entries.len() ==> (#[trigger] entries[i]).0 != (#[trigger] entries[j]).0
}

/// `position` is the index of the first entry with the key, and the length
/// where no entry has it.
pub proof fn lemma_position<V>(entries: Seq<(Seq<char>, V)>, key: Seq<char>)
    ensures
        0 <= position(entries, key) <= entries.len(),
        forall|j: int| 0 <= j < position(entries, key) ==> (#[trigger] entries[j]).0 != key,
        position(entries, key) < entries.len() ==> entries[position(entries, key)].0 == key,
        has_key(entries, key) <==> position(entries, key) < entries.len(),
{
    lemma_prefix_len_is_first(entries, other_than::<V>(key));
}

/// Entering a key keeps the keys distinct, keeps every other key, and makes
/// the key stand in the table.
pub proof fn lemma_inserted<V>(entries: Seq<(Seq<char>, V)>, key: Seq<char>, value: V)
    requires
        distinct_keys(entries),
    ensures
        distinct_keys(inserted(entries, key, value)),
        has_key(inserted(entries, key, value), key),
        forall|other: Seq<char>|
            has_key(entries, other) ==> #[trigger] has_key(inserted(entries, key, value), other),
{
    lemma_position(entries, key);
    let after = inserted(entries, key, value);
    let i = position(entries, key);
    assert(after[i] == (key, value));
    assert forall|other: Seq<char>| has_key(entries, other) implies #[trigger] has_key(
        after,
        other,
    ) by {
        let j = choose|j: int| 0 <= j < entries.len() && (#[trigger] entries[j]).0 == other;
        assert(after[j].0 == other);
    }
}

/// Whether `key` stands in `entries` with `value`.
pub open spec fn has_entry<V>(entries: Seq<(Seq<char>, V)>, key: Seq<char>, value: V) -> bool {
    exists|i: int| 0 <= i < entries.len() && #[trigger] entries[i] == (key, value)
}

/// What was entered stands in the table, and what stood there under
/// another key still does.
pub proof fn lemma_inserted_entries<V>(entries: Seq<(Seq<char>, V)>, key: Seq<char>, value: V)
    ensures
        has_entry(inserted(entries, key, value), key, value),
        forall|other: Seq<char>, v: V|
            other != key && has_entry(entries, other, v) ==> #[trigger] has_entry(
                inserted(entries, key, value),
                other,
                v,
            ),
{
    lemma_position(entries, key);
    let after = inserted(entries, key, value);
    let i = position(entries, key);
    assert(after[i] == (key, value));
    assert forall|other: Seq<char>, v: V|
        other != key && has_entry(entries, other, v) implies #[trigger] has_entry(
        after,
        other,
        v,
    ) by {
        let j = choose|j: int| 0 <= j < entries.len() && #[trigger] entries[j] == (other, v);
        assert(after[j] == (other, v));
    }
}

/// What holds of every value in a table, and of a value entered, holds of
/// every value afterwards.
pub proof fn lemma_inserted_all<V>(
    entries: Seq<(Seq<char>, V)>,
    key: Seq<char>,
    value: V,
    p: spec_fn(V) -> bool,
)
    requires
        forall|i: int| 0 <= i < entries.len() ==> p((#[trigger] entries[i]).1),
        p(value),
    ensures
        forall|i: int|
            0 <= i < inserted(entries, key, value).len() ==> p(
                (#[trigger] inserted(entries, key, value)[i]).1,
            ),
{
    lemma_position(entries, key);
    let after = inserted(entries, key, value);
    assert forall|i: int| 0 <= i < after.len() implies p((#[trigger] after[i]).1) by {
        if i < entries.len() && i != position(entries, key) {
            assert(after[i] == entries[i]);
        }
    }
}

/// Enters `key` with `value`.
pub fn insert<T: DeepView>(entries: &mut Vec<(String, T)>, key: String, value: T)
    ensures
        final(entries).deep_view() == inserted(
            old(entries).deep_view(),
            key@,
            value.deep_view(),
        ),
{
    let ghost before = entries.deep_view();
    let mut i: usize = 0;
    while i < entries.len()
        invariant
            i <= entries.len(),
            entries.deep_view() == before,
            before == old(entries).deep_view(),
            forall|j: int| 0 <= j < i ==> (#[trigger] before[j]).0 != key@,
        decreases entries.len() - i,
    {
        assert(before[i as int] == entries@[i as int].deep_view());
        if entries[i].0 == key {
            proof {
                lemma_prefix_len(before, other_than::<T::V>(key@), i as int);
            }
            let ghost entered = (key@, value.deep_view());
            entries.set(i, (key, value));
            assert(entries.deep_view() =~= before.update(i as int, entered));
            return ;
        }
        i += 1;
    }
    proof {
        lemma_prefix_len(before, other_than::<T::V>(key@), before.len() as int);
    }
    let ghost entered = (key@, value.deep_view());
    entries.push((key, value));
    assert(entries.deep_view() =~= before.push(entered));
}

} // verus!
