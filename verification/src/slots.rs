//! The model of a table: a sequence of chains, one per slot, and what
//! inserting and looking up mean on it.

use crate::bucket::first_match;
use crate::hashing::{lemma_slot_in_range, slot_of};
use vstd::prelude::*;
use vstd::seq_lib::lemma_multiset_commutative;

verus! {

/// Every entry of every chain: slot by slot, and within a slot front first.
pub open spec fn all_entries<E>(slots: Seq<Seq<E>>) -> Seq<E>
    decreases slots.len(),
{
    if slots.len() == 0 {
        Seq::empty()
    } else {
        all_entries(slots.drop_last()) + slots.last()
    }
}

/// A table of `n` slots with nothing in them.
pub open spec fn blank_slots<V>(n: nat) -> Seq<Seq<(Seq<char>, V)>> {
    Seq::new(n, |i: int| Seq::empty())
}

/// `slots` with an entry put in front of the chain at `idx`.
pub open spec fn inserted_at<V>(
    slots: Seq<Seq<(Seq<char>, V)>>,
    idx: int,
    key: Seq<char>,
    value: V,
) -> Seq<Seq<(Seq<char>, V)>>
    recommends
        0 <= idx < slots.len(),
{
    slots.update(idx, seq![(key, value)] + slots[idx])
}

/// `slots` with an entry put in front of the chain that `key` hashes to.
pub open spec fn inserted<V>(slots: Seq<Seq<(Seq<char>, V)>>, key: Seq<char>, value: V) -> Seq<
    Seq<(Seq<char>, V)>,
>
    recommends
        slots.len() > 0,
{
    inserted_at(slots, slot_of(key, slots.len()) as int, key, value)
}

/// Those of `entries` whose keys hash to `slot` in a table of `n` slots, in
/// the order they have in `entries`.
pub open spec fn hashed_to<V>(entries: Seq<(Seq<char>, V)>, n: nat, slot: int) -> Seq<
    (Seq<char>, V),
>
    decreases entries.len(),
{
    if entries.len() == 0 {
        Seq::empty()
    } else if slot_of(entries[0].0, n) == slot {
        seq![entries[0]] + hashed_to(entries.drop_first(), n, slot)
    } else {
        hashed_to(entries.drop_first(), n, slot)
    }
}

/// The entries of `slots` in a table of `n` slots: every entry in the slot
/// that its key hashes to among the `n`, and the entries of one new slot in
/// the order they had in the old table, slot by slot and front first.
pub open spec fn rehashed<V>(slots: Seq<Seq<(Seq<char>, V)>>, n: nat) -> Seq<
    Seq<(Seq<char>, V)>,
> {
    Seq::new(n, |slot: int| hashed_to(all_entries(slots), n, slot))
}

/// Whether every entry of these slots, the first of a table of `n`, is in
/// the slot that its key hashes to.
pub open spec fn placed_among<V>(slots: Seq<Seq<(Seq<char>, V)>>, n: nat) -> bool {
    forall|i: int, j: int|
        0 <= i < slots.len() && 0 <= j < slots[i].len() ==> slot_of(
            (#[trigger] slots[i][j]).0,
            n,
        ) == i
}

/// Whether every entry is in the slot that its key hashes to. `put` keeps it
/// so; `put_at` with another index does not.
pub open spec fn placed<V>(slots: Seq<Seq<(Seq<char>, V)>>) -> bool {
    placed_among(slots, slots.len())
}

/// The value found under `key`: the first match in the chain that `key` hashes
/// to.
pub open spec fn lookup<V>(slots: Seq<Seq<(Seq<char>, V)>>, key: Seq<char>) -> Option<V>
    recommends
        slots.len() > 0,
{
    first_match(slots[slot_of(key, slots.len()) as int], key)
}

/// The entries of a table are its chains flattened.
pub proof fn lemma_all_entries_is_flatten<E>(slots: Seq<Seq<E>>)
    ensures
        all_entries(slots) == slots.flatten(),
    decreases slots.len(),
{
    slots.lemma_flatten_and_flatten_alt_are_equivalent();
    if slots.len() > 0 {
        lemma_all_entries_is_flatten(slots.drop_last());
        slots.drop_last().lemma_flatten_and_flatten_alt_are_equivalent();
    }
}

/// The entries of the first slots are no more than the entries of all.
pub proof fn lemma_all_entries_take<E>(slots: Seq<Seq<E>>, n: int)
    requires
        0 <= n <= slots.len(),
    ensures
        all_entries(slots.take(n)).len() <= all_entries(slots).len(),
    decreases slots.len(),
{
    if n < slots.len() {
        assert(slots.drop_last().take(n) =~= slots.take(n));
        lemma_all_entries_take(slots.drop_last(), n);
    } else {
        assert(slots.take(n) =~= slots);
    }
}

/// Replacing one chain changes the number of entries by the difference of
/// the two chains' lengths.
pub proof fn lemma_all_entries_update<E>(slots: Seq<Seq<E>>, idx: int, chain: Seq<E>)
    requires
        0 <= idx < slots.len(),
    ensures
        all_entries(slots.update(idx, chain)).len() == all_entries(slots).len() - slots[idx].len()
            + chain.len(),
    decreases slots.len(),
{
    let after = slots.update(idx, chain);
    if idx == slots.len() - 1 {
        assert(after.drop_last() =~= slots.drop_last());
    } else {
        assert(after.drop_last() =~= slots.drop_last().update(idx, chain));
        lemma_all_entries_update(slots.drop_last(), idx, chain);
    }
}

/// The entries from slot `from` on are the chain at `from` and then the
/// entries from the next slot on.
pub proof fn lemma_all_entries_skip<E>(slots: Seq<Seq<E>>, from: int)
    requires
        0 <= from < slots.len(),
    ensures
        all_entries(slots.skip(from)) == slots[from] + all_entries(slots.skip(from + 1)),
    decreases slots.len(),
{
    let rest = slots.skip(from);
    if from == slots.len() - 1 {
        assert(rest.drop_last() =~= Seq::<Seq<E>>::empty());
        assert(slots.skip(from + 1) =~= Seq::<Seq<E>>::empty());
        assert(all_entries(rest) =~= slots[from] + all_entries(slots.skip(from + 1)));
    } else {
        assert(rest.drop_last() =~= slots.drop_last().skip(from));
        assert(slots.skip(from + 1).drop_last() =~= slots.drop_last().skip(from + 1));
        lemma_all_entries_skip(slots.drop_last(), from);
        assert(all_entries(rest) =~= slots[from] + all_entries(slots.skip(from + 1)));
    }
}

/// `slots` after the entries of `puts` were inserted one after the other,
/// the first of `puts` first.
pub open spec fn inserted_all<V>(slots: Seq<Seq<(Seq<char>, V)>>, puts: Seq<(Seq<char>, V)>) -> Seq<
    Seq<(Seq<char>, V)>,
>
    decreases puts.len(),
{
    if puts.len() == 0 {
        slots
    } else {
        inserted(inserted_all(slots, puts.drop_last()), puts.last().0, puts.last().1)
    }
}

/// What was inserted under a key is what a lookup of that key finds, whatever
/// was stored under the key before.
pub proof fn lemma_insert_then_lookup<V>(slots: Seq<Seq<(Seq<char>, V)>>, key: Seq<char>, value: V)
    requires
        slots.len() > 0,
    ensures
        lookup(inserted(slots, key, value), key) == Some(value),
{
    lemma_slot_in_range(key, slots.len());
}

/// Of two values inserted under one key, a lookup finds the second.
pub proof fn lemma_last_insert_wins<V>(
    slots: Seq<Seq<(Seq<char>, V)>>,
    key: Seq<char>,
    first: V,
    second: V,
)
    requires
        slots.len() > 0,
    ensures
        lookup(inserted(inserted(slots, key, first), key, second), key) == Some(second),
{
    lemma_insert_then_lookup(inserted(slots, key, first), key, second);
}

/// An insertion under one key leaves the lookups of every other key as they
/// were.
pub proof fn lemma_insert_keeps_others<V>(
    slots: Seq<Seq<(Seq<char>, V)>>,
    key: Seq<char>,
    value: V,
    other: Seq<char>,
)
    requires
        slots.len() > 0,
        other != key,
    ensures
        lookup(inserted(slots, key, value), other) == lookup(slots, other),
{
    lemma_slot_in_range(key, slots.len());
    lemma_slot_in_range(other, slots.len());
    let idx = slot_of(key, slots.len()) as int;
    if slot_of(other, slots.len()) == idx {
        let chain = seq![(key, value)] + slots[idx];
        assert(chain.drop_first() =~= slots[idx]);
    }
}

/// An insertion adds one entry and leaves the number of slots as it was.
pub proof fn lemma_insert_counts<V>(slots: Seq<Seq<(Seq<char>, V)>>, key: Seq<char>, value: V)
    requires
        slots.len() > 0,
    ensures
        inserted(slots, key, value).len() == slots.len(),
        all_entries(inserted(slots, key, value)).len() == all_entries(slots).len() + 1,
{
    lemma_slot_in_range(key, slots.len());
    let idx = slot_of(key, slots.len()) as int;
    lemma_all_entries_update(slots, idx, seq![(key, value)] + slots[idx]);
}

/// After any number of insertions the table has as many entries more as
/// there were insertions, and the slots it had.
pub proof fn lemma_insert_all_counts<V>(slots: Seq<Seq<(Seq<char>, V)>>, puts: Seq<(Seq<char>, V)>)
    requires
        slots.len() > 0,
    ensures
        inserted_all(slots, puts).len() == slots.len(),
        all_entries(inserted_all(slots, puts)).len() == all_entries(slots).len() + puts.len(),
    decreases puts.len(),
{
    if puts.len() > 0 {
        lemma_insert_all_counts(slots, puts.drop_last());
        lemma_insert_counts(inserted_all(slots, puts.drop_last()), puts.last().0, puts.last().1);
    }
}

/// A table with nothing in its slots has no entries.
pub proof fn lemma_blank_is_empty<V>(n: nat)
    ensures
        all_entries(blank_slots::<V>(n)).len() == 0,
    decreases n,
{
    if n > 0 {
        assert(blank_slots::<V>(n).drop_last() =~= blank_slots::<V>((n - 1) as nat));
        lemma_blank_is_empty::<V>((n - 1) as nat);
    }
}

/// A table that started with nothing in its slots has as many entries as
/// there were insertions, whether or not keys repeat among them.
pub proof fn lemma_entries_are_insertions<V>(n: nat, puts: Seq<(Seq<char>, V)>)
    requires
        n > 0,
    ensures
        inserted_all(blank_slots(n), puts).len() == n,
        all_entries(inserted_all(blank_slots(n), puts)).len() == puts.len(),
{
    lemma_blank_is_empty::<V>(n);
    lemma_insert_all_counts(blank_slots(n), puts);
}

/// The first match in two chains joined is the first match in the first, or
/// else the first match in the second.
pub proof fn lemma_first_match_join<V>(
    front: Seq<(Seq<char>, V)>,
    back: Seq<(Seq<char>, V)>,
    key: Seq<char>,
)
    ensures
        first_match(front + back, key) == if first_match(front, key) is Some {
            first_match(front, key)
        } else {
            first_match(back, key)
        },
    decreases front.len(),
{
    if front.len() == 0 {
        assert(front + back =~= back);
    } else {
        assert((front + back).drop_first() =~= front.drop_first() + back);
        lemma_first_match_join(front.drop_first(), back, key);
    }
}

/// A chain without an entry under `key` has no match for it.
pub proof fn lemma_first_match_absent<V>(chain: Seq<(Seq<char>, V)>, key: Seq<char>)
    requires
        forall|j: int| 0 <= j < chain.len() ==> (#[trigger] chain[j]).0 != key,
    ensures
        first_match(chain, key) is None,
    decreases chain.len(),
{
    if chain.len() > 0 {
        assert(chain[0].0 != key);
        assert forall|j: int| 0 <= j < chain.drop_first().len() implies (
        #[trigger] chain.drop_first()[j]).0 != key by {
            assert(chain.drop_first()[j] == chain[j + 1]);
        }
        lemma_first_match_absent(chain.drop_first(), key);
    }
}

/// Among entries that are each in their key's slot, the first match of a key
/// over all the slots is the first match in the key's own slot.
pub proof fn lemma_first_match_in_own_slot<V>(
    slots: Seq<Seq<(Seq<char>, V)>>,
    n: nat,
    key: Seq<char>,
)
    requires
        placed_among(slots, n),
    ensures
        first_match(all_entries(slots), key) == if slot_of(key, n) < slots.len() {
            first_match(slots[slot_of(key, n) as int], key)
        } else {
            None
        },
    decreases slots.len(),
{
    if slots.len() > 0 {
        let most = slots.drop_last();
        let last = slots.len() - 1;
        assert forall|i: int, j: int| 0 <= i < most.len() && 0 <= j < most[i].len() implies slot_of(
            (#[trigger] most[i][j]).0,
            n,
        ) == i by {
            assert(most[i][j] == slots[i][j]);
        }
        lemma_first_match_in_own_slot(most, n, key);
        lemma_first_match_join(all_entries(most), slots.last(), key);
        if slot_of(key, n) != last {
            assert forall|j: int| 0 <= j < slots.last().len() implies (
            #[trigger] slots.last()[j]).0 != key by {
                assert(slot_of(slots[last][j].0, n) == last);
            }
            lemma_first_match_absent(slots.last(), key);
        }
        if slot_of(key, n) < last {
            assert(most[slot_of(key, n) as int] == slots[slot_of(key, n) as int]);
        }
    }
}

/// Leaving out the entries that hash elsewhere does not change what is found
/// under a key.
pub proof fn lemma_first_match_hashed<V>(entries: Seq<(Seq<char>, V)>, n: nat, key: Seq<char>)
    ensures
        first_match(hashed_to(entries, n, slot_of(key, n) as int), key) == first_match(
            entries,
            key,
        ),
    decreases entries.len(),
{
    if entries.len() > 0 {
        let slot = slot_of(key, n) as int;
        lemma_first_match_hashed(entries.drop_first(), n, key);
        if slot_of(entries[0].0, n) == slot {
            let kept = seq![entries[0]] + hashed_to(entries.drop_first(), n, slot);
            assert(kept.drop_first() =~= hashed_to(entries.drop_first(), n, slot));
        }
    }
}

/// The entries picked for a slot are those that a filter by the slot keeps.
pub proof fn lemma_hashed_to_is_filter<V>(entries: Seq<(Seq<char>, V)>, n: nat, slot: int)
    ensures
        hashed_to(entries, n, slot) == entries.filter(
            |entry: (Seq<char>, V)| slot_of(entry.0, n) == slot,
        ),
    decreases entries.len(),
{
    let here = |entry: (Seq<char>, V)| slot_of(entry.0, n) == slot;
    reveal(Seq::filter);
    if entries.len() > 0 {
        let front = seq![entries[0]];
        let rest = entries.drop_first();
        lemma_hashed_to_is_filter(rest, n, slot);
        assert(entries =~= front + rest);
        Seq::filter_distributes_over_add(front, rest, here);
        assert(front.drop_last() =~= Seq::<(Seq<char>, V)>::empty());
        assert(front.drop_last().filter(here) =~= Seq::<(Seq<char>, V)>::empty());
        if slot_of(entries[0].0, n) == slot {
            assert(front.filter(here) =~= front);
        } else {
            assert(front.filter(here) =~= Seq::<(Seq<char>, V)>::empty());
        }
        assert(hashed_to(entries, n, slot) =~= front.filter(here) + rest.filter(here));
    }
}

/// Every entry picked for a slot hashes to it.
pub proof fn lemma_hashed_to_hashes<V>(entries: Seq<(Seq<char>, V)>, n: nat, slot: int, j: int)
    requires
        0 <= j < hashed_to(entries, n, slot).len(),
    ensures
        slot_of(hashed_to(entries, n, slot)[j].0, n) == slot,
    decreases entries.len(),
{
    if entries.len() > 0 {
        if slot_of(entries[0].0, n) == slot {
            if j > 0 {
                lemma_hashed_to_hashes(entries.drop_first(), n, slot, j - 1);
            }
        } else {
            lemma_hashed_to_hashes(entries.drop_first(), n, slot, j);
        }
    }
}

/// After a resize every entry is in the slot that its key hashes to.
pub proof fn lemma_rehashed_is_placed<V>(slots: Seq<Seq<(Seq<char>, V)>>, n: nat)
    ensures
        rehashed(slots, n).len() == n,
        placed(rehashed(slots, n)),
{
    let after = rehashed(slots, n);
    assert forall|i: int, j: int| 0 <= i < after.len() && 0 <= j < after[i].len() implies slot_of(
        (#[trigger] after[i][j]).0,
        after.len(),
    ) == i by {
        lemma_hashed_to_hashes(all_entries(slots), n, i, j);
    }
}

/// A resize of a table whose entries are each in their key's slot leaves the
/// lookup of every key as it was.
pub proof fn lemma_rehashed_keeps_lookups<V>(slots: Seq<Seq<(Seq<char>, V)>>, n: nat, key: Seq<char>)
    requires
        slots.len() > 0,
        n > 0,
        placed(slots),
    ensures
        lookup(rehashed(slots, n), key) == lookup(slots, key),
{
    lemma_slot_in_range(key, n);
    lemma_slot_in_range(key, slots.len());
    lemma_first_match_hashed(all_entries(slots), n, key);
    lemma_first_match_in_own_slot(slots, slots.len(), key);
}

/// A table with nothing in its slots has every entry in its key's slot, and
/// an insertion keeps a table so.
pub proof fn lemma_inserted_is_placed<V>(slots: Seq<Seq<(Seq<char>, V)>>, key: Seq<char>, value: V)
    requires
        slots.len() > 0,
        placed(slots),
    ensures
        placed(inserted(slots, key, value)),
        placed(blank_slots::<V>(slots.len())),
{
    lemma_slot_in_range(key, slots.len());
    let idx = slot_of(key, slots.len()) as int;
    let after = inserted(slots, key, value);
    assert forall|i: int, j: int| 0 <= i < after.len() && 0 <= j < after[i].len() implies slot_of(
        (#[trigger] after[i][j]).0,
        after.len(),
    ) == i by {
        if i == idx && j > 0 {
            assert(after[i][j] == slots[i][j - 1]);
        } else if i != idx {
            assert(after[i][j] == slots[i][j]);
        }
    }
}

/// A chain with an entry put in front holds that entry once more and the
/// others as before.
pub proof fn lemma_front_to_multiset<E>(entry: E, chain: Seq<E>)
    ensures
        (seq![entry] + chain).to_multiset() == chain.to_multiset().insert(entry),
{
    vstd::seq_lib::to_multiset_insert(chain, 0, entry);
    assert(chain.insert(0, entry) =~= seq![entry] + chain);
}

/// Putting an entry in front of one chain adds that entry to the entries of
/// the table and changes no other.
pub proof fn lemma_all_entries_gain<E>(slots: Seq<Seq<E>>, idx: int, entry: E)
    requires
        0 <= idx < slots.len(),
    ensures
        all_entries(slots.update(idx, seq![entry] + slots[idx])).to_multiset() == all_entries(
            slots,
        ).to_multiset().insert(entry),
    decreases slots.len(),
{
    let after = slots.update(idx, seq![entry] + slots[idx]);
    let most = all_entries(slots.drop_last());
    lemma_multiset_commutative(most, slots.last());
    if idx == slots.len() - 1 {
        assert(after.drop_last() =~= slots.drop_last());
        lemma_multiset_commutative(most, after.last());
        lemma_front_to_multiset(entry, slots.last());
        assert(all_entries(after).to_multiset() =~= all_entries(slots).to_multiset().insert(entry));
    } else {
        assert(after.drop_last() =~= slots.drop_last().update(idx, seq![entry] + slots[idx]));
        lemma_all_entries_gain(slots.drop_last(), idx, entry);
        lemma_multiset_commutative(all_entries(after.drop_last()), after.last());
        assert(all_entries(after).to_multiset() =~= all_entries(slots).to_multiset().insert(entry));
    }
}

/// Entries dealt out to `n` slots by their keys are, taken together, the
/// entries that were dealt out: none is lost, none is there twice.
pub proof fn lemma_hashed_to_all<V>(entries: Seq<(Seq<char>, V)>, n: nat)
    requires
        n > 0,
    ensures
        all_entries(Seq::new(n, |slot: int| hashed_to(entries, n, slot))).to_multiset()
            == entries.to_multiset(),
    decreases entries.len(),
{
    let dealt = Seq::new(n, |slot: int| hashed_to(entries, n, slot));
    if entries.len() == 0 {
        assert(dealt =~= blank_slots::<V>(n));
        lemma_blank_is_empty::<V>(n);
        assert(all_entries(dealt) =~= entries);
    } else {
        let rest = entries.drop_first();
        let dealt_rest = Seq::new(n, |slot: int| hashed_to(rest, n, slot));
        let idx = slot_of(entries[0].0, n) as int;
        lemma_slot_in_range(entries[0].0, n);
        lemma_hashed_to_all(rest, n);
        assert(dealt =~= dealt_rest.update(idx, seq![entries[0]] + dealt_rest[idx]));
        lemma_all_entries_gain(dealt_rest, idx, entries[0]);
        lemma_front_to_multiset(entries[0], rest);
        assert(entries =~= seq![entries[0]] + rest);
        assert(entries.to_multiset() =~= rest.to_multiset().insert(entries[0]));
    }
}

/// A resize keeps the entries: each is in the new table as often as it was in
/// the old one, so there are as many.
pub proof fn lemma_rehashed_keeps_entries<V>(slots: Seq<Seq<(Seq<char>, V)>>, n: nat)
    requires
        n > 0,
    ensures
        all_entries(rehashed(slots, n)).to_multiset() == all_entries(slots).to_multiset(),
        all_entries(rehashed(slots, n)).len() == all_entries(slots).len(),
{
    lemma_hashed_to_all(all_entries(slots), n);
    all_entries(rehashed(slots, n)).to_multiset_ensures();
    all_entries(slots).to_multiset_ensures();
}

} // verus!
