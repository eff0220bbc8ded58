//! A hash table whose values may be of different types: each is stored
//! erased and comes back only as the type it was stored as.

use crate::bucket::{first_match, pairs_view, Bucket};
use crate::hashing::{lemma_slot_in_range, slot_of};
use crate::node::cloned_entries;
use crate::slots::{
    all_entries, blank_slots, hashed_to, inserted, inserted_at, lemma_insert_keeps_others,
    lemma_insert_then_lookup, lookup, rehashed,
};
use crate::table::{Table, TableError, DEFAULT_SIZE};
use crate::traits::{CloneableAny, ErasedModel, ErasedValue};
use vstd::prelude::*;

verus! {

/// Why a write did not happen.
#[derive(Debug)]
pub enum PobjError {
    WriteFailed(String),
}

impl PobjError {
    /// A failed write, with the reason.
    pub fn new(message: &str) -> (err: Self)
        ensures
            err matches PobjError::WriteFailed(reason) && reason@ == message@,
    {
        PobjError::WriteFailed(message.to_owned())
    }

    /// The error as a line of text: `Write failed: ` and the reason.
    pub fn to_text(&self) -> (text: String)
        ensures
            self matches PobjError::WriteFailed(reason) && text@ == "Write failed: "@ + reason@,
    {
        match self {
            PobjError::WriteFailed(reason) => {
                let mut text = "Write failed: ".to_owned();
                text.append(reason.as_str());
                text
            },
        }
    }
}

/// A chain of erased values as contracts see it: each value by its model.
pub open spec fn erased_chain(chain: Seq<(Seq<char>, ErasedValue)>) -> Seq<
    (Seq<char>, ErasedModel),
> {
    Seq::new(chain.len(), |i: int| (chain[i].0, chain[i].1@))
}

/// The chains of a table of erased values, each as `erased_chain` gives it.
pub open spec fn erased_slots(slots: Seq<Seq<(Seq<char>, ErasedValue)>>) -> Seq<
    Seq<(Seq<char>, ErasedModel)>,
> {
    Seq::new(slots.len(), |i: int| erased_chain(slots[i]))
}

/// What a list of owned pairs of erased values holds: keys by their
/// characters, values by their models.
pub open spec fn pairs_model(pairs: Seq<(String, ErasedValue)>) -> Seq<(Seq<char>, ErasedModel)> {
    Seq::new(pairs.len(), |i: int| (pairs[i].0@, pairs[i].1@))
}

/// What a typed lookup returns when the entry found holds `stored`: the value
/// where it is of type `T`, nothing where it is of another type or where no
/// entry was found.
pub open spec fn typed<T: CloneableAny>(stored: Option<ErasedModel>, found: Option<T>) -> bool {
    match stored {
        Some(model) => if T::holds(model) {
            found is Some && found->0.erased() == model
        } else {
            found is None
        },
        None => found is None,
    }
}

/// Looking up in a chain of models gives the model of what looking up in the
/// chain of values gives.
pub proof fn lemma_first_match_erased(chain: Seq<(Seq<char>, ErasedValue)>, key: Seq<char>)
    ensures
        first_match(erased_chain(chain), key) == match first_match(chain, key) {
            Some(value) => Some(value@),
            None => None,
        },
    decreases chain.len(),
{
    if chain.len() > 0 {
        assert(erased_chain(chain).drop_first() =~= erased_chain(chain.drop_first()));
        lemma_first_match_erased(chain.drop_first(), key);
    }
}

/// The models of all entries are the entries of the chains of models.
pub proof fn lemma_all_entries_erased(slots: Seq<Seq<(Seq<char>, ErasedValue)>>)
    ensures
        all_entries(erased_slots(slots)) == erased_chain(all_entries(slots)),
    decreases slots.len(),
{
    if slots.len() > 0 {
        assert(erased_slots(slots).drop_last() =~= erased_slots(slots.drop_last()));
        lemma_all_entries_erased(slots.drop_last());
        assert(all_entries(erased_slots(slots)) =~= erased_chain(all_entries(slots)));
    } else {
        assert(all_entries(erased_slots(slots)) =~= erased_chain(all_entries(slots)));
    }
}

/// Picking the entries of a slot and taking models can be done in either
/// order.
pub proof fn lemma_hashed_to_erased(chain: Seq<(Seq<char>, ErasedValue)>, n: nat, slot: int)
    ensures
        hashed_to(erased_chain(chain), n, slot) == erased_chain(hashed_to(chain, n, slot)),
    decreases chain.len(),
{
    if chain.len() > 0 {
        assert(erased_chain(chain).drop_first() =~= erased_chain(chain.drop_first()));
        lemma_hashed_to_erased(chain.drop_first(), n, slot);
        assert(hashed_to(erased_chain(chain), n, slot) =~= erased_chain(
            hashed_to(chain, n, slot),
        ));
    } else {
        assert(hashed_to(erased_chain(chain), n, slot) =~= erased_chain(
            hashed_to(chain, n, slot),
        ));
    }
}

/// A value stored under a key comes back from a lookup of that key as the
/// type it was stored as, and holds what was stored.
pub proof fn lemma_put_then_get<T: CloneableAny>(
    slots: Seq<Seq<(Seq<char>, ErasedModel)>>,
    key: Seq<char>,
    value: T,
    found: Option<T>,
)
    requires
        slots.len() > 0,
        typed(lookup(inserted(slots, key, value.erased()), key), found),
    ensures
        found is Some,
        found->0.erased() == value.erased(),
{
    lemma_insert_then_lookup(slots, key, value.erased());
    value.lemma_erased_holds();
}

/// A value stored under a key does not come back from a lookup of that key
/// as a type that its erased form is not of.
pub proof fn lemma_get_as_other_type<T: CloneableAny, U: CloneableAny>(
    slots: Seq<Seq<(Seq<char>, ErasedModel)>>,
    key: Seq<char>,
    value: T,
    found: Option<U>,
)
    requires
        slots.len() > 0,
        !U::holds(value.erased()),
        typed(lookup(inserted(slots, key, value.erased()), key), found),
    ensures
        found is None,
{
    lemma_insert_then_lookup(slots, key, value.erased());
}

/// An integer stored under a key comes back as that integer and not as a
/// string, whatever is stored under other keys afterwards.
pub proof fn lemma_integer_is_no_text(
    slots: Seq<Seq<(Seq<char>, ErasedModel)>>,
    key: Seq<char>,
    number: i32,
    other: Seq<char>,
    text: String,
    as_number: Option<i32>,
    as_text: Option<String>,
)
    requires
        slots.len() > 0,
        other != key,
        typed(
            lookup(inserted(inserted(slots, key, number.erased()), other, text.erased()), key),
            as_number,
        ),
        typed(
            lookup(inserted(inserted(slots, key, number.erased()), other, text.erased()), key),
            as_text,
        ),
    ensures
        as_number == Some(number),
        as_text is None,
{
    let stored = inserted(slots, key, number.erased());
    lemma_insert_then_lookup(slots, key, number.erased());
    lemma_insert_keeps_others(stored, other, text.erased(), key);
}

/// A clone of a chain of erased values has the models of the chain.
pub proof fn lemma_cloned_erased(
    chain: Seq<(Seq<char>, ErasedValue)>,
    copy: Seq<(Seq<char>, ErasedValue)>,
)
    requires
        cloned_entries(chain, copy),
    ensures
        erased_chain(copy) == erased_chain(chain),
{
    assert forall|i: int| 0 <= i < chain.len() implies erased_chain(copy)[i] == erased_chain(
        chain,
    )[i] by {
        assert(copy[i].0 == chain[i].0);
        assert(cloned(chain[i].1, copy[i].1));
    }
    assert(erased_chain(copy) =~= erased_chain(chain));
}

/// A table from string keys to values of any storable type.
pub struct Pobj {
    table: Table<ErasedValue>,
}

impl View for Pobj {
    type V = Seq<Seq<(Seq<char>, ErasedModel)>>;

    /// The chains, slot by slot, each value by its model.
    closed spec fn view(&self) -> Seq<Seq<(Seq<char>, ErasedModel)>> {
        erased_slots(self.table@)
    }
}

impl Pobj {
    /// What `new` establishes and every method keeps: the table has a slot,
    /// and its entries can be counted in a `usize`.
    pub closed spec fn wf(&self) -> bool {
        self.table.wf()
    }

    /// A well-formed table has a slot, and a number of entries that a `usize`
    /// holds.
    pub proof fn lemma_wf(&self)
        requires
            self.wf(),
        ensures
            self@.len() > 0,
            all_entries(self@).len() <= usize::MAX,
    {
        self.table.lemma_wf();
        lemma_all_entries_erased(self.table@);
    }

    /// A table of `DEFAULT_SIZE` empty slots.
    pub fn new() -> (table: Self)
        ensures
            table.wf(),
            table@ == blank_slots::<ErasedModel>(DEFAULT_SIZE as nat),
    {
        let table = Pobj { table: Table::new() };
        assert(table@ =~~= blank_slots::<ErasedModel>(DEFAULT_SIZE as nat));
        table
    }

    /// The number of slots.
    pub fn len(&self) -> (n: usize)
        ensures
            n == self@.len(),
            self.wf() ==> n > 0,
    {
        self.table.len()
    }

    /// The number of entries in all the slots together.
    pub fn size(&self) -> (n: usize)
        requires
            self.wf(),
        ensures
            n == all_entries(self@).len(),
    {
        proof {
            lemma_all_entries_erased(self.table@);
        }
        self.table.size()
    }

    /// The slot that `key` belongs to.
    pub fn hash(&self, key: &str) -> (idx: usize)
        requires
            self.wf(),
        ensures
            idx == slot_of(key@, self@.len()),
            idx < self@.len(),
    {
        self.table.hash(key)
    }

    /// Puts an entry in front of the chain at `idx`, if there is such a slot.
    /// This is the write that follows an index computed beforehand: with an
    /// index that names no slot, nothing is written.
    pub fn put_at<T: CloneableAny>(&mut self, idx: usize, key: &str, data: T) -> (done: Result<
        (),
        PobjError,
    >)
        requires
            old(self).wf(),
            all_entries(old(self)@).len() < usize::MAX,
        ensures
            final(self).wf(),
            idx < old(self)@.len() ==> done is Ok && final(self)@ == inserted_at(
                old(self)@,
                idx as int,
                key@,
                data.erased(),
            ),
            idx >= old(self)@.len() ==> final(self)@ == old(self)@ && (done matches Err(
                PobjError::WriteFailed(reason),
            ) && reason@ == "Could not grab bucket from hash table!"@),
    {
        proof {
            lemma_all_entries_erased(self.table@);
        }
        let boxed = data.into_box();
        match self.table.put_at(idx, key, boxed) {
            Ok(()) => {
                assert(self@ =~~= inserted_at(old(self)@, idx as int, key@, data.erased()));
                Ok(())
            },
            Err(TableError::WriteFailed(reason)) => Err(PobjError::WriteFailed(reason)),
        }
    }

    /// Stores `data` under `key`: a new entry in front of the chain that `key`
    /// hashes to. What was stored under `key` before stays behind it.
    pub fn put<T: CloneableAny>(&mut self, key: &str, data: T) -> (done: Result<(), PobjError>)
        requires
            old(self).wf(),
            all_entries(old(self)@).len() < usize::MAX,
        ensures
            final(self).wf(),
            done is Ok,
            final(self)@ == inserted(old(self)@, key@, data.erased()),
    {
        let idx = self.hash(key);
        self.put_at(idx, key, data)
    }

    /// Gives the table `slots` slots and moves every entry to the slot that
    /// its key hashes to among them. Entries that share a new slot keep the
    /// order they had: slot by slot, and within a slot the newest first.
    pub fn resize(&mut self, slots: usize)
        requires
            old(self).wf(),
            slots > 0,
        ensures
            final(self).wf(),
            final(self)@ == rehashed(old(self)@, slots as nat),
    {
        self.table.resize(slots);
        proof {
            lemma_all_entries_erased(old(self).table@);
            assert forall|slot: int| 0 <= slot < slots implies (#[trigger] self@[slot]) == rehashed(
                old(self)@,
                slots as nat,
            )[slot] by {
                lemma_hashed_to_erased(all_entries(old(self).table@), slots as nat, slot);
            }
            assert(self@ =~= rehashed(old(self)@, slots as nat));
        }
    }

    /// The value found under `key`, as a `T`: of several entries with that
    /// key, the one put last. `None` where there is no entry under `key`, and
    /// where the value found is not a `T`.
    pub fn get<T: CloneableAny>(&self, key: &str) -> (found: Option<T>)
        requires
            self.wf(),
        ensures
            typed(lookup(self@, key@), found),
    {
        proof {
            let idx = slot_of(key@, self@.len()) as int;
            self.lemma_wf();
            lemma_slot_in_range(key@, self@.len());
            assert(self@[idx] == erased_chain(self.table@[idx]));
            lemma_first_match_erased(self.table@[idx], key@);
        }
        match self.table.get_ref(key) {
            Some(value) => T::downcast(value),
            None => None,
        }
    }

    /// A copy of the chain at `idx`, which later writes to the table leave as
    /// it is; `None` where there is no such slot.
    pub fn get_read_bucket(&self, idx: usize) -> (snapshot: Option<Bucket<ErasedValue>>)
        ensures
            idx < self@.len() ==> snapshot is Some && erased_chain(snapshot->0@) == self@[idx as int],
            idx >= self@.len() ==> snapshot is None,
    {
        let snapshot = self.table.get_read_bucket(idx);
        proof {
            if idx < self@.len() {
                lemma_cloned_erased(self.table@[idx as int], snapshot->0@);
            }
        }
        snapshot
    }

    /// Every entry with a clone of its value: slot by slot, and within a slot
    /// the newest first.
    pub fn items(&self) -> (out: Vec<(String, ErasedValue)>)
        ensures
            pairs_model(out@) == all_entries(self@),
    {
        let out = self.table.items();
        proof {
            lemma_all_entries_erased(self.table@);
            lemma_cloned_erased(all_entries(self.table@), pairs_view(out@));
            assert(pairs_model(out@) =~= erased_chain(pairs_view(out@)));
        }
        out
    }
}

} // verus!
