//! A hash table of one value type: a row of slots, each with its chain. The
//! number of slots changes only when the table is resized.

use crate::bucket::{chains_of, pairs_view, Bucket, BucketIter};
use crate::node::{cloned_entries, lemma_cloned_entries_join};
use crate::hashing::{hash_key, slot_of};
use crate::slots::{
    all_entries, blank_slots, hashed_to, inserted, inserted_at, lemma_all_entries_skip,
    lemma_all_entries_take, lemma_all_entries_update, lemma_blank_is_empty, lookup, rehashed,
};
use vstd::prelude::*;

verus! {

/// The number of slots of a new table.
pub const DEFAULT_SIZE: usize = 16;

/// Why a write did not happen.
#[derive(Debug)]
pub enum TableError {
    WriteFailed(String),
}

impl TableError {
    /// A failed write, with the reason.
    pub fn new(message: &str) -> (err: Self)
        ensures
            err matches TableError::WriteFailed(reason) && reason@ == message@,
    {
        TableError::WriteFailed(message.to_owned())
    }

    /// The error as a line of text: `Write failed: ` and the reason.
    pub fn to_text(&self) -> (text: String)
        ensures
            self matches TableError::WriteFailed(reason) && text@ == "Write failed: "@ + reason@,
    {
        match self {
            TableError::WriteFailed(reason) => {
                let mut text = "Write failed: ".to_owned();
                text.append(reason.as_str());
                text
            },
        }
    }
}

/// A table from string keys to values of type `V`.
pub struct Table<V> {
    buckets: Vec<Bucket<V>>,
}

impl<V> View for Table<V> {
    type V = Seq<Seq<(Seq<char>, V)>>;

    /// The chains, slot by slot.
    closed spec fn view(&self) -> Seq<Seq<(Seq<char>, V)>> {
        chains_of(self.buckets@)
    }
}

impl<V> Table<V> {
    /// What `new` establishes and every method keeps: the table has a slot,
    /// and its entries can be counted in a `usize`.
    pub closed spec fn wf(&self) -> bool {
        &&& self.buckets@.len() > 0
        &&& all_entries(self@).len() <= usize::MAX
    }

    /// A well-formed table has a slot, and a number of entries that a `usize`
    /// holds.
    pub proof fn lemma_wf(&self)
        requires
            self.wf(),
        ensures
            self@.len() > 0,
            all_entries(self@).len() <= usize::MAX,
    {
    }

    /// A table of `DEFAULT_SIZE` empty slots.
    pub fn new() -> (table: Self)
        ensures
            table.wf(),
            table@ == blank_slots::<V>(DEFAULT_SIZE as nat),
    {
        let mut buckets: Vec<Bucket<V>> = Vec::with_capacity(DEFAULT_SIZE);
        for n in 0..DEFAULT_SIZE
            invariant
                buckets@.len() == n,
                forall|i: int|
                    0 <= i < n ==> (#[trigger] buckets@[i])@ == Seq::<(Seq<char>, V)>::empty(),
        {
            buckets.push(Bucket::new());
        }
        let table = Table { buckets };
        proof {
            assert(table@ =~= blank_slots::<V>(DEFAULT_SIZE as nat));
            lemma_blank_is_empty::<V>(DEFAULT_SIZE as nat);
        }
        table
    }

    /// The number of slots.
    pub fn len(&self) -> (n: usize)
        ensures
            n == self@.len(),
            self.wf() ==> n > 0,
    {
        self.buckets.len()
    }

    /// The number of entries in all the slots together.
    pub fn size(&self) -> (n: usize)
        requires
            self.wf(),
        ensures
            n == all_entries(self@).len(),
    {
        let mut total: usize = 0;
        assert(self@.take(0) =~= Seq::empty());
        for i in 0..self.buckets.len()
            invariant
                self@.len() == self.buckets@.len(),
                forall|j: int| 0 <= j < self@.len() ==> (#[trigger] self@[j]) == self.buckets@[j]@,
                total == all_entries(self@.take(i as int)).len(),
                all_entries(self@).len() <= usize::MAX,
        {
            proof {
                assert(self@.take(i + 1).drop_last() =~= self@.take(i as int));
                lemma_all_entries_take(self@, i + 1);
            }
            total += self.buckets[i].len();
        }
        assert(self@.take(self@.len() as int) =~= self@);
        total
    }

    /// The slot that `key` belongs to.
    pub fn hash(&self, key: &str) -> (idx: usize)
        requires
            self.wf(),
        ensures
            idx == slot_of(key@, self@.len()),
            idx < self@.len(),
    {
        hash_key(key, self.len())
    }

    /// Puts an entry in front of the chain at `idx`, if there is such a slot.
    /// This is the write that follows an index computed beforehand: with an
    /// index that names no slot, nothing is written.
    pub fn put_at(&mut self, idx: usize, key: &str, data: V) -> (done: Result<(), TableError>)
        requires
            old(self).wf(),
            all_entries(old(self)@).len() < usize::MAX,
        ensures
            final(self).wf(),
            idx < old(self)@.len() ==> done is Ok && final(self)@ == inserted_at(
                old(self)@,
                idx as int,
                key@,
                data,
            ),
            idx >= old(self)@.len() ==> final(self)@ == old(self)@ && (done matches Err(
                TableError::WriteFailed(reason),
            ) && reason@ == "Could not grab bucket from hash table!"@),
    {
        if idx < self.buckets.len() {
            proof {
                lemma_all_entries_update(self@, idx as int, Seq::empty());
                lemma_all_entries_update(self@, idx as int, seq![(key@, data)] + self@[idx as int]);
            }
            self.buckets[idx].add(key, data);
            assert(self@ =~= inserted_at(old(self)@, idx as int, key@, data));
            Ok(())
        } else {
            Err(TableError::new("Could not grab bucket from hash table!"))
        }
    }

    /// Stores `data` under `key`: a new entry in front of the chain that `key`
    /// hashes to. What was stored under `key` before stays behind it.
    pub fn put(&mut self, key: &str, data: V) -> (done: Result<(), TableError>)
        requires
            old(self).wf(),
            all_entries(old(self)@).len() < usize::MAX,
        ensures
            final(self).wf(),
            done is Ok,
            final(self)@ == inserted(old(self)@, key@, data),
    {
        let idx = self.hash(key);
        self.put_at(idx, key, data)
    }

    /// Gives the table `slots` slots and moves every entry to the slot that
    /// its key hashes to among them. Entries that share a new slot keep the
    /// order they had: slot by slot, and within a slot the newest first.
    pub fn resize(&mut self, slots: usize)
        requires
            old(self).wf(),
            slots > 0,
        ensures
            final(self).wf(),
            final(self)@ == rehashed(old(self)@, slots as nat),
    {
        let ghost all = all_entries(self@);
        let mut fresh: Vec<Bucket<V>> = Vec::new();
        for n in 0..slots
            invariant
                fresh@.len() == n,
                forall|j: int| 0 <= j < n ==> (#[trigger] fresh@[j])@ == Seq::<(Seq<char>, V)>::empty(),
        {
            fresh.push(Bucket::new());
        }
        let mut emptied: Vec<Bucket<V>> = Vec::new();
        std::mem::swap(&mut self.buckets, &mut emptied);
        let ghost mut moved: Seq<(Seq<char>, V)> = Seq::empty();
        proof {
            assert(chains_of(fresh@) =~= blank_slots::<V>(slots as nat));
            lemma_blank_is_empty::<V>(slots as nat);
            assert(all_entries(chains_of(emptied@)) + moved =~= all);
        }
        while emptied.len() > 0
            invariant
                slots > 0,
                fresh@.len() == slots,
                all.len() <= usize::MAX,
                all == all_entries(chains_of(emptied@)) + moved,
                all_entries(chains_of(fresh@)).len() == moved.len(),
                forall|j: int|
                    0 <= j < slots ==> (#[trigger] fresh@[j])@ == hashed_to(moved, slots as nat, j),
            decreases emptied.len(),
        {
            let ghost row = chains_of(emptied@);
            let bucket = emptied.pop().unwrap();
            let mut chain = bucket.into_vec();
            proof {
                assert(chains_of(emptied@) =~= row.drop_last());
                assert(pairs_view(chain@) == row.last());
                assert(all == all_entries(chains_of(emptied@)) + pairs_view(chain@) + moved);
            }
            while chain.len() > 0
                invariant
                    slots > 0,
                    fresh@.len() == slots,
                    all.len() <= usize::MAX,
                    all == all_entries(chains_of(emptied@)) + pairs_view(chain@) + moved,
                    all_entries(chains_of(fresh@)).len() == moved.len(),
                    forall|j: int|
                        0 <= j < slots ==> (#[trigger] fresh@[j])@ == hashed_to(
                            moved,
                            slots as nat,
                            j,
                        ),
                decreases chain.len(),
            {
                let ghost rest = pairs_view(chain@);
                let ghost before = chains_of(fresh@);
                let (key, data) = chain.pop().unwrap();
                let idx = hash_key(key.as_str(), slots);
                proof {
                    assert(rest =~= pairs_view(chain@) + seq![(key@, data)]);
                    lemma_all_entries_update(before, idx as int, Seq::empty());
                    lemma_all_entries_update(
                        before,
                        idx as int,
                        seq![(key@, data)] + before[idx as int],
                    );
                }
                fresh[idx].push_front(key, data);
                proof {
                    let grown = seq![(key@, data)] + moved;
                    assert(grown.drop_first() =~= moved);
                    assert(chains_of(fresh@) =~= before.update(
                        idx as int,
                        seq![(key@, data)] + before[idx as int],
                    ));
                    assert(all =~= all_entries(chains_of(emptied@)) + pairs_view(chain@) + grown);
                    moved = grown;
                }
            }
            assert(pairs_view(chain@) =~= Seq::empty());
        }
        self.buckets = fresh;
        proof {
            assert(chains_of(emptied@) =~= Seq::empty());
            assert(moved =~= all);
            assert(self@ =~= rehashed(old(self)@, slots as nat));
        }
    }

    /// The value found under `key`, borrowed: of several entries with that
    /// key, the one put last.
    pub fn get_ref(&self, key: &str) -> (found: Option<&V>)
        requires
            self.wf(),
        ensures
            found is Some <==> lookup(self@, key@) is Some,
            found is Some ==> *found->0 == lookup(self@, key@)->0,
    {
        let idx = self.hash(key);
        self.buckets[idx].get_value_from_key(key)
    }
}

impl<V: Copy> Table<V> {
    /// The value found under `key`: of several entries with that key, the one
    /// put last.
    pub fn get(&self, key: &str) -> (found: Option<V>)
        requires
            self.wf(),
        ensures
            found == lookup(self@, key@),
    {
        match self.get_ref(key) {
            Some(value) => Some(*value),
            None => None,
        }
    }
}

impl<V: Clone> Table<V> {
    /// A copy of the chain at `idx`, which later writes to the table leave as
    /// it is; `None` where there is no such slot.
    pub fn get_read_bucket(&self, idx: usize) -> (snapshot: Option<Bucket<V>>)
        ensures
            idx < self@.len() ==> snapshot is Some && cloned_entries(
                self@[idx as int],
                snapshot->0@,
            ),
            idx >= self@.len() ==> snapshot is None,
    {
        if idx < self.buckets.len() {
            Some(self.buckets[idx].clone())
        } else {
            None
        }
    }

    /// Every entry with a clone of its value: slot by slot, and within a slot
    /// the newest first.
    pub fn items(&self) -> (out: Vec<(String, V)>)
        ensures
            cloned_entries(all_entries(self@), pairs_view(out@)),
    {
        let mut out: Vec<(String, V)> = Vec::new();
        assert(self@.take(0) =~= Seq::empty());
        for i in 0..self.buckets.len()
            invariant
                self@.len() == self.buckets@.len(),
                forall|j: int| 0 <= j < self@.len() ==> (#[trigger] self@[j]) == self.buckets@[j]@,
                cloned_entries(all_entries(self@.take(i as int)), pairs_view(out@)),
        {
            let ghost before = out@;
            let mut chain = self.buckets[i].to_vec();
            let ghost added = chain@;
            out.append(&mut chain);
            proof {
                assert(self@.take(i + 1).drop_last() =~= self@.take(i as int));
                assert(pairs_view(out@) =~= pairs_view(before) + pairs_view(added));
                lemma_cloned_entries_join(
                    all_entries(self@.take(i as int)),
                    pairs_view(before),
                    self@[i as int],
                    pairs_view(added),
                );
            }
        }
        assert(self@.take(self@.len() as int) =~= self@);
        out
    }

    /// A cursor before the first entry of the first slot.
    pub fn iter_items(&self) -> (cursor: TableIter<'_, V>)
        ensures
            cursor.wf(),
            cursor.remaining() == all_entries(self@),
    {
        let cursor = TableIter { buckets: &self.buckets, next_slot: 0, cur: BucketIter::empty() };
        assert(self@.skip(0) =~= self@);
        assert(cursor.remaining() =~= all_entries(self@));
        cursor
    }
}

/// A cursor over a table: it hands the entries out one by one, slot by slot
/// and within a slot the newest first, and leaves the table as it is.
pub struct TableIter<'a, V> {
    buckets: &'a Vec<Bucket<V>>,
    next_slot: usize,
    cur: BucketIter<'a, V>,
}

impl<'a, V> TableIter<'a, V> {
    /// The chains of the table that the cursor walks.
    closed spec fn chains(&self) -> Seq<Seq<(Seq<char>, V)>> {
        chains_of(self.buckets@)
    }

    /// What `iter_items` establishes and `next` keeps: the cursor stands
    /// inside its table.
    pub closed spec fn wf(&self) -> bool {
        self.next_slot <= self.buckets@.len()
    }

    /// The entries not handed out yet.
    pub closed spec fn remaining(&self) -> Seq<(Seq<char>, V)> {
        self.cur.remaining() + all_entries(self.chains().skip(self.next_slot as int))
    }
}

impl<'a, V: Clone> TableIter<'a, V> {
    /// The next entry, its value cloned; `None` once the table is used up, and
    /// from then on.
    pub fn next(&mut self) -> (item: Option<(String, V)>)
        requires
            old(self).wf(),
        ensures
            final(self).wf(),
            match item {
                Some(pair) => {
                    &&& old(self).remaining().len() > 0
                    &&& pair.0@ == old(self).remaining()[0].0
                    &&& cloned(old(self).remaining()[0].1, pair.1)
                    &&& final(self).remaining() == old(self).remaining().drop_first()
                },
                None => old(self).remaining().len() == 0 && final(self).remaining().len() == 0,
            },
    {
        loop
            invariant
                self.wf(),
                self.buckets == old(self).buckets,
                self.remaining() == old(self).remaining(),
            decreases self.buckets@.len() - self.next_slot,
        {
            let ghost before = self.cur.remaining();
            let ghost behind = all_entries(self.chains().skip(self.next_slot as int));
            match self.cur.next() {
                Some(pair) => {
                    assert(self.remaining() =~= (before + behind).drop_first());
                    return Some(pair);
                },
                None => {},
            }
            if self.next_slot >= self.buckets.len() {
                assert(self.chains().skip(self.next_slot as int) =~= Seq::<
                    Seq<(Seq<char>, V)>,
                >::empty());
                return None;
            }
            proof {
                lemma_all_entries_skip(self.chains(), self.next_slot as int);
                assert(before =~= Seq::empty());
            }
            self.cur = self.buckets[self.next_slot].iter();
            self.next_slot = self.next_slot + 1;
            assert(self.remaining() =~= old(self).remaining());
        }
    }
}

} // verus!
