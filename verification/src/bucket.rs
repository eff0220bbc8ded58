//! The collision chain behind one slot of a table.

use crate::node::{cloned_entries, entries_from, Node};
use vstd::prelude::*;

verus! {

/// The first value stored under `key` in `chain`, going from the front.
pub open spec fn first_match<V>(chain: Seq<(Seq<char>, V)>, key: Seq<char>) -> Option<V>
    decreases chain.len(),
{
    if chain.len() == 0 {
        None
    } else if chain[0].0 == key {
        Some(chain[0].1)
    } else {
        first_match(chain.drop_first(), key)
    }
}

/// Whether `at` is the place of the first entry under `key` in `chain`.
pub open spec fn is_first_under<V>(chain: Seq<(Seq<char>, V)>, key: Seq<char>, at: int) -> bool {
    &&& 0 <= at < chain.len()
    &&& chain[at].0 == key
    &&& forall|j: int| 0 <= j < at ==> (#[trigger] chain[j]).0 != key
}

/// What `first_match` finds is the value of the entry under the key that
/// has no entry under the key in front of it; it finds nothing only where no
/// entry is under the key.
pub proof fn lemma_first_match_is_first<V>(chain: Seq<(Seq<char>, V)>, key: Seq<char>)
    ensures
        match first_match(chain, key) {
            Some(value) => exists|at: int| #[trigger]
                is_first_under(chain, key, at) && chain[at].1 == value,
            None => forall|j: int| 0 <= j < chain.len() ==> (#[trigger] chain[j]).0 != key,
        },
    decreases chain.len(),
{
    if chain.len() > 0 {
        if chain[0].0 == key {
            assert(is_first_under(chain, key, 0));
        } else {
            let rest = chain.drop_first();
            lemma_first_match_is_first(rest, key);
            match first_match(rest, key) {
                Some(value) => {
                    let at = choose|at: int| #[trigger]
                        is_first_under(rest, key, at) && rest[at].1 == value;
                    assert forall|j: int| 0 <= j < at + 1 implies (#[trigger] chain[j]).0 != key by {
                        if j > 0 {
                            assert(chain[j] == rest[j - 1]);
                        }
                    }
                    assert(is_first_under(chain, key, at + 1));
                },
                None => {
                    assert forall|j: int| 0 <= j < chain.len() implies (#[trigger] chain[j]).0
                        != key by {
                        if j > 0 {
                            assert(chain[j] == rest[j - 1]);
                        }
                    }
                },
            }
        }
    }
}

/// The entries from an optional owned node on: none where there is no node.
pub open spec fn entries_behind<V>(link: Option<Box<Node<V>>>) -> Seq<(Seq<char>, V)> {
    match link {
        Some(node) => node.entries(),
        None => Seq::empty(),
    }
}

/// What a list of owned pairs holds: each key by its characters.
pub open spec fn pairs_view<V>(pairs: Seq<(String, V)>) -> Seq<(Seq<char>, V)> {
    Seq::new(pairs.len(), |i: int| (pairs[i].0@, pairs[i].1))
}

/// The chains of a row of buckets, in the order of the row.
pub open spec fn chains_of<V>(buckets: Seq<Bucket<V>>) -> Seq<Seq<(Seq<char>, V)>> {
    Seq::new(buckets.len(), |i: int| buckets[i]@)
}

/// `str`'s `==`, which vstd gives no specification. Trusted, not proved:
/// the result is `true` exactly when the two slices hold the same characters
/// in the same order.
#[verifier::external_body]
fn same_text(a: &str, b: &str) -> (same: bool)
    ensures
        same == (a@ == b@),
{
    a == b
}

/// A singly linked chain of nodes, newest first, and its length.
pub struct Bucket<V> {
    head: Option<Box<Node<V>>>,
    length: usize,
}

impl<V> View for Bucket<V> {
    type V = Seq<(Seq<char>, V)>;

    /// The entries of the chain, newest first.
    closed spec fn view(&self) -> Seq<(Seq<char>, V)> {
        entries_behind(self.head)
    }
}

impl<V> Bucket<V> {
    #[verifier::type_invariant]
    spec fn counted(&self) -> bool {
        self.length == self@.len()
    }

    /// An empty chain.
    pub fn new() -> (bucket: Self)
        ensures
            bucket@ == Seq::<(Seq<char>, V)>::empty(),
    {
        Bucket { head: None, length: 0 }
    }

    /// The number of entries.
    pub fn len(&self) -> (n: usize)
        ensures
            n == self@.len(),
    {
        proof {
            use_type_invariant(self);
        }
        self.length
    }

    /// The first node of the chain, borrowed, if there is one.
    pub fn get_head(&self) -> (head: Option<&Node<V>>)
        ensures
            entries_from(head) == self@,
            head is Some <==> self@.len() > 0,
    {
        match &self.head {
            Some(node) => Some(&**node),
            None => None,
        }
    }

    /// Puts a new entry in front of the chain. An entry already stored under
    /// `key` stays where it is, behind the new one.
    pub fn add(&mut self, key: &str, data: V)
        requires
            old(self)@.len() < usize::MAX,
        ensures
            final(self)@ == seq![(key@, data)] + old(self)@,
    {
        self.push_front(key.to_owned(), data);
    }

    /// `add`, with a key that is owned already.
    pub fn push_front(&mut self, key: String, data: V)
        requires
            old(self)@.len() < usize::MAX,
        ensures
            final(self)@ == seq![(key@, data)] + old(self)@,
    {
        let mut chain = Bucket::new();
        std::mem::swap(self, &mut chain);
        proof {
            use_type_invariant(&chain);
        }
        let mut node = Node { key, data, next: None };
        if let Some(head) = chain.head {
            node.set_next(*head);
        }
        *self = Bucket { head: Some(Box::new(node)), length: chain.length + 1 };
    }

    /// Takes the chain apart: its entries, newest first.
    pub fn into_vec(self) -> (out: Vec<(String, V)>)
        ensures
            pairs_view(out@) == self@,
    {
        let mut out: Vec<(String, V)> = Vec::new();
        let mut cur = self.head;
        assert(pairs_view(out@) + entries_behind(cur) =~= self@);
        loop
            invariant
                pairs_view(out@) + entries_behind(cur) == self@,
            ensures
                pairs_view(out@) == self@,
            decreases entries_behind(cur).len(),
        {
            match cur {
                Some(boxed) => {
                    let ghost before = out@;
                    let node = *boxed;
                    out.push((node.key, node.data));
                    cur = node.next;
                    assert(pairs_view(out@) =~= pairs_view(before) + seq![
                        (node.key@, node.data),
                    ]);
                    assert(pairs_view(out@) + entries_behind(cur) =~= self@);
                },
                None => {
                    assert(pairs_view(out@) =~= self@);
                    break ;
                },
            }
        }
        out
    }

    /// The value of the first entry under `key`, going from the front: of
    /// several entries with one key, the one added last.
    pub fn get_value_from_key(&self, key: &str) -> (found: Option<&V>)
        ensures
            found is Some <==> first_match(self@, key@) is Some,
            found is Some ==> *found->0 == first_match(self@, key@)->0,
    {
        let mut cur = self.get_head();
        loop
            invariant
                first_match(self@, key@) == first_match(entries_from(cur), key@),
            decreases entries_from(cur).len(),
        {
            match cur {
                Some(node) => {
                    if same_text(node.key.as_str(), key) {
                        return Some(&node.data);
                    }
                    cur = node.get_next();
                },
                None => {
                    return None;
                },
            }
        }
    }

    /// A cursor at the front of the chain. Each call makes a fresh one.
    pub fn iter(&self) -> (cursor: BucketIter<'_, V>)
        ensures
            cursor.remaining() == self@,
    {
        BucketIter { cur: self.get_head() }
    }
}

impl<V: Clone> Bucket<V> {
    /// The entries, newest first, each with a clone of its value.
    pub fn to_vec(&self) -> (out: Vec<(String, V)>)
        ensures
            cloned_entries(self@, pairs_view(out@)),
    {
        let mut out: Vec<(String, V)> = Vec::new();
        let mut cur = self.get_head();
        loop
            invariant
                out@.len() + entries_from(cur).len() == self@.len(),
                entries_from(cur) == self@.skip(out@.len() as int),
                cloned_entries(self@.take(out@.len() as int), pairs_view(out@)),
            ensures
                cloned_entries(self@, pairs_view(out@)),
            decreases entries_from(cur).len(),
        {
            match cur {
                Some(node) => {
                    let ghost before = out@;
                    out.push((node.key.clone(), node.data.clone()));
                    cur = node.get_next();
                    proof {
                        let n = before.len() as int;
                        assert(self@.skip(n)[0] == self@[n]);
                        assert(self@.skip(n).drop_first() =~= self@.skip(n + 1));
                        assert forall|i: int| 0 <= i < n + 1 implies (#[trigger] pairs_view(
                            out@,
                        )[i]).0 == self@.take(n + 1)[i].0 && cloned(
                            self@.take(n + 1)[i].1,
                            pairs_view(out@)[i].1,
                        ) by {
                            if i < n {
                                assert(pairs_view(out@)[i] == pairs_view(before)[i]);
                                assert(self@.take(n + 1)[i] == self@.take(n)[i]);
                            }
                        }
                    }
                },
                None => {
                    assert(self@.take(out@.len() as int) =~= self@);
                    break ;
                },
            }
        }
        out
    }
}

impl<V: Clone> Clone for Bucket<V> {
    /// A deep copy of the chain: every node, every value cloned.
    fn clone(&self) -> (out: Self)
        ensures
            cloned_entries(self@, out@),
    {
        proof {
            use_type_invariant(self);
        }
        let head = match &self.head {
            Some(node) => Some(Box::new((**node).clone())),
            None => None,
        };
        Bucket { head, length: self.length }
    }
}

/// A cursor over a chain: it hands the entries out one by one, front first,
/// and leaves the chain as it is.
pub struct BucketIter<'a, V> {
    cur: Option<&'a Node<V>>,
}

impl<'a, V> BucketIter<'a, V> {
    /// The entries not handed out yet.
    pub closed spec fn remaining(&self) -> Seq<(Seq<char>, V)> {
        entries_from(self.cur)
    }

    /// A cursor with nothing left to hand out.
    pub fn empty() -> (cursor: Self)
        ensures
            cursor.remaining() == Seq::<(Seq<char>, V)>::empty(),
    {
        BucketIter { cur: None }
    }
}

impl<'a, V: Clone> BucketIter<'a, V> {
    /// The next entry, its value cloned; `None` once the chain is used up, and
    /// from then on.
    pub fn next(&mut self) -> (item: Option<(String, V)>)
        ensures
            match item {
                Some(pair) => {
                    &&& old(self).remaining().len() > 0
                    &&& pair.0@ == old(self).remaining()[0].0
                    &&& cloned(old(self).remaining()[0].1, pair.1)
                    &&& final(self).remaining() == old(self).remaining().drop_first()
                },
                None => old(self).remaining().len() == 0 && final(self).remaining().len() == 0,
            },
    {
        match self.cur {
            Some(node) => {
                let item = (node.key.clone(), node.data.clone());
                self.cur = node.get_next();
                Some(item)
            },
            None => None,
        }
    }
}

} // verus!
