//! One link of a collision chain.

use vstd::prelude::*;

verus! {

/// A key, its value, and the owned link to the rest of the chain.
pub struct Node<V> {
    pub data: V,
    pub key: String,
    pub next: Option<Box<Node<V>>>,
}

/// The entries from an optional node on: none where there is no node.
pub open spec fn entries_from<V>(link: Option<&Node<V>>) -> Seq<(Seq<char>, V)> {
    match link {
        Some(node) => node.entries(),
        None => Seq::empty(),
    }
}

impl<V> Node<V> {
    /// The chain that starts at this node, front first, each link as its key
    /// and its value.
    pub open spec fn entries(&self) -> Seq<(Seq<char>, V)>
        decreases self,
    {
        seq![(self.key@, self.data)] + match self.next {
            Some(rest) => rest.entries(),
            None => Seq::empty(),
        }
    }

    /// A node on its own: no successor.
    pub fn new(key: &str, data: V) -> (node: Self)
        ensures
            node.key@ == key@,
            node.data == data,
            node.next is None,
            node.entries() == seq![(key@, data)],
    {
        let node = Node { key: key.to_owned(), data, next: None };
        assert(node.entries() =~= seq![(key@, data)]);
        node
    }

    /// Installs `next` as the successor and drops the one that was there.
    pub fn set_next(&mut self, next: Node<V>)
        ensures
            final(self).key == old(self).key,
            final(self).data == old(self).data,
            final(self).next == Some(Box::new(next)),
            final(self).entries() == seq![(old(self).key@, old(self).data)] + next.entries(),
    {
        self.next = Some(Box::new(next));
    }

    /// The successor, borrowed, if there is one.
    pub fn get_next(&self) -> (next: Option<&Node<V>>)
        ensures
            self.next is Some ==> next == Some(&*self.next->0),
            self.next is None ==> next is None,
            entries_from(next) == self.entries().drop_first(),
    {
        assert(self.entries().drop_first() =~= match self.next {
            Some(rest) => rest.entries(),
            None => Seq::empty(),
        });
        match &self.next {
            Some(rest) => Some(&**rest),
            None => None,
        }
    }
}

/// Whether `copy` is, link by link, a clone of `chain`: the same keys in the
/// same order, each value a clone of the one in its place.
pub open spec fn cloned_entries<V: Clone>(
    chain: Seq<(Seq<char>, V)>,
    copy: Seq<(Seq<char>, V)>,
) -> bool {
    &&& copy.len() == chain.len()
    &&& forall|i: int|
        0 <= i < chain.len() ==> (#[trigger] copy[i]).0 == chain[i].0 && cloned(
            chain[i].1,
            copy[i].1,
        )
}

/// A clone of one chain followed by a clone of another is a clone of the two
/// chains joined.
pub proof fn lemma_cloned_entries_join<V: Clone>(
    chain: Seq<(Seq<char>, V)>,
    copy: Seq<(Seq<char>, V)>,
    more: Seq<(Seq<char>, V)>,
    more_copy: Seq<(Seq<char>, V)>,
)
    requires
        cloned_entries(chain, copy),
        cloned_entries(more, more_copy),
    ensures
        cloned_entries(chain + more, copy + more_copy),
{
    let joined = chain + more;
    let joined_copy = copy + more_copy;
    assert forall|i: int| 0 <= i < joined.len() implies (#[trigger] joined_copy[i]).0
        == joined[i].0 && cloned(joined[i].1, joined_copy[i].1) by {
        if i < chain.len() {
            assert(joined_copy[i] == copy[i]);
        } else {
            assert(joined_copy[i] == more_copy[i - chain.len()]);
        }
    }
}

impl<V: Clone> Clone for Node<V> {
    /// A deep copy: this node and every node behind it.
    fn clone(&self) -> (out: Self)
        ensures
            cloned_entries(self.entries(), out.entries()),
        decreases self,
    {
        let next = match &self.next {
            Some(rest) => Some(Box::new((**rest).clone())),
            None => None,
        };
        let out = Node { key: self.key.clone(), data: self.data.clone(), next };
        assert(cloned_entries(self.entries(), out.entries())) by {
            let tail = match self.next {
                Some(rest) => rest.entries(),
                None => Seq::empty(),
            };
            let out_tail = match out.next {
                Some(rest) => rest.entries(),
                None => Seq::empty(),
            };
            assert(cloned_entries(tail, out_tail));
            assert forall|i: int| 0 <= i < self.entries().len() implies (
            #[trigger] out.entries()[i]).0 == self.entries()[i].0 && cloned(
                self.entries()[i].1,
                out.entries()[i].1,
            ) by {
                if i > 0 {
                    assert(out.entries()[i] == out_tail[i - 1]);
                    assert(self.entries()[i] == tail[i - 1]);
                }
            }
        }
        out
    }
}

} // verus!
