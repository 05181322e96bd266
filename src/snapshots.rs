//! The snapshot store and the traversal of its layers.
use vstd::prelude::*;

use crate::chain::{cascade, counters_below, do_insert, weight, Node};
use crate::laws::lemma_cascade_keeps_count;
use crate::Layer;

verus! {

/// A history of values of `T`, kept as a chain of layers that are merged and
/// carried downward with a fixed branching ratio.
pub struct Snapshots<T: Layer> {
    ratio: u64,
    tick: u64,
    layers: Node<T>,
}

impl<T: Layer> Snapshots<T> {
    /// The branching ratio that the store was made with.
    pub closed spec fn spec_ratio(self) -> nat {
        self.ratio as nat
    }

    /// The number of insertions since the store was made.
    pub closed spec fn spec_insertions(self) -> nat {
        self.tick as nat
    }

    /// The retained layers, most recently touched first, as (value, counter)
    /// pairs.
    pub closed spec fn layers(self) -> Seq<(T, u64)> {
        self.layers.layers()
    }

    /// The values of the retained layers, most recently touched first.
    pub open spec fn values(self) -> Seq<T> {
        self.layers().map_values(|l: (T, u64)| l.0)
    }

    /// The invariant of every store: the ratio is positive, every counter lies
    /// in `0 ..= ratio - 1`, and the counters, read as a numeral in bijective
    /// base `ratio`, give the number of insertions.
    pub open spec fn wf(self) -> bool {
        &&& self.spec_ratio() >= 1
        &&& counters_below(self.spec_ratio(), self.layers())
        &&& self.spec_insertions() == weight(self.spec_ratio(), self.layers())
    }

    /// Makes an empty store with the given ratio: the number of snapshots on
    /// a layer that it takes to carry one down to the layer below.
    ///
    /// Returns `None` if `ratio` is 0.
    pub fn new(ratio: u64) -> (r: Option<Self>)
        ensures
            (match r {
                None => ratio == 0,
                Some(s) => {
                    &&& ratio >= 1
                    &&& s.wf()
                    &&& s.spec_ratio() == ratio
                    &&& s.spec_insertions() == 0
                    &&& s.layers().len() == 0
                },
            }),
    {
        if ratio < 1 {
            return None;
        }
        let layers = Node::End;
        Some(Snapshots { ratio, tick: 0, layers })
    }

    /// The value of the most recently touched layer, if there is one.
    pub fn last(&self) -> (r: Option<&T>)
        ensures
            (match r {
                None => self.layers().len() == 0,
                Some(v) => self.layers().len() > 0 && *v == self.layers()[0].0,
            }),
    {
        match &self.layers {
            Node::End => None,
            Node::Layer { value, counter: _, tail: _ } => Some(value),
        }
    }

    /// The number of insertions since the store was made.
    pub fn insertions(&self) -> (r: u64)
        ensures
            r == self.spec_insertions(),
    {
        self.tick
    }

    /// Inserts `value` as the newest snapshot and returns the extra of the
    /// merge that this insertion made, if any.
    pub fn insert(&mut self, value: T) -> (r: Option<T::Extra>)
        requires
            old(self).wf(),
            old(self).spec_insertions() < u64::MAX,
        ensures
            final(self).wf(),
            final(self).spec_ratio() == old(self).spec_ratio(),
            final(self).spec_insertions() == old(self).spec_insertions() + 1,
            cascade(old(self).spec_ratio(), old(self).layers(), value, final(self).layers(), r),
    {
        let mut layers = Node::End;
        std::mem::swap(&mut self.layers, &mut layers);
        let (layers, extra) = do_insert(self.ratio, layers, value);
        proof {
            lemma_cascade_keeps_count(self.ratio as nat, old(self).layers(), value, layers.layers(), extra);
        }
        *self = Snapshots { ratio: self.ratio, tick: self.tick + 1, layers };
        extra
    }

    /// A traversal of the retained values, most recently touched first.
    pub fn iter(&self) -> (r: LayerIterator<'_, T>)
        ensures
            r.remaining() == self.values(),
    {
        LayerIterator { layers: &self.layers }
    }
}

/// A traversal of the values of a store's layers, most recently touched
/// first.
pub struct LayerIterator<'a, T> {
    layers: &'a Node<T>,
}

impl<'a, T> LayerIterator<'a, T> {
    /// The values that the traversal has yet to yield, in order.
    pub closed spec fn remaining(self) -> Seq<T> {
        self.layers.layers().map_values(|l: (T, u64)| l.0)
    }

    /// Yields the next value, or `None` once every layer has been visited.
    pub fn next(&mut self) -> (r: Option<&'a T>)
        ensures
            (match r {
                None => {
                    &&& old(self).remaining().len() == 0
                    &&& final(self).remaining() == old(self).remaining()
                },
                Some(v) => {
                    &&& old(self).remaining().len() > 0
                    &&& *v == old(self).remaining()[0]
                    &&& final(self).remaining() == old(self).remaining().drop_first()
                },
            }),
    {
        match self.layers {
            Node::End => None,
            Node::Layer { value, counter: _, tail } => {
                proof {
                    assert(self.layers.layers().drop_first() =~= tail.layers());
                    assert(old(self).remaining().drop_first() =~= tail.layers().map_values(
                        |l: (T, u64)| l.0,
                    ));
                }
                self.layers = tail;
                Some(value)
            },
        }
    }
}

} // verus!
