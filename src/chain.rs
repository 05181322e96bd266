//! The layer chain and the carry cascade that every insertion runs.
use vstd::prelude::*;

use crate::Layer;

verus! {

/// The outcome of one insertion of `value` into a chain of layers, topmost
/// first, each a value and its saturation counter.
///
/// - An empty chain becomes a single layer holding `value` with counter 0,
///   and no merge happens.
/// - A saturated top layer (counter at least `ratio - 1`) is replaced by
///   `value` with counter 0, and its old value is inserted in the same way
///   into the rest of the chain; the extra is that of the deeper insertion.
/// - Otherwise the top layer's value is merged with `value` (old value on the
///   left), its counter goes up by one, the rest is unchanged, and the extra
///   is the one that the merge returned.
pub open spec fn cascade<T: Layer>(
    ratio: nat,
    old: Seq<(T, u64)>,
    value: T,
    new: Seq<(T, u64)>,
    extra: Option<T::Extra>,
) -> bool
    decreases old.len(),
{
    if old.len() == 0 {
        new == seq![(value, 0u64)] && extra is None
    } else if old[0].1 >= ratio - 1 {
        &&& new.len() >= 1
        &&& new[0] == (value, 0u64)
        &&& cascade(ratio, old.drop_first(), old[0].0, new.drop_first(), extra)
    } else {
        &&& new.len() == old.len()
        &&& new[0].1 == old[0].1 + 1
        &&& new.drop_first() == old.drop_first()
        &&& extra is Some
        &&& call_ensures(T::merge, (old[0].0, value), (new[0].0, extra->0))
    }
}

/// Every counter of the chain lies below `ratio`.
pub open spec fn counters_below<T>(ratio: nat, layers: Seq<(T, u64)>) -> bool {
    forall|i: int| 0 <= i < layers.len() ==> #[trigger] layers[i].1 < ratio
}

/// The number of insertions that a chain stands for, read as a numeral in
/// bijective base `ratio`: the layer at depth `k` with counter `c` stands for
/// `(c + 1) * ratio^k` insertions.
pub open spec fn weight<T>(ratio: nat, layers: Seq<(T, u64)>) -> nat
    decreases layers.len(),
{
    if layers.len() == 0 {
        0
    } else {
        (layers[0].1 + 1) as nat + ratio * weight(ratio, layers.drop_first())
    }
}

/// One link of a chain: the end marker, or a layer that owns the rest.
pub enum Node<T> {
    End,
    Layer { value: T, counter: u64, tail: Box<Node<T>> },
}

impl<T> Node<T> {
    /// The layers of the chain, topmost first, as (value, counter) pairs.
    pub open spec fn layers(self) -> Seq<(T, u64)>
        decreases self,
    {
        match self {
            Node::End => Seq::empty(),
            Node::Layer { value, counter, tail } => seq![(value, counter)] + (*tail).layers(),
        }
    }
}

/// Inserts `new_value` into the chain `layers`, carrying saturated layers
/// downward, and returns the new chain with the extra of the merge that
/// happened, if any.
pub fn do_insert<T: Layer>(ratio: u64, layers: Node<T>, new_value: T) -> (r: (
    Node<T>,
    Option<T::Extra>,
))
    requires
        ratio >= 1,
    ensures
        cascade(ratio as nat, layers.layers(), new_value, r.0.layers(), r.1),
    decreases layers,
{
    let max_counter = ratio - 1;
    match layers {
        Node::End => {
            let layers = Node::Layer { value: new_value, counter: 0, tail: Box::new(Node::End) };
            proof {
                assert(Node::<T>::End.layers() =~= Seq::empty());
                assert(layers.layers() =~= seq![(new_value, 0u64)]);
            }
            (layers, None)
        },
        Node::Layer { value: old_value, counter, tail } => {
            if counter >= max_counter {
                let ghost rest = (*tail).layers();
                let (tail, extra) = do_insert(ratio, *tail, old_value);
                let layers = Node::Layer { value: new_value, counter: 0, tail: Box::new(tail) };
                proof {
                    assert(seq![(old_value, counter)].add(rest).drop_first() =~= rest);
                    assert(layers.layers().drop_first() =~= tail.layers());
                }
                (layers, extra)
            } else {
                let (merged, extra) = old_value.merge(new_value);
                let ghost rest = (*tail).layers();
                let layers = Node::Layer { value: merged, counter: counter + 1, tail };
                proof {
                    assert(seq![(old_value, counter)].add(rest).drop_first() =~= rest);
                    assert(layers.layers().drop_first() =~= rest);
                }
                (layers, Some(extra))
            }
        },
    }
}

} // verus!
