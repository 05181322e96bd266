//! What holds of every store and of every insertion.
use vstd::prelude::*;

use crate::chain::{cascade, counters_below, weight};
use crate::snapshots::{LayerIterator, Snapshots};
use crate::Layer;
use vstd::arithmetic::div_mod::{lemma_fundamental_div_mod, lemma_mod_pos_bound};

verus! {

/// An insertion keeps every counter below the ratio and adds exactly one to
/// the number that the counters stand for: a layer takes `ratio`
/// contributions before its value is carried to the layer below.
pub proof fn lemma_cascade_keeps_count<T: Layer>(
    ratio: nat,
    old: Seq<(T, u64)>,
    value: T,
    new: Seq<(T, u64)>,
    extra: Option<T::Extra>,
)
    requires
        ratio >= 1,
        counters_below(ratio, old),
        cascade(ratio, old, value, new, extra),
    ensures
        counters_below(ratio, new),
        weight(ratio, new) == weight(ratio, old) + 1,
    decreases old.len(),
{
    if old.len() == 0 {
        assert(new.drop_first() =~= Seq::<(T, u64)>::empty());
        assert(weight(ratio, new.drop_first()) == 0);
        assert(weight(ratio, new) == 1);
    } else if old[0].1 >= ratio - 1 {
        let rest = old.drop_first();
        assert(counters_below(ratio, rest)) by {
            assert forall|i: int| 0 <= i < rest.len() implies #[trigger] rest[i].1 < ratio by {
                assert(rest[i] == old[i + 1]);
            }
        }
        lemma_cascade_keeps_count(ratio, rest, old[0].0, new.drop_first(), extra);
        assert(counters_below(ratio, new)) by {
            assert forall|i: int| 0 <= i < new.len() implies #[trigger] new[i].1 < ratio by {
                if i > 0 {
                    assert(new[i] == new.drop_first()[i - 1]);
                }
            }
        }
        assert(old[0].1 == ratio - 1);
        let w = weight(ratio, rest);
        assert(ratio * (w + 1) == ratio * w + ratio) by (nonlinear_arith);
        assert(weight(ratio, new) == 1 + ratio * (w + 1));
        assert(weight(ratio, old) == ratio + ratio * w);
    } else {
        assert(counters_below(ratio, new)) by {
            assert forall|i: int| 0 <= i < new.len() implies #[trigger] new[i].1 < ratio by {
                if i > 0 {
                    assert(new[i] == new.drop_first()[i - 1]);
                    assert(old[i] == old.drop_first()[i - 1]);
                }
            }
        }
        assert(weight(ratio, new) == (new[0].1 + 1) as nat + ratio * weight(ratio, old.drop_first()));
    }
}

/// `base` raised to the power `e`.
pub open spec fn power(base: nat, e: nat) -> nat
    decreases e,
{
    if e == 0 {
        1
    } else {
        base * power(base, (e - 1) as nat)
    }
}

/// The ceiling of the base-`base` logarithm of `m`: the least `k` with
/// `base^k >= m`, for `base >= 2` and `m >= 1`.
pub open spec fn log_ceil(base: nat, m: nat) -> nat
    decreases m,
    via log_ceil_decreases
{
    if base <= 1 || m <= 1 {
        0
    } else {
        1 + log_ceil(base, ((m + base - 1) as nat / base) as nat)
    }
}

#[via_fn]
proof fn log_ceil_decreases(base: nat, m: nat) {
    if base > 1 && m > 1 {
        assert((m + base - 1) as nat / base < m) by (nonlinear_arith)
            requires
                base > 1,
                m > 1,
        ;
    }
}

/// Any power of `base` below `m` has an exponent below `log_ceil(base, m)`.
pub proof fn lemma_power_below_log(base: nat, m: nat, j: nat)
    requires
        base >= 2,
        power(base, j) < m,
    ensures
        j < log_ceil(base, m),
    decreases m,
{
    lemma_power_positive(base, j);
    if j > 0 {
        let p = power(base, (j - 1) as nat);
        let x = (m + base - 1) as int;
        let m2 = (x / base as int) as nat;
        lemma_fundamental_div_mod(x, base as int);
        lemma_mod_pos_bound(x, base as int);
        let r = x % base as int;
        assert(p < m2 && m2 < m) by (nonlinear_arith)
            requires
                base >= 2,
                m >= 2,
                base * p < m,
                x == m + base - 1,
                x == base * m2 + r,
                0 <= r < base,
        ;
        lemma_power_below_log(base, m2, (j - 1) as nat);
    }
}

/// Every power of a positive base is positive.
pub proof fn lemma_power_positive(base: nat, e: nat)
    requires
        base >= 1,
    ensures
        power(base, e) >= 1,
    decreases e,
{
    if e > 0 {
        lemma_power_positive(base, (e - 1) as nat);
        let p = power(base, (e - 1) as nat);
        assert(base * p >= 1) by (nonlinear_arith)
            requires
                base >= 1,
                p >= 1,
        ;
    }
}

/// A chain of `k + 1` layers stands for at least `ratio^k` insertions: the
/// deepest layer is only born once that many insertions have been made.
pub proof fn lemma_depth_needs_insertions<T>(ratio: nat, layers: Seq<(T, u64)>)
    requires
        ratio >= 1,
        layers.len() >= 1,
    ensures
        weight(ratio, layers) >= power(ratio, (layers.len() - 1) as nat),
    decreases layers.len(),
{
    let rest = layers.drop_first();
    if layers.len() > 1 {
        lemma_depth_needs_insertions(ratio, rest);
        let w = weight(ratio, rest);
        let p = power(ratio, (rest.len() - 1) as nat);
        assert(ratio * w >= ratio * p) by (nonlinear_arith)
            requires
                w >= p,
        ;
    } else {
        assert(rest.len() == 0);
    }
}

/// After `n` insertions into a store whose ratio is at least 2, the number of
/// layers is at most `log_ceil(ratio, n + 1) + 1`.
pub proof fn lemma_layer_count_bound<T: Layer>(s: Snapshots<T>)
    requires
        s.wf(),
        s.spec_ratio() >= 2,
    ensures
        s.layers().len() <= log_ceil(s.spec_ratio(), s.spec_insertions() + 1) + 1,
{
    if s.layers().len() >= 1 {
        lemma_depth_needs_insertions(s.spec_ratio(), s.layers());
        lemma_power_below_log(
            s.spec_ratio(),
            s.spec_insertions() + 1,
            (s.layers().len() - 1) as nat,
        );
    }
}

/// The first insertion into an empty chain leaves exactly one layer, with
/// counter 0 and the inserted value, and makes no merge.
pub proof fn lemma_first_insertion<T: Layer>(
    ratio: nat,
    value: T,
    new: Seq<(T, u64)>,
    extra: Option<T::Extra>,
)
    requires
        ratio >= 1,
        cascade(ratio, Seq::empty(), value, new, extra),
    ensures
        new.len() == 1,
        new[0] == (value, 0u64),
        extra is None,
{
}

/// An insertion makes no merge, and so returns no extra, exactly when every
/// layer is saturated; then the chain gains a new deepest layer, and
/// otherwise it keeps its length.
pub proof fn lemma_extra_iff_merge<T: Layer>(
    ratio: nat,
    old: Seq<(T, u64)>,
    value: T,
    new: Seq<(T, u64)>,
    extra: Option<T::Extra>,
)
    requires
        ratio >= 1,
        cascade(ratio, old, value, new, extra),
    ensures
        extra is None <==> forall|i: int| 0 <= i < old.len() ==> #[trigger] old[i].1 >= ratio - 1,
        new.len() == old.len() + (if extra is None { 1int } else { 0int }),
    decreases old.len(),
{
    if old.len() > 0 {
        let rest = old.drop_first();
        if old[0].1 >= ratio - 1 {
            lemma_extra_iff_merge(ratio, rest, old[0].0, new.drop_first(), extra);
            if extra is None {
                assert forall|i: int| 0 <= i < old.len() implies #[trigger] old[i].1 >= ratio
                    - 1 by {
                    if i > 0 {
                        assert(old[i] == rest[i - 1]);
                    }
                }
            } else {
                let i = choose|i: int| 0 <= i < rest.len() && !(#[trigger] rest[i].1 >= ratio - 1);
                assert(old[i + 1] == rest[i]);
            }
        } else {
            assert(!(old[0].1 >= ratio - 1));
        }
    }
}

/// With ratio 1 every layer is always saturated: each insertion carries all
/// the way down, adds a layer, and returns no extra.
pub proof fn lemma_ratio_one_always_carries<T: Layer>(
    old: Seq<(T, u64)>,
    value: T,
    new: Seq<(T, u64)>,
    extra: Option<T::Extra>,
)
    requires
        counters_below(1, old),
        cascade(1, old, value, new, extra),
    ensures
        extra is None,
        new.len() == old.len() + 1,
{
    lemma_extra_iff_merge(1, old, value, new, extra);
}

/// Two traversals of the same store, with no insertion between them, yield
/// the same values in the same order: those of its layers, most recent
/// first.
pub proof fn lemma_iteration_repeatable<'a, T: Layer>(
    s: Snapshots<T>,
    first: LayerIterator<'a, T>,
    second: LayerIterator<'a, T>,
)
    requires
        first.remaining() == s.values(),
        second.remaining() == s.values(),
    ensures
        first.remaining() == second.remaining(),
        first.remaining().len() == s.layers().len(),
        forall|i: int| 0 <= i < s.layers().len() ==> #[trigger] first.remaining()[i] == s.layers()[i].0,
{
}

} // verus!
