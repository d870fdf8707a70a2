//! Every way to pick one item from each of several layers.

use vstd::prelude::*;

verus! {

/// Each of `prefixes`, in order, followed by each item of `last`, in order.
pub open spec fn extend_each<T>(prefixes: Seq<Seq<T>>, last: Seq<T>) -> Seq<Seq<T>> {
    Seq::new(
        prefixes.len() * last.len(),
        |k: int| prefixes[k / (last.len() as int)].push(last[k % (last.len() as int)]),
    )
}

/// The cartesian product of `layers`: every sequence that takes its first
/// item from the first layer, its second from the second, and so on. The
/// combinations are in the order of a counter whose last digit runs fastest.
/// The product of no layers at all is empty.
pub open spec fn cartesian_product<T>(layers: Seq<Seq<T>>) -> Seq<Seq<T>>
    decreases layers.len(),
{
    if layers.len() == 0 {
        Seq::empty()
    } else if layers.len() == 1 {
        Seq::new(layers[0].len(), |k: int| seq![layers[0][k]])
    } else {
        extend_each(cartesian_product(layers.drop_last()), layers.last())
    }
}

/// The product of the sizes of `layers`.
pub open spec fn combinations<T>(layers: Seq<Seq<T>>) -> nat
    decreases layers.len(),
{
    if layers.len() == 0 {
        1
    } else {
        combinations(layers.drop_last()) * layers.last().len()
    }
}

/// Which item of layer `i` the combination of number `k` takes.
pub open spec fn choice<T>(layers: Seq<Seq<T>>, k: int, i: int) -> int
    decreases layers.len(),
{
    if layers.len() <= 1 {
        k
    } else if i == layers.len() - 1 {
        k % (layers.last().len() as int)
    } else {
        choice(layers.drop_last(), k / (layers.last().len() as int), i)
    }
}

proof fn lemma_digits(k: int, count: int, base: int)
    requires
        0 <= k < count * base,
        0 <= count,
        0 <= base,
    ensures
        base > 0,
        0 <= k / base < count,
        0 <= k % base < base,
        k == (k / base) * base + k % base,
{
    assert(base > 0) by (nonlinear_arith)
        requires
            0 <= k < count * base,
            0 <= base,
    ;
    assert(0 <= k / base && 0 <= k % base < base && k == (k / base) * base + k % base)
        by (nonlinear_arith)
        requires
            0 <= k,
            base > 0,
    ;
    assert(k / base < count) by (nonlinear_arith)
        requires
            0 <= k < count * base,
            base > 0,
            k == (k / base) * base + k % base,
            0 <= k % base,
    ;
}

/// The product has as many combinations as the sizes of the layers
/// multiply to.
pub proof fn lemma_product_len<T>(layers: Seq<Seq<T>>)
    requires
        layers.len() >= 1,
    ensures
        cartesian_product(layers).len() == combinations(layers),
    decreases layers.len(),
{
    if layers.len() == 1 {
        assert(layers.drop_last().len() == 0);
        assert(combinations(layers.drop_last()) == 1);
        assert(layers.last() == layers[0]);
        assert(combinations(layers) == 1 * layers[0].len());
    } else {
        lemma_product_len(layers.drop_last());
    }
}

/// The combination of number `k` takes one item from each layer: from layer
/// `i` the item that `choice` names.
pub proof fn lemma_product_entry<T>(layers: Seq<Seq<T>>, k: int)
    requires
        layers.len() >= 1,
        0 <= k < cartesian_product(layers).len(),
    ensures
        cartesian_product(layers)[k].len() == layers.len(),
        forall|i: int|
            0 <= i < layers.len() ==> 0 <= #[trigger] choice(layers, k, i) < layers[i].len()
                && cartesian_product(layers)[k][i] == layers[i][choice(layers, k, i)],
    decreases layers.len(),
{
    if layers.len() > 1 {
        let front = layers.drop_last();
        let last = layers.last();
        let prefixes = cartesian_product(front);
        lemma_digits(k, prefixes.len() as int, last.len() as int);
        let q = k / (last.len() as int);
        let r = k % (last.len() as int);
        lemma_product_entry(front, q);
        assert(cartesian_product(layers)[k] == prefixes[q].push(last[r]));
        assert forall|i: int| 0 <= i < layers.len() implies 0 <= #[trigger] choice(layers, k, i)
            < layers[i].len() && cartesian_product(layers)[k][i] == layers[i][choice(
            layers,
            k,
            i,
        )] by {
            if i < front.len() {
                assert(choice(layers, k, i) == choice(front, q, i));
                assert(front[i] == layers[i]);
            }
        }
    }
}

/// Two combinations of different numbers differ in the item that they take
/// from some layer.
pub proof fn lemma_product_distinct<T>(layers: Seq<Seq<T>>, k1: int, k2: int)
    requires
        layers.len() >= 1,
        0 <= k1 < cartesian_product(layers).len(),
        0 <= k2 < cartesian_product(layers).len(),
        k1 != k2,
    ensures
        exists|i: int|
            0 <= i < layers.len() && #[trigger] choice(layers, k1, i) != choice(layers, k2, i),
    decreases layers.len(),
{
    if layers.len() == 1 {
        assert(choice(layers, k1, 0) != choice(layers, k2, 0));
    } else {
        let front = layers.drop_last();
        let last = layers.last();
        let prefixes = cartesian_product(front);
        lemma_digits(k1, prefixes.len() as int, last.len() as int);
        lemma_digits(k2, prefixes.len() as int, last.len() as int);
        let base = last.len() as int;
        if k1 % base != k2 % base {
            let i = layers.len() - 1;
            assert(choice(layers, k1, i) != choice(layers, k2, i));
        } else {
            let q1 = k1 / base;
            let q2 = k2 / base;
            assert(q1 != q2);
            lemma_product_distinct(front, q1, q2);
            let i = choose|i: int|
                0 <= i < front.len() && #[trigger] choice(front, q1, i) != choice(front, q2, i);
            assert(choice(layers, k1, i) == choice(front, q1, i));
            assert(choice(layers, k2, i) == choice(front, q2, i));
        }
    }
}

} // verus!
