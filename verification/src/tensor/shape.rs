//! Shapes: the number of elements and row-major positions.
use crate::grid;
use vstd::prelude::*;

verus! {

/// The number of elements of a shape: the product of its dimensions.
pub open spec fn product(shape: Seq<usize>) -> nat
    decreases shape.len(),
{
    if shape.len() == 0 {
        1
    } else {
        product(shape.drop_last()) * (shape.last() as nat)
    }
}

/// Bytes that `count` elements of `width` bits take.
pub open spec fn packed_len(count: nat, width: nat) -> nat {
    (count * width + 7) / 8
}

/// The row-major position of an index, dimension by dimension.
pub open spec fn position(shape: Seq<usize>, index: Seq<usize>) -> int
    decreases shape.len(),
{
    if shape.len() == 0 {
        0
    } else {
        position(shape.drop_last(), index.drop_last()) * shape.last() + index.last()
    }
}

/// Whether each coordinate is smaller than its dimension.
pub open spec fn inside(shape: Seq<usize>, index: Seq<usize>) -> bool {
    &&& index.len() == shape.len()
    &&& forall|i: int| 0 <= i < shape.len() ==> #[trigger] index[i] < shape[i]
}

/// An index inside the shape has a position below the number of elements.
pub proof fn position_inside(shape: Seq<usize>, index: Seq<usize>)
    requires
        inside(shape, index),
    ensures
        0 <= position(shape, index) < product(shape),
    decreases shape.len(),
{
    if shape.len() > 0 {
        let s = shape.drop_last();
        let x = index.drop_last();
        assert forall|i: int| 0 <= i < s.len() implies #[trigger] x[i] < s[i] by {
            assert(index[i] < shape[i]);
        }
        position_inside(s, x);
        assert(index[shape.len() - 1] < shape[shape.len() - 1]);
        let p = position(s, x);
        let d = shape.last() as int;
        let c = index.last() as int;
        grid::cell_inside(p, c, product(s) as int, d);
    }
}

/// Two indices inside the shape with the same position are the same index.
pub proof fn position_unique(shape: Seq<usize>, a: Seq<usize>, b: Seq<usize>)
    requires
        inside(shape, a),
        inside(shape, b),
        position(shape, a) == position(shape, b),
    ensures
        a == b,
    decreases shape.len(),
{
    if shape.len() == 0 {
        assert(a =~= b);
    } else {
        let s = shape.drop_last();
        let x = a.drop_last();
        let y = b.drop_last();
        assert forall|i: int| 0 <= i < s.len() implies #[trigger] x[i] < s[i] by {
            assert(a[i] < shape[i]);
        }
        assert forall|i: int| 0 <= i < s.len() implies #[trigger] y[i] < s[i] by {
            assert(b[i] < shape[i]);
        }
        position_inside(s, x);
        position_inside(s, y);
        assert(a[shape.len() - 1] < shape[shape.len() - 1]);
        assert(b[shape.len() - 1] < shape[shape.len() - 1]);
        grid::cell_unique(position(s, x), a.last() as int, shape.last() as int);
        grid::cell_unique(position(s, y), b.last() as int, shape.last() as int);
        position_unique(s, x, y);
        assert(a =~= x.push(a.last()));
        assert(b =~= y.push(b.last()));
    }
}

/// A zero among the dimensions makes the product zero.
pub proof fn product_zero(shape: Seq<usize>, i: int)
    requires
        0 <= i < shape.len(),
        shape[i] == 0,
    ensures
        product(shape) == 0,
    decreases shape.len(),
{
    if i < shape.len() - 1 {
        product_zero(shape.drop_last(), i);
    }
    assert(product(shape.drop_last()) * 0 == 0 && 0 * shape.last() == 0);
}

/// Without a zero among the dimensions, a prefix has no more elements than the whole.
pub proof fn product_prefix(shape: Seq<usize>, n: int)
    requires
        0 <= n <= shape.len(),
        forall|i: int| 0 <= i < shape.len() ==> shape[i] > 0,
    ensures
        product(shape.take(n)) <= product(shape),
    decreases shape.len(),
{
    if n < shape.len() {
        let s = shape.drop_last();
        product_prefix(s, n);
        assert(s.take(n) =~= shape.take(n));
        assert(shape[shape.len() - 1] > 0);
        assert(product(s) <= product(s) * shape.last()) by (nonlinear_arith)
            requires
                shape.last() > 0,
        ;
    } else {
        assert(shape.take(n) =~= shape);
    }
}

/// A dimension in front multiplies the number of elements.
proof fn product_front(d: usize, shape: Seq<usize>)
    ensures
        product(seq![d] + shape) == d * product(shape),
    decreases shape.len(),
{
    let whole = seq![d] + shape;
    if shape.len() == 0 {
        product_one(d);
        assert(whole =~= seq![d]);
        assert(product(shape) == 1);
        assert(d * product(shape) == d) by (nonlinear_arith)
            requires
                product(shape) == 1,
        ;
    } else {
        product_front(d, shape.drop_last());
        assert(whole.drop_last() =~= seq![d] + shape.drop_last());
        let p = product(shape.drop_last());
        let a = product(whole.drop_last());
        let l = shape.last() as nat;
        assert(a * l == d * (p * l)) by (nonlinear_arith)
            requires
                a == d * p,
        ;
    }
}

/// The order of the dimensions does not matter for the number of elements.
pub proof fn product_reversed(shape: Seq<usize>)
    ensures
        product(shape.reverse()) == product(shape),
    decreases shape.len(),
{
    if shape.len() == 0 {
        assert(shape.reverse() =~= shape);
    } else {
        product_reversed(shape.drop_last());
        assert(shape.reverse() =~= seq![shape.last()] + shape.drop_last().reverse());
        product_front(shape.last(), shape.drop_last().reverse());
        assert(shape.last() * product(shape.drop_last()) == product(shape.drop_last()) * (shape.last() as nat)) by (nonlinear_arith);
    }
}

/// The product of a one-dimensional shape.
pub proof fn product_one(n: usize)
    ensures
        product(seq![n]) == n,
{
    assert(seq![n].drop_last() =~= Seq::<usize>::empty());
    assert(product(seq![n].drop_last()) == 1);
    assert(product(seq![n]) == product(seq![n].drop_last()) * (n as nat));
}

/// The product of a two-dimensional shape.
pub proof fn product_two(m: usize, n: usize)
    ensures
        product(seq![m, n]) == m * n,
{
    product_one(m);
    assert(seq![m, n].drop_last() =~= seq![m]);
}

/// The product of a three-dimensional shape.
pub proof fn product_three(a: usize, b: usize, c: usize)
    ensures
        product(seq![a, b, c]) == a * b * c,
{
    product_two(a, b);
    assert(seq![a, b, c].drop_last() =~= seq![a, b]);
}

/// The product of a four-dimensional shape.
pub proof fn product_four(a: usize, b: usize, c: usize, d: usize)
    ensures
        product(seq![a, b, c, d]) == a * b * c * d,
{
    product_three(a, b, c);
    assert(seq![a, b, c, d].drop_last() =~= seq![a, b, c]);
}

/// The number of elements of a shape, if it can be counted.
pub fn checked_count(shape: &[usize]) -> (r: Option<usize>)
    ensures
        match r {
            Some(n) => n == product(shape@),
            None => product(shape@) > usize::MAX,
        },
{
    let mut i: usize = 0;
    while i < shape.len()
        invariant
            i <= shape@.len(),
            forall|j: int| 0 <= j < i ==> shape@[j] > 0,
        decreases shape.len() - i,
    {
        if shape[i] == 0 {
            proof {
                product_zero(shape@, i as int);
            }
            return Some(0);
        }
        i = i + 1;
    }
    let mut n: usize = 1;
    let mut k: usize = 0;
    assert(shape@.take(0) =~= Seq::<usize>::empty());
    while k < shape.len()
        invariant
            k <= shape@.len(),
            forall|j: int| 0 <= j < shape@.len() ==> shape@[j] > 0,
            n == product(shape@.take(k as int)),
        decreases shape.len() - k,
    {
        proof {
            assert(shape@.take(k + 1).drop_last() =~= shape@.take(k as int));
            product_prefix(shape@, k + 1);
        }
        match n.checked_mul(shape[k]) {
            Some(m) => {
                n = m;
            },
            None => {
                return None;
            },
        }
        k = k + 1;
    }
    assert(shape@.take(k as int) =~= shape@);
    Some(n)
}

/// The number of elements of a shape.
pub fn count(shape: &[usize]) -> (r: usize)
    requires
        product(shape@) <= usize::MAX,
    ensures
        r == product(shape@),
{
    match checked_count(shape) {
        Some(n) => n,
        None => 0,
    }
}

/// The row-major position of an index.
pub fn flat_index(shape: &[usize], index: &[usize]) -> (r: usize)
    requires
        inside(shape@, index@),
        product(shape@) <= usize::MAX,
    ensures
        r == position(shape@, index@),
{
    let mut p: usize = 0;
    let mut k: usize = 0;
    while k < shape.len()
        invariant
            k <= shape@.len(),
            inside(shape@, index@),
            product(shape@) <= usize::MAX,
            p == position(shape@.take(k as int), index@.take(k as int)),
        decreases shape.len() - k,
    {
        proof {
            let s = shape@.take(k + 1);
            let x = index@.take(k + 1);
            assert(s.drop_last() =~= shape@.take(k as int));
            assert(x.drop_last() =~= index@.take(k as int));
            assert forall|i: int| 0 <= i < s.len() implies #[trigger] x[i] < s[i] by {
                assert(index@[i] < shape@[i]);
            }
            position_inside(s, x);
            assert forall|i: int| 0 <= i < shape@.len() implies shape@[i] > 0 by {
                assert(index@[i] < shape@[i]);
            }
            product_prefix(shape@, k + 1);
            assert(index@[k as int] < shape@[k as int]);
            let q = position(s.drop_last(), x.drop_last());
            let d = s.last() as int;
            assert(q * d <= q * d + x.last());
        }
        p = p * shape[k] + index[k];
        k = k + 1;
    }
    assert(shape@.take(k as int) =~= shape@);
    assert(index@.take(k as int) =~= index@);
    p
}

} // verus!
