//! Shapes: element counts, axes, and the arithmetic of row-major positions.
use vstd::prelude::*;

verus! {

/// The largest number of axes a tensor may have.
pub const MAX_RANK: usize = 4;

/// Number of elements of a tensor with dimensions `dims`: their product.
pub open spec fn numel(dims: Seq<usize>) -> nat
    decreases dims.len(),
{
    if dims.len() == 0 {
        1
    } else {
        numel(dims.drop_last()) * (dims.last() as nat)
    }
}

/// Product of the dimensions with every zero counted as one. It bounds the
/// element count of every tensor obtained by dropping axes of `dims`.
pub open spec fn extent(dims: Seq<usize>) -> nat
    decreases dims.len(),
{
    if dims.len() == 0 {
        1
    } else {
        extent(dims.drop_last()) * (if dims.last() == 0 {
            1nat
        } else {
            dims.last() as nat
        })
    }
}

/// A shape this library accepts: at most `MAX_RANK` axes, and an extent that
/// fits in `usize`.
pub open spec fn shape_ok(dims: Seq<usize>) -> bool {
    dims.len() <= MAX_RANK && extent(dims) <= usize::MAX
}

/// The axis that `axis` names in a tensor of `rank` axes: itself when it is
/// not negative, and `rank + axis` (counted back from the innermost axis)
/// when it is. `None` when no such axis exists.
pub open spec fn axis_position(rank: nat, axis: int) -> Option<nat> {
    if 0 <= axis < rank {
        Some(axis as nat)
    } else if -(rank as int) <= axis < 0 {
        Some((rank + axis) as nat)
    } else {
        None
    }
}

/// Number of index tuples over the axes before axis `k`.
pub open spec fn outer_of(dims: Seq<usize>, k: int) -> nat {
    numel(dims.take(k))
}

/// Number of index tuples over the axes after axis `k`.
pub open spec fn inner_of(dims: Seq<usize>, k: int) -> nat {
    numel(dims.skip(k + 1))
}

pub proof fn lemma_extent_positive(dims: Seq<usize>)
    ensures
        extent(dims) >= 1,
        numel(dims) <= extent(dims),
        (forall|i: int| 0 <= i < dims.len() ==> dims[i] != 0) ==> numel(dims) == extent(dims),
        (exists|i: int| 0 <= i < dims.len() && dims[i] == 0) ==> numel(dims) == 0,
    decreases dims.len(),
{
    if dims.len() > 0 {
        let front = dims.drop_last();
        lemma_extent_positive(front);
        let d = dims.last() as nat;
        let e: nat = if d == 0 { 1 } else { d };
        assert(extent(front) * e >= 1) by (nonlinear_arith)
            requires
                extent(front) >= 1,
                e >= 1,
        ;
        assert(numel(front) * d <= extent(front) * e) by (nonlinear_arith)
            requires
                numel(front) <= extent(front),
                d <= e,
        ;
        if forall|i: int| 0 <= i < dims.len() ==> dims[i] != 0 {
            assert(forall|i: int| 0 <= i < front.len() ==> front[i] == dims[i]);
            assert(dims[dims.len() - 1] != 0);
        }
        if exists|i: int| 0 <= i < dims.len() && dims[i] == 0 {
            let i = choose|i: int| 0 <= i < dims.len() && dims[i] == 0;
            if i < front.len() {
                assert(front[i] == 0);
                assert(numel(front) * d == 0) by (nonlinear_arith)
                    requires
                        numel(front) == 0,
                ;
            } else {
                assert(numel(front) * d == 0) by (nonlinear_arith)
                    requires
                        d == 0,
                ;
            }
        }
    }
}

/// Both products distribute over concatenation.
pub proof fn lemma_product_concat(a: Seq<usize>, b: Seq<usize>)
    ensures
        numel(a + b) == numel(a) * numel(b),
        extent(a + b) == extent(a) * extent(b),
    decreases b.len(),
{
    if b.len() == 0 {
        assert(a + b =~= a);
        assert(numel(a) * 1 == numel(a)) by (nonlinear_arith);
        assert(extent(a) * 1 == extent(a)) by (nonlinear_arith);
    } else {
        let whole = a + b;
        assert(whole.drop_last() =~= a + b.drop_last());
        assert(whole.last() == b.last());
        lemma_product_concat(a, b.drop_last());
        let d = b.last() as nat;
        let e: nat = if d == 0 { 1 } else { d };
        assert(numel(a) * numel(b.drop_last()) * d == numel(a) * (numel(b.drop_last()) * d))
            by (nonlinear_arith);
        assert(extent(a) * extent(b.drop_last()) * e == extent(a) * (extent(b.drop_last()) * e))
            by (nonlinear_arith);
    }
}

/// The products of a single dimension.
pub proof fn lemma_product_single(d: usize)
    ensures
        numel(seq![d]) == d as nat,
        extent(seq![d]) == (if d == 0 {
            1nat
        } else {
            d as nat
        }),
{
    let one = seq![d];
    assert(one.drop_last() =~= Seq::<usize>::empty());
    assert(one.last() == d);
    assert(numel(one.drop_last()) == 1);
    assert(extent(one.drop_last()) == 1);
    assert(numel(one) == numel(one.drop_last()) * (d as nat));
    assert(1 * (d as nat) == d as nat) by (nonlinear_arith);
}

/// A shape splits at axis `k` into the axes before it, the axis itself and
/// the axes after it; the pieces of an accepted shape are accepted.
pub proof fn lemma_split_axis(dims: Seq<usize>, k: int)
    requires
        0 <= k < dims.len(),
    ensures
        numel(dims) == outer_of(dims, k) * (dims[k] as nat) * inner_of(dims, k),
        extent(dims.take(k)) <= extent(dims),
        extent(dims.skip(k + 1)) <= extent(dims),
        extent(dims.take(k)) * extent(dims.skip(k + 1)) <= extent(dims),
        outer_of(dims, k) <= extent(dims.take(k)),
        inner_of(dims, k) <= extent(dims.skip(k + 1)),
        outer_of(dims, k) * inner_of(dims, k) <= extent(dims),
{
    let front = dims.take(k);
    let mid = seq![dims[k]];
    let back = dims.skip(k + 1);
    assert(dims =~= front + mid + back);
    lemma_product_concat(front, mid);
    lemma_product_concat(front + mid, back);
    lemma_product_single(dims[k]);
    let e: nat = if dims[k] == 0 { 1 } else { dims[k] as nat };
    lemma_extent_positive(front);
    lemma_extent_positive(back);
    let ef = extent(front);
    let eb = extent(back);
    assert(ef * eb <= ef * e * eb && ef <= ef * e * eb && eb <= ef * e * eb) by (nonlinear_arith)
        requires
            ef >= 1,
            eb >= 1,
            e >= 1,
    ;
    assert(numel(front) * numel(back) <= ef * eb) by (nonlinear_arith)
        requires
            numel(front) <= ef,
            numel(back) <= eb,
    ;
}

/// Dropping axis `k` leaves the product of the two sides.
pub proof fn lemma_remove_axis(dims: Seq<usize>, k: int)
    requires
        0 <= k < dims.len(),
    ensures
        numel(dims.remove(k)) == outer_of(dims, k) * inner_of(dims, k),
        extent(dims.remove(k)) <= extent(dims),
{
    let front = dims.take(k);
    let back = dims.skip(k + 1);
    assert(dims.remove(k) =~= front + back);
    lemma_product_concat(front, back);
    lemma_split_axis(dims, k);
}

/// Resizing axis `k` to `width` scales the product of the two sides.
pub proof fn lemma_resize_axis(dims: Seq<usize>, k: int, width: usize)
    requires
        0 <= k < dims.len(),
    ensures
        numel(dims.update(k, width)) == outer_of(dims, k) * (width as nat) * inner_of(dims, k),
        extent(dims.update(k, width)) == extent(dims.take(k)) * (if width == 0 {
            1nat
        } else {
            width as nat
        }) * extent(dims.skip(k + 1)),
{
    let resized = dims.update(k, width);
    assert(resized.take(k) =~= dims.take(k));
    assert(resized.skip(k + 1) =~= dims.skip(k + 1));
    let front = dims.take(k);
    let mid = seq![width];
    let back = dims.skip(k + 1);
    assert(resized =~= front + mid + back);
    lemma_product_concat(front, mid);
    lemma_product_concat(front + mid, back);
    lemma_product_single(width);
}

/// Row-major position of the element at `(o, a, i)` where the three
/// coordinates range over `outer`, `count` and `inner` values.
pub open spec fn position(o: int, a: int, i: int, count: int, inner: int) -> int {
    (o * count + a) * inner + i
}

pub proof fn lemma_position_in_range(o: int, a: int, i: int, outer: int, count: int, inner: int)
    requires
        0 <= o < outer,
        0 <= a < count,
        0 <= i < inner,
    ensures
        0 <= o * count + a < outer * count,
        0 <= position(o, a, i, count, inner) < outer * count * inner,
{
    assert(0 <= o * count + a < outer * count) by (nonlinear_arith)
        requires
            0 <= o < outer,
            0 <= a < count,
    ;
    let row = o * count + a;
    let rows = outer * count;
    assert(0 <= row * inner + i < rows * inner) by (nonlinear_arith)
        requires
            0 <= row < rows,
            0 <= i < inner,
    ;
}

/// A position determines its coordinates.
pub proof fn lemma_position_coordinates(o: int, a: int, i: int, count: int, inner: int)
    requires
        0 <= o,
        0 <= a < count,
        0 <= i < inner,
    ensures
        position(o, a, i, count, inner) / inner == o * count + a,
        position(o, a, i, count, inner) % inner == i,
        (o * count + a) / count == o,
        (o * count + a) % count == a,
{
    let row = o * count + a;
    assert(0 <= o * count + a) by (nonlinear_arith)
        requires
            0 <= o,
            0 <= a < count,
    ;
    vstd::arithmetic::div_mod::lemma_fundamental_div_mod_converse(row * inner + i, inner, row, i);
    vstd::arithmetic::div_mod::lemma_fundamental_div_mod_converse(row, count, o, a);
}

/// Coordinates of a position: the position rebuilt from its quotient and
/// remainders is itself.
pub proof fn lemma_coordinates_position(p: int, outer: int, count: int, inner: int)
    requires
        0 <= p < outer * count * inner,
        0 < count,
        0 < inner,
    ensures
        0 <= p / inner / count < outer,
        0 <= (p / inner) % count < count,
        0 <= p % inner < inner,
        0 <= p / inner < outer * count,
        position(p / inner / count, (p / inner) % count, p % inner, count, inner) == p,
{
    let row = p / inner;
    vstd::arithmetic::div_mod::lemma_fundamental_div_mod(p, inner);
    vstd::arithmetic::div_mod::lemma_mod_bound(p, inner);
    let rows = outer * count;
    assert(0 <= row < rows) by (nonlinear_arith)
        requires
            0 <= p < rows * inner,
            p == inner * row + p % inner,
            0 <= p % inner < inner,
            0 < inner,
    ;
    vstd::arithmetic::div_mod::lemma_fundamental_div_mod(row, count);
    vstd::arithmetic::div_mod::lemma_mod_bound(row, count);
    let o = row / count;
    assert(0 <= o < outer) by (nonlinear_arith)
        requires
            0 <= row < outer * count,
            row == count * o + row % count,
            0 <= row % count < count,
            0 < count,
    ;
    assert((o * count + row % count) * inner + p % inner == p) by (nonlinear_arith)
        requires
            row == count * o + row % count,
            p == inner * row + p % inner,
    ;
}

/// The element count of `dims`, when `dims` is an accepted shape.
pub fn checked_numel(dims: &Vec<usize>) -> (r: Option<usize>)
    ensures
        r is Some <==> shape_ok(dims@),
        r matches Some(n) ==> n == numel(dims@),
{
    if dims.len() > MAX_RANK {
        return None;
    }
    let mut product: usize = 1;
    let mut empty = false;
    let mut i: usize = 0;
    while i < dims.len()
        invariant
            i <= dims.len(),
            product == extent(dims@.take(i as int)),
            empty <==> exists|j: int| 0 <= j < i && dims@[j] == 0,
        decreases dims.len() - i,
    {
        let d = dims[i];
        let factor: usize = if d == 0 { 1 } else { d };
        proof {
            assert(dims@.take(i + 1).drop_last() =~= dims@.take(i as int));
            assert(dims@.take(i + 1).last() == d);
            lemma_split_axis(dims@, i as int);
            assert(dims@.take(i + 1) =~= dims@.take(i as int) + seq![d]);
            lemma_product_concat(dims@.take(i + 1), dims@.skip(i + 1));
            assert(dims@ =~= dims@.take(i + 1) + dims@.skip(i + 1));
            lemma_extent_positive(dims@.skip(i + 1));
            let e = extent(dims@.take(i + 1));
            let rest = extent(dims@.skip(i + 1));
            assert(e <= e * rest) by (nonlinear_arith)
                requires
                    rest >= 1,
            ;
        }
        match product.checked_mul(factor) {
            Some(next) => {
                product = next;
            },
            None => {
                return None;
            },
        }
        if d == 0 {
            empty = true;
        }
        i = i + 1;
    }
    proof {
        assert(dims@.take(i as int) =~= dims@);
        lemma_extent_positive(dims@);
    }
    if empty {
        Some(0)
    } else {
        Some(product)
    }
}

/// A copy of `dims`.
pub(crate) fn copy_dims(dims: &Vec<usize>) -> (r: Vec<usize>)
    ensures
        r@ == dims@,
{
    let mut r: Vec<usize> = Vec::new();
    let mut i: usize = 0;
    while i < dims.len()
        invariant
            i <= dims.len(),
            r@ == dims@.take(i as int),
        decreases dims.len() - i,
    {
        r.push(dims[i]);
        i = i + 1;
        assert(r@ =~= dims@.take(i as int));
    }
    assert(dims@.take(i as int) =~= dims@);
    r
}

/// The dimensions without axis `k`.
pub(crate) fn without_axis(dims: &Vec<usize>, k: usize) -> (r: Vec<usize>)
    requires
        k < dims.len(),
    ensures
        r@ == dims@.remove(k as int),
{
    let mut r: Vec<usize> = Vec::new();
    let mut i: usize = 0;
    while i < dims.len()
        invariant
            i <= dims.len(),
            k < dims.len(),
            i <= k ==> r@ == dims@.take(i as int),
            i > k ==> r@ == dims@.take(i as int).remove(k as int),
        decreases dims.len() - i,
    {
        if i != k {
            r.push(dims[i]);
        }
        i = i + 1;
        proof {
            if i <= k {
                assert(r@ =~= dims@.take(i as int));
            } else {
                assert(r@ =~= dims@.take(i as int).remove(k as int));
            }
        }
    }
    assert(dims@.take(i as int) =~= dims@);
    r
}

/// The dimensions with axis `k` resized to `width`.
pub(crate) fn with_axis(dims: &Vec<usize>, k: usize, width: usize) -> (r: Vec<usize>)
    requires
        k < dims.len(),
    ensures
        r@ == dims@.update(k as int, width),
{
    let mut r = copy_dims(dims);
    r.set(k, width);
    r
}

/// The axis of a tensor of `rank` axes that `axis` names, if there is one.
pub fn resolve_axis(rank: usize, axis: isize) -> (r: Option<usize>)
    ensures
        r is Some <==> axis_position(rank as nat, axis as int) is Some,
        r matches Some(k) ==> axis_position(rank as nat, axis as int) == Some(k as nat) && k < rank,
{
    if axis >= 0 {
        let k = axis as usize;
        if k < rank {
            Some(k)
        } else {
            None
        }
    } else {
        let back = (-(axis + 1)) as usize;
        if back < rank {
            Some(rank - 1 - back)
        } else {
            None
        }
    }
}

/// The three factors of an accepted shape around axis `k`: the number of
/// index tuples before the axis, the length of the axis, and the number of
/// index tuples after it.
pub(crate) fn split_axis(dims: &Vec<usize>, k: usize) -> (r: (usize, usize, usize))
    requires
        shape_ok(dims@),
        k < dims.len(),
    ensures
        r.0 == outer_of(dims@, k as int),
        r.1 == dims@[k as int],
        r.2 == inner_of(dims@, k as int),
        r.0 * r.1 * r.2 == numel(dims@),
        r.0 * r.2 <= usize::MAX,
{
    proof {
        lemma_split_axis(dims@, k as int);
    }
    let outer = product_between(dims, 0, k);
    let inner = product_between(dims, k + 1, dims.len());
    proof {
        assert(dims@.subrange(0, k as int) =~= dims@.take(k as int));
        assert(dims@.subrange(k + 1, dims.len() as int) =~= dims@.skip(k + 1));
    }
    (outer, dims[k], inner)
}

/// Product of the dimensions `dims[from..to]`.
fn product_between(dims: &Vec<usize>, from: usize, to: usize) -> (r: usize)
    requires
        from <= to <= dims.len(),
        extent(dims@.subrange(from as int, to as int)) <= usize::MAX,
    ensures
        r == numel(dims@.subrange(from as int, to as int)),
{
    let mut product: usize = 1;
    let mut i: usize = from;
    while i < to
        invariant
            from <= i <= to <= dims.len(),
            product == numel(dims@.subrange(from as int, i as int)),
            extent(dims@.subrange(from as int, to as int)) <= usize::MAX,
        decreases to - i,
    {
        proof {
            let part = dims@.subrange(from as int, i + 1);
            let rest = dims@.subrange(i + 1, to as int);
            assert(part.drop_last() =~= dims@.subrange(from as int, i as int));
            assert(part.last() == dims@[i as int]);
            assert(dims@.subrange(from as int, to as int) =~= part + rest);
            lemma_product_concat(part, rest);
            lemma_extent_positive(part);
            lemma_extent_positive(rest);
            let e = extent(part);
            let r = extent(rest);
            assert(e <= e * r) by (nonlinear_arith)
                requires
                    r >= 1,
            ;
        }
        product = product * dims[i];
        i = i + 1;
    }
    product
}

} // verus!
