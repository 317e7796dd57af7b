use vstd::arithmetic::div_mod::lemma_fundamental_div_mod_converse;
use vstd::prelude::*;

verus! {

// ---------------------------------------------------------------------------
// Shapes as sequences of dimension sizes
// ---------------------------------------------------------------------------

/// The number of elements of a tensor of shape `s`: the product of its
/// dimensions, multiplied from the first to the last.
pub open spec fn shape_product(s: Seq<usize>) -> nat
    decreases s.len(),
{
    if s.len() == 0 {
        1
    } else {
        shape_product(s.drop_last()) * (s.last() as nat)
    }
}

/// Every running product of `s`, taken from the first dimension on, fits
/// in a `usize`.
pub open spec fn products_fit(s: Seq<usize>) -> bool {
    forall|i: int| 0 <= i <= s.len() ==> #[trigger] shape_product(s.take(i)) <= usize::MAX
}

pub proof fn lemma_shape_product_concat(a: Seq<usize>, b: Seq<usize>)
    ensures
        shape_product(a + b) == shape_product(a) * shape_product(b),
    decreases b.len(),
{
    if b.len() == 0 {
        assert(a + b =~= a);
        assert(shape_product(b) == 1);
    } else {
        lemma_shape_product_concat(a, b.drop_last());
        assert((a + b).drop_last() =~= a + b.drop_last());
        assert((a + b).last() == b.last());
        let pa = shape_product(a) as int;
        let pb = shape_product(b.drop_last()) as int;
        let l = b.last() as int;
        assert(shape_product(a + b) == shape_product(a + b.drop_last()) * l);
        assert(shape_product(b) == pb * l);
        assert(pa * pb * l == pa * (pb * l)) by (nonlinear_arith);
        assert(shape_product(a + b) == pa * pb * l);
    }
}

proof fn lemma_shape_product_single(x: usize)
    ensures
        shape_product(seq![x]) == x,
{
    let s = seq![x];
    assert(s.drop_last() =~= Seq::<usize>::empty());
    assert(shape_product(s.drop_last()) == 1);
    assert(s.last() == x);
    assert(shape_product(s) == shape_product(s.drop_last()) * (s.last() as nat));
}

/// The product of the dimensions `lo..hi` of `s`.
fn product_range(s: &Vec<usize>, lo: usize, hi: usize) -> (res: usize)
    requires
        lo <= hi <= s.len(),
        products_fit(s@.subrange(lo as int, hi as int)),
    ensures
        res == shape_product(s@.subrange(lo as int, hi as int)),
{
    let mut acc: usize = 1;
    let mut i = lo;
    assert(s@.subrange(lo as int, lo as int) =~= Seq::<usize>::empty());
    while i < hi
        invariant
            lo <= i <= hi <= s.len(),
            products_fit(s@.subrange(lo as int, hi as int)),
            acc == shape_product(s@.subrange(lo as int, i as int)),
        decreases hi - i,
    {
        let ghost next = s@.subrange(lo as int, i + 1);
        assert(next.drop_last() =~= s@.subrange(lo as int, i as int));
        assert(s@.subrange(lo as int, hi as int).take(i + 1 - lo) =~= next);
        assert(shape_product(s@.subrange(lo as int, hi as int).take(i + 1 - lo)) <= usize::MAX);
        acc = acc * s[i];
        i += 1;
    }
    acc
}

// ---------------------------------------------------------------------------
// repeat_interleave
// ---------------------------------------------------------------------------

/// Where element `q` of a tensor repeated `repeats` times along a
/// dimension, whose trailing dimensions hold `inner` elements, comes from
/// in the original tensor.
pub open spec fn interleave_source(q: int, inner: int, repeats: int) -> int {
    (q / inner / repeats) * inner + q % inner
}

/// The shape after repeating each entry of dimension `dim` `repeats` times.
pub open spec fn interleaved_shape(shape: Seq<usize>, dim: int, repeats: usize) -> Seq<usize> {
    shape.update(dim, (shape[dim] * repeats) as usize)
}

proof fn lemma_interleave_step(od: int, r: int, k: int, inner: int, repeats: int)
    requires
        0 <= od,
        0 <= r < repeats,
        0 <= k < inner,
    ensures
        interleave_source((od * repeats + r) * inner + k, inner, repeats) == od * inner + k,
{
    let q = (od * repeats + r) * inner + k;
    lemma_fundamental_div_mod_converse(q, inner, od * repeats + r, k);
    lemma_fundamental_div_mod_converse(od * repeats + r, repeats, od, r);
}

/// Repeats each entry along dimension `dim` of a tensor `repeats` times in
/// a row; the tensor is given by its elements in row-major order and its
/// shape. Returns the new elements and the new shape.
pub fn repeat_interleave<T: Copy>(data: &Vec<T>, shape: &Vec<usize>, repeats: usize, dim: usize) -> (res: (Vec<T>, Vec<usize>))
    requires
        dim < shape.len(),
        data.len() == shape_product(shape@),
        shape[dim as int] * repeats <= usize::MAX,
        products_fit(shape@.take(dim as int)),
        products_fit(shape@.skip(dim + 1)),
        products_fit(interleaved_shape(shape@, dim as int, repeats)),
    ensures
        res.1@ == interleaved_shape(shape@, dim as int, repeats),
        res.0.len() == data.len() * repeats,
        forall|q: int|
            0 <= q < res.0.len() ==> #[trigger] res.0@[q] == data@[interleave_source(
                q,
                shape_product(shape@.skip(dim + 1)) as int,
                repeats as int,
            )],
{
    let mut new_shape = shape.clone();
    new_shape.set(dim, shape[dim] * repeats);
    assert(shape@.subrange(0, dim as int) =~= shape@.take(dim as int));
    assert(shape@.subrange(dim + 1, shape.len() as int) =~= shape@.skip(dim + 1));
    let outer_size = product_range(shape, 0, dim);
    let dim_size = shape[dim];
    let inner_size = product_range(shape, dim + 1, shape.len());
    let ghost outer = outer_size as int;
    let ghost dsize = dim_size as int;
    let ghost inner = inner_size as int;
    let ghost rep = repeats as int;
    proof {
        let pre = shape@.take(dim as int);
        let post = shape@.skip(dim + 1);
        let x = shape@[dim as int];
        lemma_shape_product_single(x);
        assert(shape@ =~= pre + seq![x] + post);
        lemma_shape_product_concat(pre, seq![x]);
        lemma_shape_product_concat(pre + seq![x], post);
        assert(shape_product(shape@) == outer * dsize * inner);
        let y = (x * repeats) as usize;
        lemma_shape_product_single(y);
        let ns0 = interleaved_shape(shape@, dim as int, repeats);
        assert(ns0 =~= pre + seq![y] + post);
        lemma_shape_product_concat(pre, seq![y]);
        lemma_shape_product_concat(pre + seq![y], post);
        assert(shape_product(ns0) == outer * y * inner);
        assert(ns0.take(ns0.len() as int) =~= ns0);
        assert(shape_product(ns0) <= usize::MAX);
        assert(shape_product(ns0) == outer * (dsize * rep) * inner);
    }
    let mut result: Vec<T> = Vec::new();
    let mut start: usize = 0;
    let ghost mut od: int = 0;
    let mut outer_i: usize = 0;
    while outer_i < outer_size
        invariant
            outer == outer_size,
            dsize == dim_size,
            inner == inner_size,
            rep == repeats,
            data.len() == outer * dsize * inner,
            outer * (dsize * rep) * inner <= usize::MAX,
            outer_i <= outer_size,
            od == outer_i * dsize,
            start == od * inner,
            result.len() == od * rep * inner,
            forall|q: int|
                0 <= q < result.len() ==> #[trigger] result@[q] == data@[interleave_source(q, inner, rep)],
        decreases outer_size - outer_i,
    {
        let mut d: usize = 0;
        while d < dim_size
            invariant
                outer == outer_size,
                dsize == dim_size,
                inner == inner_size,
                rep == repeats,
                data.len() == outer * dsize * inner,
                outer * (dsize * rep) * inner <= usize::MAX,
                outer_i < outer_size,
                d <= dim_size,
                od == outer_i * dsize + d,
                start == od * inner,
                result.len() == od * rep * inner,
                forall|q: int|
                    0 <= q < result.len() ==> #[trigger] result@[q] == data@[interleave_source(q, inner, rep)],
            decreases dim_size - d,
        {
            proof {
                assert(od + 1 <= outer * dsize) by (nonlinear_arith)
                    requires
                        od == outer_i * dsize + d,
                        d < dsize,
                        outer_i < outer,
                ;
                assert((od + 1) * inner <= outer * dsize * inner) by (nonlinear_arith)
                    requires
                        od + 1 <= outer * dsize,
                        inner >= 0,
                ;
                assert((od + 1) * rep * inner <= outer * (dsize * rep) * inner) by (nonlinear_arith)
                    requires
                        od + 1 <= outer * dsize,
                        inner >= 0,
                        rep >= 0,
                ;
            }
            let mut r: usize = 0;
            while r < repeats
                invariant
                    inner == inner_size,
                    rep == repeats,
                    data.len() >= (od + 1) * inner,
                    (od + 1) * rep * inner <= usize::MAX,
                    od >= 0,
                    start == od * inner,
                    r <= repeats,
                    result.len() == (od * rep + r) * inner,
                    forall|q: int|
                        0 <= q < result.len() ==> #[trigger] result@[q] == data@[interleave_source(q, inner, rep)],
                decreases repeats - r,
            {
                let mut k: usize = 0;
                while k < inner_size
                    invariant
                        inner == inner_size,
                        rep == repeats,
                        data.len() >= (od + 1) * inner,
                        od >= 0,
                        start == od * inner,
                        r < repeats,
                        k <= inner_size,
                        result.len() == (od * rep + r) * inner + k,
                        forall|q: int|
                            0 <= q < result.len() ==> #[trigger] result@[q] == data@[interleave_source(q, inner, rep)],
                    decreases inner_size - k,
                {
                    proof {
                        assert(start + k < (od + 1) * inner) by (nonlinear_arith)
                            requires
                                start == od * inner,
                                k < inner,
                        ;
                        lemma_interleave_step(od, r as int, k as int, inner, rep);
                    }
                    result.push(data[start + k]);
                    k += 1;
                }
                proof {
                    assert((od * rep + r + 1) * inner <= (od + 1) * rep * inner) by (nonlinear_arith)
                        requires
                            r < rep,
                            inner >= 0,
                            od >= 0,
                    ;
                    assert((od * rep + r) * inner + inner == (od * rep + r + 1) * inner) by (nonlinear_arith);
                }
                r += 1;
            }
            proof {
                assert((od * rep + rep) * inner == (od + 1) * rep * inner) by (nonlinear_arith);
                assert(start + inner == (od + 1) * inner) by (nonlinear_arith)
                    requires
                        start == od * inner,
                ;
            }
            start = start + inner_size;
            d += 1;
            proof {
                od = od + 1;
            }
        }
        proof {
            assert(od == (outer_i + 1) * dsize) by (nonlinear_arith)
                requires
                    od == outer_i * dsize + dsize,
            ;
        }
        outer_i += 1;
    }
    proof {
        assert(od * rep * inner == outer * dsize * inner * rep) by (nonlinear_arith)
            requires
                od == outer * dsize,
        ;
    }
    (result, new_shape)
}

/// Repeating every entry once gives the tensor back: the shape is
/// unchanged and every element comes from the same position.
pub proof fn lemma_repeat_interleave_once(shape: Seq<usize>, dim: int, q: int)
    requires
        0 <= dim < shape.len(),
        0 <= q,
        shape_product(shape.skip(dim + 1)) > 0,
    ensures
        interleaved_shape(shape, dim, 1) == shape,
        interleave_source(q, shape_product(shape.skip(dim + 1)) as int, 1) == q,
{
    let inner = shape_product(shape.skip(dim + 1)) as int;
    assert(interleaved_shape(shape, dim, 1) =~= shape);
    vstd::arithmetic::div_mod::lemma_fundamental_div_mod(q, inner);
    assert(q / inner / 1 == q / inner);
    assert((q / inner) * inner == inner * (q / inner)) by (nonlinear_arith);
}

/// Repeating entries `a` times and then `b` times along the same dimension
/// is repeating them `a * b` times: the shapes agree and every element comes
/// from the same position.
pub proof fn lemma_repeat_interleave_compose(shape: Seq<usize>, dim: int, a: usize, b: usize, q: int)
    requires
        0 <= dim < shape.len(),
        0 <= q,
        a > 0,
        b > 0,
        a * b <= usize::MAX,
        shape[dim] * a * b <= usize::MAX,
        shape_product(shape.skip(dim + 1)) > 0,
    ensures
        interleaved_shape(interleaved_shape(shape, dim, a), dim, b) == interleaved_shape(
            shape,
            dim,
            (a * b) as usize,
        ),
        ({
            let inner = shape_product(shape.skip(dim + 1)) as int;
            interleave_source(interleave_source(q, inner, b as int), inner, a as int)
                == interleave_source(q, inner, a * b)
        }),
{
    let inner = shape_product(shape.skip(dim + 1)) as int;
    assert(shape[dim] * a <= shape[dim] * a * b) by (nonlinear_arith)
        requires
            b > 0,
    ;
    assert(shape[dim] * a * b == shape[dim] * (a * b)) by (nonlinear_arith);
    assert(interleaved_shape(interleaved_shape(shape, dim, a), dim, b) =~= interleaved_shape(
        shape,
        dim,
        (a * b) as usize,
    ));
    let t = q / inner;
    let k = q % inner;
    vstd::arithmetic::div_mod::lemma_fundamental_div_mod(q, inner);
    let q1 = (t / b as int) * inner + k;
    lemma_fundamental_div_mod_converse(q1, inner, t / b as int, k);
    vstd::arithmetic::div_mod::lemma_div_denominator(t, b as int, a as int);
    assert((b as int) * (a as int) == (a as int) * (b as int)) by (nonlinear_arith);
}

// ---------------------------------------------------------------------------
// calc_dims: reshaping with one inferred dimension
// ---------------------------------------------------------------------------

/// The number of dimensions of `dims` left to be inferred (`usize::MAX`).
pub open spec fn count_inferred(dims: Seq<usize>) -> nat
    decreases dims.len(),
{
    if dims.len() == 0 {
        0
    } else if dims.last() == usize::MAX {
        count_inferred(dims.drop_last()) + 1
    } else {
        count_inferred(dims.drop_last())
    }
}

/// The product of the dimensions of `dims` that are given (not `usize::MAX`),
/// multiplied from the first to the last.
pub open spec fn given_product(dims: Seq<usize>) -> nat
    decreases dims.len(),
{
    if dims.len() == 0 {
        1
    } else if dims.last() == usize::MAX {
        given_product(dims.drop_last())
    } else {
        given_product(dims.drop_last()) * (dims.last() as nat)
    }
}

/// Every running product of the given dimensions of `dims` fits in a `usize`.
pub open spec fn given_products_fit(dims: Seq<usize>) -> bool {
    forall|i: int| 0 <= i <= dims.len() ==> #[trigger] given_product(dims.take(i)) <= usize::MAX
}

/// `dims` with every `usize::MAX` replaced by `elems`.
pub open spec fn fill_inferred(dims: Seq<usize>, elems: usize) -> Seq<usize> {
    dims.map_values(|x: usize| if x == usize::MAX { elems } else { x })
}

/// The dimensions a reshape of a tensor of shape `shape` to `dims` gets:
/// `dims` itself when nothing is inferred, else the one `usize::MAX`
/// replaced by the element count divided by the product of the given
/// dimensions.
pub open spec fn spec_calc_dims(shape: Seq<usize>, dims: Seq<usize>) -> Seq<usize> {
    if count_inferred(dims) == 0 {
        dims
    } else {
        fill_inferred(dims, (shape_product(shape) / given_product(dims)) as usize)
    }
}

/// The number of `usize::MAX` entries of `dims`.
fn count_inferred_exec(dims: &Vec<usize>) -> (res: usize)
    ensures
        res == count_inferred(dims@),
{
    let mut count: usize = 0;
    let mut i: usize = 0;
    assert(dims@.take(0) =~= Seq::<usize>::empty());
    while i < dims.len()
        invariant
            i <= dims.len(),
            count == count_inferred(dims@.take(i as int)),
            count <= i,
        decreases dims.len() - i,
    {
        assert(dims@.take(i + 1).drop_last() =~= dims@.take(i as int));
        if dims[i] == usize::MAX {
            count += 1;
        }
        i += 1;
    }
    assert(dims@.take(dims.len() as int) =~= dims@);
    count
}

/// The product of the given (not `usize::MAX`) entries of `dims`.
fn given_product_exec(dims: &Vec<usize>) -> (res: usize)
    requires
        given_products_fit(dims@),
    ensures
        res == given_product(dims@),
{
    let mut acc: usize = 1;
    let mut i: usize = 0;
    assert(dims@.take(0) =~= Seq::<usize>::empty());
    while i < dims.len()
        invariant
            i <= dims.len(),
            given_products_fit(dims@),
            acc == given_product(dims@.take(i as int)),
        decreases dims.len() - i,
    {
        assert(dims@.take(i + 1).drop_last() =~= dims@.take(i as int));
        assert(given_product(dims@.take(i + 1)) <= usize::MAX);
        if dims[i] != usize::MAX {
            acc = acc * dims[i];
        }
        i += 1;
    }
    assert(dims@.take(dims.len() as int) =~= dims@);
    acc
}

/// Resolves the dimensions of a reshape of a tensor of shape `shape` to
/// `dims`, where at most one entry of `dims` is `usize::MAX`, standing for
/// the dimension to infer from the element count.
pub fn calc_dims(shape: &Vec<usize>, dims: &Vec<usize>) -> (res: Vec<usize>)
    requires
        count_inferred(dims@) <= 1,
        count_inferred(dims@) == 1 ==> {
            &&& products_fit(shape@)
            &&& given_products_fit(dims@)
            &&& given_product(dims@) > 0
        },
    ensures
        res@ == spec_calc_dims(shape@, dims@),
{
    let count = count_inferred_exec(dims);
    if count == 0 {
        return dims.clone();
    }
    assert(shape@.subrange(0, shape.len() as int) =~= shape@);
    let total = product_range(shape, 0, shape.len());
    let given = given_product_exec(dims);
    let elems = total / given;
    let mut res: Vec<usize> = Vec::new();
    let mut i: usize = 0;
    while i < dims.len()
        invariant
            i <= dims.len(),
            elems == shape_product(shape@) / given_product(dims@),
            res@ == fill_inferred(dims@, elems).take(i as int),
        decreases dims.len() - i,
    {
        if dims[i] == usize::MAX {
            res.push(elems);
        } else {
            res.push(dims[i]);
        }
        i += 1;
        assert(res@ =~= fill_inferred(dims@, elems).take(i as int));
    }
    assert(fill_inferred(dims@, elems).take(dims.len() as int) =~= fill_inferred(dims@, elems));
    res
}

proof fn lemma_fill_inferred_product(dims: Seq<usize>, elems: usize)
    requires
        count_inferred(dims) <= 1,
    ensures
        count_inferred(dims) == 0 ==> shape_product(fill_inferred(dims, elems)) == given_product(dims),
        count_inferred(dims) == 1 ==> shape_product(fill_inferred(dims, elems)) == given_product(dims) * elems,
    decreases dims.len(),
{
    let f = fill_inferred(dims, elems);
    if dims.len() > 0 {
        let d = dims.drop_last();
        assert(f.drop_last() =~= fill_inferred(d, elems));
        lemma_fill_inferred_product(d, elems);
        let gp = given_product(d) as int;
        let l = dims.last() as int;
        let e = elems as int;
        if dims.last() == usize::MAX {
            assert(f.last() == elems);
        } else {
            assert(f.last() == dims.last());
            if count_inferred(d) == 1 {
                assert(gp * e * l == gp * l * e) by (nonlinear_arith);
            }
        }
    } else {
        assert(f =~= dims);
    }
}

/// Resolving a reshape keeps the rank and every requested dimension that is
/// not inferred; with no inferred dimension the requested dimensions come
/// back unchanged, whatever the tensor's own shape.
pub proof fn lemma_calc_dims_keeps_given_dims(shape: Seq<usize>, dims: Seq<usize>)
    ensures
        spec_calc_dims(shape, dims).len() == dims.len(),
        forall|i: int|
            0 <= i < dims.len() && dims[i] != usize::MAX ==> #[trigger] spec_calc_dims(shape, dims)[i]
                == dims[i],
        count_inferred(dims) == 0 ==> spec_calc_dims(shape, dims) == dims,
{
}

/// A reshape with one inferred dimension keeps the number of elements
/// whenever the given dimensions divide it.
pub proof fn lemma_calc_dims_keeps_element_count(shape: Seq<usize>, dims: Seq<usize>)
    requires
        count_inferred(dims) == 1,
        given_product(dims) > 0,
        shape_product(shape) % given_product(dims) == 0,
        shape_product(shape) / given_product(dims) <= usize::MAX,
    ensures
        shape_product(spec_calc_dims(shape, dims)) == shape_product(shape),
{
    let elems = (shape_product(shape) / given_product(dims)) as usize;
    lemma_fill_inferred_product(dims, elems);
    vstd::arithmetic::div_mod::lemma_fundamental_div_mod(
        shape_product(shape) as int,
        given_product(dims) as int,
    );
    let g = given_product(dims) as int;
    let e = elems as int;
    assert(g * e == e * g) by (nonlinear_arith);
}

// ---------------------------------------------------------------------------
// unsqueeze_end: appending unit dimensions
// ---------------------------------------------------------------------------

/// The axis order that moves the `new_rank - rank` unit dimensions added in
/// front of a tensor of rank `rank` to its end.
pub open spec fn spec_unsqueeze_end_axes(rank: int, new_rank: int) -> Seq<int> {
    Seq::new(new_rank as nat, |i: int| if i < rank { i + (new_rank - rank) } else { i - rank })
}

/// The shape of a tensor whose axes are put in the order `axes`: output
/// dimension `i` is input dimension `axes[i]`.
pub open spec fn permuted_shape(shape: Seq<usize>, axes: Seq<int>) -> Seq<usize> {
    Seq::new(axes.len(), |i: int| shape[axes[i]])
}

/// `n` unit dimensions.
pub open spec fn unit_dims(n: nat) -> Seq<usize> {
    Seq::new(n, |i: int| 1usize)
}

/// The axis order with which a tensor of rank `rank`, unsqueezed to rank
/// `new_rank` (unit dimensions in front), is permuted so that the unit
/// dimensions come last.
pub fn unsqueeze_end_axes(rank: usize, new_rank: usize) -> (res: Vec<isize>)
    requires
        rank <= new_rank <= isize::MAX,
    ensures
        res.len() == new_rank,
        forall|i: int| 0 <= i < new_rank ==> #[trigger] res@[i] as int == spec_unsqueeze_end_axes(rank as int, new_rank as int)[i],
{
    let diff = new_rank - rank;
    let mut res: Vec<isize> = Vec::new();
    let mut i: usize = 0;
    while i < new_rank
        invariant
            rank <= new_rank <= isize::MAX,
            diff == new_rank - rank,
            i <= new_rank,
            res.len() == i,
            forall|k: int| 0 <= k < i ==> #[trigger] res@[k] as int == spec_unsqueeze_end_axes(rank as int, new_rank as int)[k],
        decreases new_rank - i,
    {
        let v = if i < rank { i + diff } else { i - rank };
        res.push(v as isize);
        i += 1;
    }
    res
}

/// The axis order of `unsqueeze_end` is a permutation of `0..new_rank`, and
/// applied to the unsqueezed shape (unit dimensions in front) it yields the
/// original shape followed by the unit dimensions.
pub proof fn lemma_unsqueeze_end_moves_units_last(shape: Seq<usize>, new_rank: nat)
    requires
        shape.len() <= new_rank,
    ensures
        ({
            let axes = spec_unsqueeze_end_axes(shape.len() as int, new_rank as int);
            &&& forall|i: int| 0 <= i < new_rank ==> 0 <= #[trigger] axes[i] < new_rank
            &&& forall|i: int, j: int|
                0 <= i < new_rank && 0 <= j < new_rank && i != j ==> #[trigger] axes[i] != #[trigger] axes[j]
            &&& permuted_shape(unit_dims((new_rank - shape.len()) as nat) + shape, axes)
                == shape + unit_dims((new_rank - shape.len()) as nat)
        }),
{
    let rank = shape.len() as int;
    let axes = spec_unsqueeze_end_axes(rank, new_rank as int);
    let n = (new_rank - shape.len()) as nat;
    assert(permuted_shape(unit_dims(n) + shape, axes) =~= shape + unit_dims(n));
}

} // verus!
