use vstd::arithmetic::div_mod::lemma_fundamental_div_mod_converse;
use vstd::prelude::*;

use crate::sam_predictor::Size;

verus! {

/// The row of the relative-position table read by the query at `i` and the
/// key at `j` when queries and keys have the same size `n`: positions are
/// shifted by `n - 1` so that offsets from `-(n - 1)` to `n - 1` number the
/// rows `0` to `2n - 2`.
pub open spec fn rel_pos_row(n: int, i: int, j: int) -> int {
    i - j + n - 1
}

/// For query and key sizes both equal to `n`, the table row of every
/// (query, key) pair, row-major over the pair: entry `i * n + j` is
/// `i - j + n - 1`. Every entry is below `2n - 1`, the length of a table
/// that needs no resizing, so no entry needs clamping.
pub fn equal_size_rel_pos_rows(n: usize) -> (res: Vec<usize>)
    requires
        n * n <= usize::MAX,
    ensures
        res.len() == n * n,
        forall|q: int|
            0 <= q < n * n ==> #[trigger] res@[q] as int == rel_pos_row(n as int, q / n as int, q % n as int),
        forall|q: int| 0 <= q < n * n ==> #[trigger] res@[q] < 2 * n - 1,
{
    assert(2 * n <= usize::MAX + 1) by (nonlinear_arith)
        requires
            n * n <= usize::MAX,
            n >= 0,
    ;
    let mut res: Vec<usize> = Vec::new();
    let mut i: usize = 0;
    while i < n
        invariant
            n * n <= usize::MAX,
            2 * n <= usize::MAX + 1,
            i <= n,
            res.len() == i * n,
            forall|q: int|
                0 <= q < res.len() ==> #[trigger] res@[q] as int == rel_pos_row(n as int, q / n as int, q % n as int),
        decreases n - i,
    {
        let mut j: usize = 0;
        while j < n
            invariant
                n * n <= usize::MAX,
                2 * n <= usize::MAX + 1,
                i < n,
                j <= n,
                res.len() == i * n + j,
                forall|q: int|
                    0 <= q < res.len() ==> #[trigger] res@[q] as int == rel_pos_row(n as int, q / n as int, q % n as int),
            decreases n - j,
        {
            proof {
                lemma_fundamental_div_mod_converse((i * n + j) as int, n as int, i as int, j as int);
            }
            res.push(i + (n - 1) - j);
            j += 1;
        }
        assert(i * n + n == (i + 1) * n) by (nonlinear_arith);
        i += 1;
    }
    assert forall|q: int| 0 <= q < n * n implies #[trigger] res@[q] < 2 * n - 1 by {
        assert(0 <= q / (n as int) < n && 0 <= q % (n as int) < n) by (nonlinear_arith)
            requires
                0 <= q < n * n,
        ;
    }
    res
}

/// The rows of a row-major `table` of rows `dim` wide that `rows` names, one
/// after another: value `p` of the result is value `p % dim` of row
/// `rows[p / dim]`.
pub fn gather_rows<T: Copy>(table: &Vec<T>, dim: usize, rows: &Vec<usize>) -> (res: Vec<T>)
    requires
        rows.len() * dim <= usize::MAX,
        forall|q: int| 0 <= q < rows.len() ==> (#[trigger] rows@[q] + 1) * dim <= table.len(),
    ensures
        res.len() == rows.len() * dim,
        forall|p: int|
            0 <= p < res.len() ==> #[trigger] res@[p] == table@[rows@[p / dim as int] * dim + p % dim as int],
{
    let mut res: Vec<T> = Vec::new();
    let mut q: usize = 0;
    while q < rows.len()
        invariant
            rows.len() * dim <= usize::MAX,
            forall|k: int| 0 <= k < rows.len() ==> (#[trigger] rows@[k] + 1) * dim <= table.len(),
            q <= rows.len(),
            res.len() == q * dim,
            forall|p: int|
                0 <= p < res.len() ==> #[trigger] res@[p] == table@[rows@[p / dim as int] * dim + p % dim as int],
        decreases rows.len() - q,
    {
        let row = rows[q];
        assert((row + 1) * dim <= table.len());
        assert(row * dim + dim == (row + 1) * dim) by (nonlinear_arith);
        let mut c: usize = 0;
        while c < dim
            invariant
                rows.len() * dim <= usize::MAX,
                q < rows.len(),
                row == rows@[q as int],
                row * dim + dim <= table.len(),
                c <= dim,
                res.len() == q * dim + c,
                forall|p: int|
                    0 <= p < res.len() ==> #[trigger] res@[p] == table@[rows@[p / dim as int] * dim + p % dim as int],
            decreases dim - c,
        {
            proof {
                lemma_fundamental_div_mod_converse((q * dim + c) as int, dim as int, q as int, c as int);
                assert(q * dim + c < rows.len() * dim) by (nonlinear_arith)
                    requires
                        q < rows.len(),
                        c < dim,
                ;
            }
            res.push(table[row * dim + c]);
            c += 1;
        }
        assert(q * dim + dim == (q + 1) * dim) by (nonlinear_arith);
        q += 1;
    }
    res
}

/// The flat position of value `c` of the pair `(i, j)` in a row-major
/// `n` by `n` grid of rows `dim` wide.
pub open spec fn grid_flat(n: int, dim: int, i: int, j: int, c: int) -> int {
    (i * n + j) * dim + c
}

/// The relative-position embeddings of every (query, key) pair for query
/// and key sizes both `n`, from a table of `2n - 1` rows of `dim` values:
/// the pair `(i, j)` gets row `i - j + n - 1`, so that the result depends
/// on `i - j` alone.
pub fn equal_size_rel_pos<T: Copy>(table: &Vec<T>, dim: usize, n: usize) -> (res: Vec<T>)
    requires
        n >= 1,
        table.len() == (2 * n - 1) * dim,
        n * n <= usize::MAX,
        n * n * dim <= usize::MAX,
    ensures
        res.len() == n * n * dim,
        forall|i: int, j: int, c: int|
            0 <= i < n && 0 <= j < n && 0 <= c < dim ==> #[trigger] res@[grid_flat(n as int, dim as int, i, j, c)]
                == table@[rel_pos_row(n as int, i, j) * dim + c],
        forall|i: int, j: int, c: int|
            0 <= i < n - 1 && 0 <= j < n - 1 && 0 <= c < dim ==> #[trigger] res@[grid_flat(n as int, dim as int, i + 1, j + 1, c)]
                == res@[grid_flat(n as int, dim as int, i, j, c)],
{
    let rows = equal_size_rel_pos_rows(n);
    assert forall|q: int| 0 <= q < rows.len() implies (#[trigger] rows@[q] + 1) * dim <= table.len() by {
        assert(rows@[q] < 2 * n - 1);
        assert((rows@[q] + 1) * dim <= (2 * n - 1) * dim) by (nonlinear_arith)
            requires
                rows@[q] + 1 <= 2 * n - 1,
                dim >= 0,
        ;
    }
    let res = gather_rows(table, dim, &rows);
    assert forall|i: int, j: int, c: int|
        0 <= i < n && 0 <= j < n && 0 <= c < dim implies #[trigger] res@[grid_flat(n as int, dim as int, i, j, c)]
            == table@[rel_pos_row(n as int, i, j) * dim + c] by {
        let q = i * n + j;
        let p = grid_flat(n as int, dim as int, i, j, c);
        lemma_fundamental_div_mod_converse(q, n as int, i, j);
        lemma_fundamental_div_mod_converse(p, dim as int, q, c);
        assert(0 <= q < n * n && 0 <= p < n * n * dim) by (nonlinear_arith)
            requires
                0 <= i < n,
                0 <= j < n,
                0 <= c < dim,
                q == i * n + j,
                p == q * dim + c,
        ;
    }
    res
}

/// The sizes of a multi-head attention block with relative position
/// embeddings.
pub struct VitAttentionLayout {
    pub num_heads: usize,
    /// Channels per head: `dim / num_heads`.
    pub head_dim: usize,
    /// The query-key-value projection as (input, output): `(dim, 3 * dim)`.
    pub qkv: (usize, usize),
    pub qkv_bias: bool,
    /// The output projection as (input, output): `(dim, dim)`.
    pub proj: (usize, usize),
    pub use_rel_pos: bool,
    /// Shape of the vertical relative-position table, `(2h - 1, head_dim)`
    /// for an input of `h` rows, where relative positions are used.
    pub rel_pos_h_shape: Option<(usize, usize)>,
    /// Shape of the horizontal relative-position table, `(2w - 1, head_dim)`
    /// for an input of `w` columns, where relative positions are used.
    pub rel_pos_w_shape: Option<(usize, usize)>,
}

impl VitAttentionLayout {
    /// The layout of an attention block over `dim` channels with
    /// `num_heads` (default 8) heads, a bias on the query-key-value
    /// projection unless `qkv_bias` is `Some(false)`, and relative position
    /// tables sized from `input_size` where `use_rel_pos` is `Some(true)`;
    /// `None` where relative positions are asked for without an input size.
    pub fn new(
        dim: usize,
        num_heads: Option<usize>,
        qkv_bias: Option<bool>,
        use_rel_pos: Option<bool>,
        input_size: Option<Size>,
    ) -> (res: Option<Self>)
        requires
            num_heads.unwrap_or(8) > 0,
            3 * dim <= usize::MAX,
            use_rel_pos.unwrap_or(false) && input_size is Some ==> ({
                let size = input_size.unwrap();
                &&& 1 <= size.0 && 2 * size.0 <= usize::MAX
                &&& 1 <= size.1 && 2 * size.1 <= usize::MAX
            }),
        ensures
            res is None <==> (use_rel_pos.unwrap_or(false) && input_size is None),
            res matches Some(l) ==> ({
                let heads = num_heads.unwrap_or(8);
                let head_dim = (dim / heads) as usize;
                &&& l.num_heads == heads
                &&& l.head_dim == head_dim
                &&& l.qkv == (dim, (3 * dim) as usize)
                &&& l.qkv_bias == qkv_bias.unwrap_or(true)
                &&& l.proj == (dim, dim)
                &&& l.use_rel_pos == use_rel_pos.unwrap_or(false)
                &&& if l.use_rel_pos {
                    let size = input_size.unwrap();
                    &&& l.rel_pos_h_shape == Some(((2 * size.0 - 1) as usize, head_dim))
                    &&& l.rel_pos_w_shape == Some(((2 * size.1 - 1) as usize, head_dim))
                } else {
                    l.rel_pos_h_shape is None && l.rel_pos_w_shape is None
                }
            }),
    {
        let num_heads = match num_heads {
            Some(n) => n,
            None => 8,
        };
        let qkv_bias = match qkv_bias {
            Some(b) => b,
            None => true,
        };
        let use_rel_pos = match use_rel_pos {
            Some(b) => b,
            None => false,
        };
        let head_dim = dim / num_heads;
        let mut rel_pos_h_shape = None;
        let mut rel_pos_w_shape = None;
        if use_rel_pos {
            match input_size {
                Some(Size(h, w)) => {
                    rel_pos_h_shape = Some((2 * h - 1, head_dim));
                    rel_pos_w_shape = Some((2 * w - 1, head_dim));
                },
                None => {
                    return None;
                },
            }
        }
        Some(
            VitAttentionLayout {
                num_heads,
                head_dim,
                qkv: (dim, 3 * dim),
                qkv_bias,
                proj: (dim, dim),
                use_rel_pos,
                rel_pos_h_shape,
                rel_pos_w_shape,
            },
        )
    }
}

} // verus!
