use vstd::arithmetic::div_mod::{lemma_fundamental_div_mod, lemma_fundamental_div_mod_converse};
use std::collections::HashMap;
use vstd::prelude::*;

verus! {

/// `|a - b|`.
pub open spec fn abs_diff(a: int, b: int) -> int {
    if a >= b {
        a - b
    } else {
        b - a
    }
}

/// The bias index shared by the query at flat position `p1` and the key at
/// flat position `p2` of a grid `w` wide: the pair of absolute row and
/// column offsets, numbered row-major.
pub open spec fn attention_offset_index(w: int, p1: int, p2: int) -> int {
    abs_diff(p1 / w, p2 / w) * w + abs_diff(p1 % w, p2 % w)
}

/// The layout of the position biases of an attention block over an
/// `h` by `w` grid.
pub struct AttentionBiases {
    /// Shape of the bias table: `(num_heads, num_offsets)`.
    pub biases_shape: (usize, usize),
    /// For every (query, key) pair of grid positions, in row-major order,
    /// the column of the bias table it uses.
    pub bias_idxs: Vec<i64>,
    /// Shape of the index table: `(h * w, h * w)`.
    pub bias_idxs_shape: (usize, usize),
}

/// Numbers the distinct (row, column) offsets between the grid positions
/// of a `resolution.0` by `resolution.1` grid in the order they are first
/// met, scanning queries and then keys row-major, and lays out the bias
/// table and the offset index of every (query, key) pair.
pub fn create_attention_biases(num_heads: usize, resolution: (usize, usize)) -> (res: AttentionBiases)
    requires
        resolution.0 <= 0x8000_0000,
        resolution.1 <= 0x8000_0000,
        resolution.0 * resolution.1 * resolution.0 * resolution.1 <= usize::MAX,
    ensures
        ({
            let (h, w) = resolution;
            let n = (h * w) as int;
            &&& res.biases_shape == (num_heads, (h * w) as usize)
            &&& res.bias_idxs_shape == ((h * w) as usize, (h * w) as usize)
            &&& res.bias_idxs.len() == n * n
            &&& forall|q: int|
                0 <= q < n * n ==> #[trigger] res.bias_idxs@[q] as int == attention_offset_index(
                    w as int,
                    q / n,
                    q % n,
                )
        }),
{
    broadcast use vstd::std_specs::hash::group_hash_axioms;

    let (h, w) = resolution;
    assert(h * w <= usize::MAX) by (nonlinear_arith)
        requires
            h * w * h * w <= usize::MAX,
            h >= 0,
            w >= 0,
    ;
    let n = h * w;
    assert(n * n <= usize::MAX) by (nonlinear_arith)
        requires
            n == h * w,
            h * w * h * w <= usize::MAX,
    ;
    assert(n <= 0x1_0000_0000) by (nonlinear_arith)
        requires
            n * n <= usize::MAX,
            n >= 0,
            usize::MAX <= 0xffff_ffff_ffff_ffff,
    ;
    // maps dy * w + dx to the number given to the offset (dy, dx), once met
    let mut offsets: HashMap<usize, usize> = HashMap::new();
    let mut num_offsets: usize = 0;
    let mut idxs: Vec<i64> = Vec::new();
    let mut p1: usize = 0;
    while p1 < n
        invariant
            n == h * w,
            n * n <= usize::MAX,
            n <= 0x1_0000_0000,
            h <= 0x8000_0000,
            p1 <= n,
            num_offsets == if p1 == 0 { 0 } else { n },
            forall|k: usize| #[trigger] offsets@.contains_key(k) <==> k < num_offsets,
            forall|k: usize| #[trigger] offsets@.contains_key(k) ==> offsets@[k] == k,
            idxs.len() == p1 * n,
            forall|q: int|
                0 <= q < idxs.len() ==> #[trigger] idxs@[q] as int == attention_offset_index(
                    w as int,
                    q / n as int,
                    q % n as int,
                ),
        decreases n - p1,
    {
        let i1 = p1 / w;
        let j1 = p1 % w;
        let mut p2: usize = 0;
        while p2 < n
            invariant
                n == h * w,
                n * n <= usize::MAX,
                n <= 0x1_0000_0000,
                h <= 0x8000_0000,
                p1 < n,
                i1 == p1 / w,
                j1 == p1 % w,
                p2 <= n,
                num_offsets == if p1 == 0 { p2 } else { n },
                forall|k: usize| #[trigger] offsets@.contains_key(k) <==> k < num_offsets,
                forall|k: usize| #[trigger] offsets@.contains_key(k) ==> offsets@[k] == k,
                idxs.len() == p1 * n + p2,
                forall|q: int|
                    0 <= q < idxs.len() ==> #[trigger] idxs@[q] as int == attention_offset_index(
                        w as int,
                        q / n as int,
                        q % n as int,
                    ),
            decreases n - p2,
        {
            let i2 = p2 / w;
            let j2 = p2 % w;
            let dy = if i1 >= i2 { i1 - i2 } else { i2 - i1 };
            let dx = if j1 >= j2 { j1 - j2 } else { j2 - j1 };
            proof {
                assert(w > 0) by (nonlinear_arith)
                    requires
                        p1 < n,
                        n == h * w,
                ;
                assert(h > 0) by (nonlinear_arith)
                    requires
                        p1 < n,
                        n == h * w,
                        w >= 0,
                ;
                lemma_fundamental_div_mod(p1 as int, w as int);
                lemma_fundamental_div_mod(p2 as int, w as int);
                assert(i1 < h && i2 < h) by (nonlinear_arith)
                    requires
                        p1 < h * w,
                        p2 < h * w,
                        p1 == w * i1 + j1,
                        p2 == w * i2 + j2,
                        0 <= j1,
                        0 <= j2,
                        w > 0,
                ;
                assert(dy * w + dx < n) by (nonlinear_arith)
                    requires
                        dy < h,
                        dx < w,
                        n == h * w,
                ;
            }
            let key = dy * w + dx;
            proof {
                if p1 == 0 {
                    // the first query meets every offset, in order
                    lemma_fundamental_div_mod_converse(0, w as int, 0, 0);
                    assert(i1 == 0 && j1 == 0);
                    assert(key == p2) by (nonlinear_arith)
                        requires
                            key == dy * w + dx,
                            dy == i2,
                            dx == j2,
                            p2 == w * i2 + j2,
                    ;
                }
            }
            let found: Option<usize> = match offsets.get(&key) {
                Some(idx) => Some(*idx),
                None => None,
            };
            let idx = match found {
                Some(idx) => idx,
                None => {
                    let idx = num_offsets;
                    offsets.insert(key, idx);
                    num_offsets = num_offsets + 1;
                    idx
                },
            };
            assert(idx == key);
            proof {
                let q = idxs.len() as int;
                assert(q == p1 * n + p2);
                lemma_fundamental_div_mod_converse(q, n as int, p1 as int, p2 as int);
            }
            idxs.push(idx as i64);
            p2 += 1;
        }
        proof {
            assert(p1 * n + n == (p1 + 1) * n) by (nonlinear_arith);
        }
        p1 += 1;
    }
    AttentionBiases {
        biases_shape: (num_heads, num_offsets),
        bias_idxs: idxs,
        bias_idxs_shape: (n, n),
    }
}

/// The sizes of a TinyViT attention block.
pub struct TinyVitAttentionLayout {
    /// Channels of the norm before attention: `dim`.
    pub norm_dim: usize,
    pub num_heads: usize,
    pub key_dim: usize,
    /// Value channels per head: `attn_ratio * key_dim`.
    pub d: usize,
    /// Value channels over all heads: `d * num_heads`.
    pub dh: usize,
    /// The query-key-value projection as (input, output):
    /// `(dim, dh + 2 * key_dim * num_heads)`.
    pub qkv: (usize, usize),
    /// The output projection as (input, output): `(dh, dim)`.
    pub proj: (usize, usize),
    /// The position biases over the `resolution` grid.
    pub biases: AttentionBiases,
}

impl TinyVitAttentionLayout {
    /// The layout of a TinyViT attention block over `dim` channels with
    /// `num_heads` heads of `key_dim` query and key channels and
    /// `attn_ratio * key_dim` value channels, on a square `resolution` grid.
    pub fn new(
        dim: usize,
        key_dim: usize,
        num_heads: usize,
        attn_ratio: usize,
        resolution: (usize, usize),
    ) -> (res: Self)
        requires
            resolution.0 == resolution.1,
            attn_ratio * key_dim <= usize::MAX,
            attn_ratio * key_dim * num_heads + key_dim * num_heads * 2 <= usize::MAX,
            resolution.0 <= 0x8000_0000,
            resolution.0 * resolution.1 * resolution.0 * resolution.1 <= usize::MAX,
        ensures
            ({
                let nh_kd = key_dim * num_heads;
                let d = attn_ratio * key_dim;
                let dh = d * num_heads;
                &&& res.norm_dim == dim
                &&& res.num_heads == num_heads
                &&& res.key_dim == key_dim
                &&& res.d == d
                &&& res.dh == dh
                &&& res.qkv == (dim, (dh + nh_kd * 2) as usize)
                &&& res.proj == (dh as usize, dim)
                &&& res.biases.biases_shape == (num_heads, (resolution.0 * resolution.1) as usize)
                &&& res.biases.bias_idxs_shape == (
                    (resolution.0 * resolution.1) as usize,
                    (resolution.0 * resolution.1) as usize,
                )
                &&& res.biases.bias_idxs.len() == (resolution.0 * resolution.1) * (resolution.0
                    * resolution.1)
                &&& forall|q: int|
                    0 <= q < res.biases.bias_idxs.len() ==> #[trigger] res.biases.bias_idxs@[q] as int
                        == attention_offset_index(
                        resolution.1 as int,
                        q / (resolution.0 * resolution.1) as int,
                        q % (resolution.0 * resolution.1) as int,
                    )
            }),
    {
        assert(key_dim * num_heads * 2 <= usize::MAX && attn_ratio * key_dim * num_heads <= usize::MAX)
            by (nonlinear_arith)
            requires
                attn_ratio * key_dim * num_heads + key_dim * num_heads * 2 <= usize::MAX,
                attn_ratio >= 0,
                key_dim >= 0,
                num_heads >= 0,
        ;
        assert(key_dim * num_heads <= usize::MAX) by (nonlinear_arith)
            requires
                key_dim * num_heads * 2 <= usize::MAX,
        ;
        let nh_kd = key_dim * num_heads;
        let d = attn_ratio * key_dim;
        let dh = d * num_heads;
        let h = dh + nh_kd * 2;
        let biases = create_attention_biases(num_heads, resolution);
        TinyVitAttentionLayout {
            norm_dim: dim,
            num_heads,
            key_dim,
            d,
            dh,
            qkv: (dim, h),
            proj: (dh, dim),
            biases,
        }
    }
}

/// The offset index is symmetric in the two positions, is zero for a
/// position with itself, and numbers the offsets of an `h` by `w` grid
/// with `0..h * w`.
pub proof fn lemma_attention_offset_index(h: int, w: int, p1: int, p2: int)
    requires
        0 <= h,
        0 <= w,
        0 <= p1 < h * w,
        0 <= p2 < h * w,
    ensures
        attention_offset_index(w, p1, p2) == attention_offset_index(w, p2, p1),
        attention_offset_index(w, p1, p1) == 0,
        0 <= attention_offset_index(w, p1, p2) < h * w,
{
    assert(w > 0 && h > 0) by (nonlinear_arith)
        requires
            0 <= p1 < h * w,
            0 <= h,
            0 <= w,
    ;
    lemma_fundamental_div_mod(p1, w);
    lemma_fundamental_div_mod(p2, w);
    let i1 = p1 / w;
    let i2 = p2 / w;
    let j1 = p1 % w;
    let j2 = p2 % w;
    assert(0 <= i1 < h && 0 <= i2 < h) by (nonlinear_arith)
        requires
            0 <= p1 < h * w,
            0 <= p2 < h * w,
            p1 == w * i1 + j1,
            p2 == w * i2 + j2,
            0 <= j1 < w,
            0 <= j2 < w,
    ;
    let dy = abs_diff(i1, i2);
    let dx = abs_diff(j1, j2);
    assert(0 <= dy * w + dx < h * w) by (nonlinear_arith)
        requires
            0 <= dy < h,
            0 <= dx < w,
    ;
}

/// The offsets are numbered in the order the first query meets them: the
/// offset between the first grid position and the key at `p2` gets the
/// number `p2`.
pub proof fn lemma_attention_offset_index_first_query(h: int, w: int, p2: int)
    requires
        0 <= h,
        0 <= w,
        0 <= p2 < h * w,
    ensures
        attention_offset_index(w, 0, p2) == p2,
{
    assert(w > 0) by (nonlinear_arith)
        requires
            0 <= p2 < h * w,
            0 <= h,
            0 <= w,
    ;
    lemma_fundamental_div_mod(p2, w);
    lemma_fundamental_div_mod_converse(0, w, 0, 0);
    assert(0 <= p2 / w) by {
        vstd::arithmetic::div_mod::lemma_div_pos_is_pos(p2, w);
    }
    assert(abs_diff(0, p2 / w) == p2 / w);
    assert(abs_diff(0, p2 % w) == p2 % w);
    assert((p2 / w) * w == w * (p2 / w)) by (nonlinear_arith);
}

} // verus!
