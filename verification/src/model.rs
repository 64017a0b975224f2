//! The mathematical model of square matrices: sequences of sequences of
//! integers, exact dot products, quadrant decomposition, zero padding and
//! powers of two, together with the lemmas the algorithms are proved
//! against.

use vstd::prelude::*;
use crate::modular::{
    crop, lemma_add_congruent, lemma_crop_congruent, lemma_crop_residue, lemma_mul_congruent,
    two_to_64,
};

verus! {

/// A square matrix model: every row as long as the sequence of rows.
pub open spec fn square(m: Seq<Seq<int>>) -> bool {
    forall|i: int| 0 <= i < m.len() ==> (#[trigger] m[i]).len() == m.len()
}

/// Every entry lies in `i64` range.
pub open spec fn bounded(m: Seq<Seq<int>>) -> bool {
    forall|i: int, j: int|
        0 <= i < m.len() && 0 <= j < m[i].len() ==> i64::MIN <= #[trigger] m[i][j] <= i64::MAX
}

/// Column `j` of `m`.
pub open spec fn column(m: Seq<Seq<int>>, j: int) -> Seq<int> {
    Seq::new(m.len(), |k: int| m[k][j])
}

/// Exact (unwrapped) dot product of two equally long sequences.
pub open spec fn dot(u: Seq<int>, v: Seq<int>) -> int
    decreases u.len(),
{
    if u.len() == 0 || v.len() == 0 {
        0
    } else {
        dot(u.drop_last(), v.drop_last()) + u.last() * v.last()
    }
}

/// Pointwise sum of two rows, exact.
pub open spec fn row_sum(u: Seq<int>, v: Seq<int>) -> Seq<int> {
    Seq::new(u.len(), |k: int| u[k] + v[k])
}

/// Pointwise difference of two rows, exact.
pub open spec fn row_diff(u: Seq<int>, v: Seq<int>) -> Seq<int> {
    Seq::new(u.len(), |k: int| u[k] - v[k])
}

/// Entrywise wrapped sum of two matrices: what `add` computes.
pub open spec fn mat_sum(a: Seq<Seq<int>>, b: Seq<Seq<int>>) -> Seq<Seq<int>> {
    Seq::new(a.len(), |i: int| Seq::new(a[i].len(), |j: int| crop(a[i][j] + b[i][j])))
}

/// Entrywise wrapped difference of two matrices: what `subtract` computes.
pub open spec fn mat_diff(a: Seq<Seq<int>>, b: Seq<Seq<int>>) -> Seq<Seq<int>> {
    Seq::new(a.len(), |i: int| Seq::new(a[i].len(), |j: int| crop(a[i][j] - b[i][j])))
}

/// The wrapped matrix product: cell (i, j) is the crop of the exact dot
/// product of row i of `a` with column j of `b`.
pub open spec fn mat_mul(a: Seq<Seq<int>>, b: Seq<Seq<int>>) -> Seq<Seq<int>> {
    Seq::new(a.len(), |i: int| Seq::new(a.len(), |j: int| crop(dot(a[i], column(b, j)))))
}

/// The order-`h` quadrant of `m` whose top-left cell is (`r0`, `c0`).
pub open spec fn quadrant(m: Seq<Seq<int>>, r0: int, c0: int, h: int) -> Seq<Seq<int>> {
    Seq::new(h as nat, |i: int| Seq::new(h as nat, |j: int| m[r0 + i][c0 + j]))
}

/// Four equal-order quadrants placed top-left, top-right, bottom-left and
/// bottom-right of a matrix of twice their order.
pub open spec fn assembled(
    c1: Seq<Seq<int>>,
    c2: Seq<Seq<int>>,
    c3: Seq<Seq<int>>,
    c4: Seq<Seq<int>>,
) -> Seq<Seq<int>> {
    let h = c1.len() as int;
    Seq::new(
        (2 * h) as nat,
        |i: int|
            Seq::new(
                (2 * h) as nat,
                |j: int|
                    if i < h {
                        if j < h {
                            c1[i][j]
                        } else {
                            c2[i][j - h]
                        }
                    } else {
                        if j < h {
                            c3[i - h][j]
                        } else {
                            c4[i - h][j - h]
                        }
                    },
            ),
    )
}

/// `m` enlarged to order `p`, the original in the top-left corner and every
/// added cell zero.
pub open spec fn padded(m: Seq<Seq<int>>, p: int) -> Seq<Seq<int>> {
    Seq::new(
        p as nat,
        |i: int|
            Seq::new(
                p as nat,
                |j: int|
                    if 0 <= i < m.len() && 0 <= j < m[i].len() {
                        m[i][j]
                    } else {
                        0
                    },
            ),
    )
}

/// The leading order-`n` corner of `m`.
pub open spec fn truncated(m: Seq<Seq<int>>, n: int) -> Seq<Seq<int>> {
    Seq::new(n as nat, |i: int| Seq::new(n as nat, |j: int| m[i][j]))
}

/// The identity matrix of order `n`.
pub open spec fn identity(n: int) -> Seq<Seq<int>> {
    Seq::new(n as nat, |i: int| Seq::new(n as nat, |j: int| if i == j { 1int } else { 0int }))
}

/// True of 1, 2, 4, 8, ...
pub open spec fn is_pow2(n: int) -> bool
    decreases n,
{
    if n < 1 {
        false
    } else if n == 1 {
        true
    } else {
        n % 2 == 0 && is_pow2(n / 2)
    }
}

/// The least power of two that is at least `n` (1 for `n <= 1`).
pub open spec fn next_pow2(n: int) -> int
    decreases n,
{
    if n <= 1 {
        1
    } else {
        2 * next_pow2((n + 1) / 2)
    }
}

/// The dot product distributes over a pointwise sum on the left.
pub proof fn lemma_dot_row_sum_left(u1: Seq<int>, u2: Seq<int>, v: Seq<int>)
    requires
        u1.len() == v.len(),
        u2.len() == v.len(),
    ensures
        dot(row_sum(u1, u2), v) == dot(u1, v) + dot(u2, v),
    decreases v.len(),
{
    if v.len() > 0 {
        assert(row_sum(u1, u2).drop_last() =~= row_sum(u1.drop_last(), u2.drop_last()));
        lemma_dot_row_sum_left(u1.drop_last(), u2.drop_last(), v.drop_last());
        assert((u1.last() + u2.last()) * v.last() == u1.last() * v.last() + u2.last() * v.last())
            by (nonlinear_arith);
    }
}

/// The dot product distributes over a pointwise difference on the left.
pub proof fn lemma_dot_row_diff_left(u1: Seq<int>, u2: Seq<int>, v: Seq<int>)
    requires
        u1.len() == v.len(),
        u2.len() == v.len(),
    ensures
        dot(row_diff(u1, u2), v) == dot(u1, v) - dot(u2, v),
    decreases v.len(),
{
    if v.len() > 0 {
        assert(row_diff(u1, u2).drop_last() =~= row_diff(u1.drop_last(), u2.drop_last()));
        lemma_dot_row_diff_left(u1.drop_last(), u2.drop_last(), v.drop_last());
        assert((u1.last() - u2.last()) * v.last() == u1.last() * v.last() - u2.last() * v.last())
            by (nonlinear_arith);
    }
}

/// The dot product distributes over a pointwise sum on the right.
pub proof fn lemma_dot_row_sum_right(u: Seq<int>, v1: Seq<int>, v2: Seq<int>)
    requires
        v1.len() == u.len(),
        v2.len() == u.len(),
    ensures
        dot(u, row_sum(v1, v2)) == dot(u, v1) + dot(u, v2),
    decreases u.len(),
{
    if u.len() > 0 {
        assert(row_sum(v1, v2).drop_last() =~= row_sum(v1.drop_last(), v2.drop_last()));
        lemma_dot_row_sum_right(u.drop_last(), v1.drop_last(), v2.drop_last());
        assert(u.last() * (v1.last() + v2.last()) == u.last() * v1.last() + u.last() * v2.last())
            by (nonlinear_arith);
    }
}

/// The dot product distributes over a pointwise difference on the right.
pub proof fn lemma_dot_row_diff_right(u: Seq<int>, v1: Seq<int>, v2: Seq<int>)
    requires
        v1.len() == u.len(),
        v2.len() == u.len(),
    ensures
        dot(u, row_diff(v1, v2)) == dot(u, v1) - dot(u, v2),
    decreases u.len(),
{
    if u.len() > 0 {
        assert(row_diff(v1, v2).drop_last() =~= row_diff(v1.drop_last(), v2.drop_last()));
        lemma_dot_row_diff_right(u.drop_last(), v1.drop_last(), v2.drop_last());
        assert(u.last() * (v1.last() - v2.last()) == u.last() * v1.last() - u.last() * v2.last())
            by (nonlinear_arith);
    }
}

/// A dot product splits at any index into the dot products of the two parts.
pub proof fn lemma_dot_split(u: Seq<int>, v: Seq<int>, h: int)
    requires
        u.len() == v.len(),
        0 <= h <= u.len(),
    ensures
        dot(u, v) == dot(u.subrange(0, h), v.subrange(0, h)) + dot(
            u.subrange(h, u.len() as int),
            v.subrange(h, v.len() as int),
        ),
    decreases u.len() - h,
{
    let n = u.len() as int;
    if h == n {
        assert(u.subrange(0, h) =~= u);
        assert(v.subrange(0, h) =~= v);
    } else {
        lemma_dot_split(u.drop_last(), v.drop_last(), h);
        assert(u.drop_last().subrange(0, h) =~= u.subrange(0, h));
        assert(v.drop_last().subrange(0, h) =~= v.subrange(0, h));
        assert(u.drop_last().subrange(h, n - 1) =~= u.subrange(h, n).drop_last());
        assert(v.drop_last().subrange(h, n - 1) =~= v.subrange(h, n).drop_last());
        assert(u.subrange(h, n).last() == u.last());
        assert(v.subrange(h, n).last() == v.last());
    }
}

/// A dot product whose left side is all zeros is zero.
pub proof fn lemma_dot_zero_left(u: Seq<int>, v: Seq<int>)
    requires
        u.len() == v.len(),
        forall|k: int| 0 <= k < u.len() ==> #[trigger] u[k] == 0,
    ensures
        dot(u, v) == 0,
    decreases u.len(),
{
    if u.len() > 0 {
        lemma_dot_zero_left(u.drop_last(), v.drop_last());
        assert(u.last() * v.last() == 0) by (nonlinear_arith)
            requires u.last() == 0;
    }
}

/// A dot product whose right side is all zeros is zero.
pub proof fn lemma_dot_zero_right(u: Seq<int>, v: Seq<int>)
    requires
        u.len() == v.len(),
        forall|k: int| 0 <= k < v.len() ==> #[trigger] v[k] == 0,
    ensures
        dot(u, v) == 0,
    decreases u.len(),
{
    if u.len() > 0 {
        lemma_dot_zero_right(u.drop_last(), v.drop_last());
        assert(u.last() * v.last() == 0) by (nonlinear_arith)
            requires v.last() == 0;
    }
}

/// The dot product with a unit vector picks out one coordinate.
pub proof fn lemma_dot_unit(u: Seq<int>, v: Seq<int>, j: int)
    requires
        u.len() == v.len(),
        0 <= j < v.len(),
        v[j] == 1,
        forall|k: int| 0 <= k < v.len() && k != j ==> #[trigger] v[k] == 0,
    ensures
        dot(u, v) == u[j],
    decreases u.len(),
{
    if j == u.len() - 1 {
        lemma_dot_zero_right(u.drop_last(), v.drop_last());
        assert(u.last() * v.last() == u.last()) by (nonlinear_arith)
            requires v.last() == 1;
    } else {
        lemma_dot_unit(u.drop_last(), v.drop_last(), j);
        assert(u.last() * v.last() == 0) by (nonlinear_arith)
            requires v.last() == 0;
    }
}

/// Dot products of pointwise congruent sequences are congruent.
pub proof fn lemma_dot_congruent(u: Seq<int>, u2: Seq<int>, v: Seq<int>, v2: Seq<int>)
    requires
        u.len() == v.len(),
        u2.len() == u.len(),
        v2.len() == u.len(),
        forall|k: int|
            0 <= k < u.len() ==> (#[trigger] u[k]) % two_to_64() == (#[trigger] u2[k])
                % two_to_64(),
        forall|k: int|
            0 <= k < v.len() ==> (#[trigger] v[k]) % two_to_64() == (#[trigger] v2[k])
                % two_to_64(),
    ensures
        dot(u, v) % two_to_64() == dot(u2, v2) % two_to_64(),
    decreases u.len(),
{
    if u.len() > 0 {
        lemma_dot_congruent(u.drop_last(), u2.drop_last(), v.drop_last(), v2.drop_last());
        lemma_mul_congruent(u.last(), v.last(), u2.last(), v2.last());
        lemma_add_congruent(
            dot(u.drop_last(), v.drop_last()),
            u.last() * v.last(),
            dot(u2.drop_last(), v2.drop_last()),
            u2.last() * v2.last(),
        );
    }
}

/// What `next_pow2` returns: a power of two, at least `n`, and `n` itself
/// when `n` already is a power of two.
pub proof fn lemma_next_pow2_props(n: int)
    ensures
        is_pow2(next_pow2(n)),
        next_pow2(n) >= n,
        next_pow2(n) >= 1,
        is_pow2(n) ==> next_pow2(n) == n,
    decreases n,
{
    if n <= 1 {
    } else {
        let n2 = (n + 1) / 2;
        lemma_next_pow2_props(n2);
        let q = next_pow2(n2);
        assert((2 * q) % 2 == 0 && (2 * q) / 2 == q) by (nonlinear_arith)
            requires q >= 1;
        assert(2 * ((n + 1) / 2) >= n) by (nonlinear_arith)
            requires n >= 2;
        if is_pow2(n) {
            assert(n % 2 == 0 && is_pow2(n / 2));
            assert((n + 1) / 2 == n / 2) by (nonlinear_arith)
                requires n >= 2 && n % 2 == 0;
            assert(2 * (n / 2) == n) by (nonlinear_arith)
                requires n % 2 == 0;
        }
    }
}

/// Between a power of two and any larger power of two there is room for a
/// doubling.
pub proof fn lemma_pow2_le(p: int, q: int)
    requires
        is_pow2(p),
        is_pow2(q),
        p < q,
    ensures
        2 * p <= q,
    decreases p,
{
    assert(q % 2 == 0 && is_pow2(q / 2));
    assert(q == 2 * (q / 2)) by (nonlinear_arith)
        requires q % 2 == 0;
    if p == 1 {
    } else {
        assert(p == 2 * (p / 2)) by (nonlinear_arith)
            requires p % 2 == 0;
        lemma_pow2_le(p / 2, q / 2);
    }
}

/// `next_pow2(n)` is the least power of two at least `n`.
pub proof fn lemma_next_pow2_min(n: int, q: int)
    requires
        is_pow2(q),
        q >= n,
    ensures
        next_pow2(n) <= q,
    decreases n,
{
    if n <= 1 {
        if q < 1 {
            assert(!is_pow2(q));
        }
    } else {
        assert(q % 2 == 0 && is_pow2(q / 2));
        assert(q == 2 * (q / 2)) by (nonlinear_arith)
            requires q % 2 == 0;
        let n2 = (n + 1) / 2;
        assert(2 * n2 <= n + 1);
        assert(q / 2 >= n2) by {
            if q == n {
                assert(2 * n2 <= n);
            }
        };
        lemma_next_pow2_min(n2, q / 2);
    }
}

/// A power of two above 1 halves to a power of two.
pub proof fn lemma_pow2_half(n: int)
    requires
        is_pow2(n),
        n > 1,
    ensures
        n % 2 == 0,
        is_pow2(n / 2),
        n / 2 >= 1,
        n == 2 * (n / 2),
    decreases n,
{
    assert(n == 2 * (n / 2)) by (nonlinear_arith)
        requires n % 2 == 0;
}

/// Multiplying the zero-padded enlargements and keeping the leading corner
/// is the same as multiplying the originals: the padding rows and columns
/// contribute nothing.
pub proof fn lemma_padded_product(a: Seq<Seq<int>>, b: Seq<Seq<int>>, p: int)
    requires
        square(a),
        square(b),
        a.len() == b.len(),
        p >= a.len(),
    ensures
        truncated(mat_mul(padded(a, p), padded(b, p)), a.len() as int) == mat_mul(a, b),
{
    let n = a.len() as int;
    let pa = padded(a, p);
    let pb = padded(b, p);
    assert forall|i: int, j: int| 0 <= i < n && 0 <= j < n implies crop(
        dot(pa[i], column(pb, j)),
    ) == crop(dot(a[i], column(b, j))) by {
        lemma_dot_split(pa[i], column(pb, j), n);
        assert(pa[i].subrange(0, n) =~= a[i]);
        assert(column(pb, j).subrange(0, n) =~= column(b, j));
        lemma_dot_zero_left(pa[i].subrange(n, p), column(pb, j).subrange(n, p));
    };
    assert(truncated(mat_mul(pa, pb), n) =~~= mat_mul(a, b));
}

} // verus!
