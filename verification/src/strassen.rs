//! Strassen's recursive multiplication: pad both inputs to the next power
//! of two, recurse on quadrants with seven products per level down to an
//! order-2 scalar base case, and trim the result back to the original
//! order. The contract of `strassen` is the same `mat_mul` that the
//! standard cubic `Matrix::multiply` ensures, so the two algorithms agree
//! exactly on every pair of equal-order matrices.

use vstd::prelude::*;
use crate::matrix::Matrix;
use crate::model::{
    assembled, column, dot, is_pow2, lemma_dot_congruent, lemma_dot_row_diff_left,
    lemma_dot_row_diff_right, lemma_dot_row_sum_left, lemma_dot_row_sum_right, lemma_dot_split,
    lemma_next_pow2_props, lemma_padded_product, lemma_pow2_half, mat_diff, mat_mul, mat_sum,
    next_pow2, quadrant, row_diff, row_sum, square, truncated,
};
use crate::modular::{
    crop, lemma_crop_add_both, lemma_crop_congruent, lemma_crop_id, lemma_crop_mul_both,
    lemma_crop_residue, lemma_crop_sub_both, lemma_wrapping_add_crop, lemma_wrapping_mul_crop,
    lemma_wrapping_sub_crop, two_to_64,
};
use crate::MAX_ORDER;

verus! {

/// The first Strassen product of the half-order quadrants:
/// (A11 + A22)(B11 + B22).
pub open spec fn sm1(a: Seq<Seq<int>>, b: Seq<Seq<int>>, h: int) -> Seq<Seq<int>> {
    mat_mul(
        mat_sum(quadrant(a, 0, 0, h), quadrant(a, h, h, h)),
        mat_sum(quadrant(b, 0, 0, h), quadrant(b, h, h, h)),
    )
}

/// The second Strassen product: (A21 + A22) B11.
pub open spec fn sm2(a: Seq<Seq<int>>, b: Seq<Seq<int>>, h: int) -> Seq<Seq<int>> {
    mat_mul(mat_sum(quadrant(a, h, 0, h), quadrant(a, h, h, h)), quadrant(b, 0, 0, h))
}

/// The third Strassen product: A11 (B12 - B22).
pub open spec fn sm3(a: Seq<Seq<int>>, b: Seq<Seq<int>>, h: int) -> Seq<Seq<int>> {
    mat_mul(quadrant(a, 0, 0, h), mat_diff(quadrant(b, 0, h, h), quadrant(b, h, h, h)))
}

/// The fourth Strassen product: A22 (B21 - B11).
pub open spec fn sm4(a: Seq<Seq<int>>, b: Seq<Seq<int>>, h: int) -> Seq<Seq<int>> {
    mat_mul(quadrant(a, h, h, h), mat_diff(quadrant(b, h, 0, h), quadrant(b, 0, 0, h)))
}

/// The fifth Strassen product: (A11 + A12) B22.
pub open spec fn sm5(a: Seq<Seq<int>>, b: Seq<Seq<int>>, h: int) -> Seq<Seq<int>> {
    mat_mul(mat_sum(quadrant(a, 0, 0, h), quadrant(a, 0, h, h)), quadrant(b, h, h, h))
}

/// The sixth Strassen product: (A21 - A11)(B11 + B12).
pub open spec fn sm6(a: Seq<Seq<int>>, b: Seq<Seq<int>>, h: int) -> Seq<Seq<int>> {
    mat_mul(
        mat_diff(quadrant(a, h, 0, h), quadrant(a, 0, 0, h)),
        mat_sum(quadrant(b, 0, 0, h), quadrant(b, 0, h, h)),
    )
}

/// The seventh Strassen product: (A12 - A22)(B21 + B22).
pub open spec fn sm7(a: Seq<Seq<int>>, b: Seq<Seq<int>>, h: int) -> Seq<Seq<int>> {
    mat_mul(
        mat_diff(quadrant(a, 0, h, h), quadrant(a, h, h, h)),
        mat_sum(quadrant(b, h, 0, h), quadrant(b, h, h, h)),
    )
}

/// The top-left result quadrant: M1 + M4 - M5 + M7.
pub open spec fn sc1(a: Seq<Seq<int>>, b: Seq<Seq<int>>, h: int) -> Seq<Seq<int>> {
    mat_sum(mat_diff(mat_sum(sm1(a, b, h), sm4(a, b, h)), sm5(a, b, h)), sm7(a, b, h))
}

/// The top-right result quadrant: M3 + M5.
pub open spec fn sc2(a: Seq<Seq<int>>, b: Seq<Seq<int>>, h: int) -> Seq<Seq<int>> {
    mat_sum(sm3(a, b, h), sm5(a, b, h))
}

/// The bottom-left result quadrant: M2 + M4.
pub open spec fn sc3(a: Seq<Seq<int>>, b: Seq<Seq<int>>, h: int) -> Seq<Seq<int>> {
    mat_sum(sm2(a, b, h), sm4(a, b, h))
}

/// The bottom-right result quadrant: M1 - M2 + M3 + M6.
pub open spec fn sc4(a: Seq<Seq<int>>, b: Seq<Seq<int>>, h: int) -> Seq<Seq<int>> {
    mat_sum(mat_sum(mat_diff(sm1(a, b, h), sm2(a, b, h)), sm3(a, b, h)), sm6(a, b, h))
}

/// The seven-product identities on scalars: the four Strassen combination
/// formulas equal the four cells of a direct 2 by 2 product, over the
/// integers.
pub proof fn lemma_seven_product_scalars(
    a1: int, a2: int, a3: int, a4: int,
    b1: int, b2: int, b3: int, b4: int,
)
    ensures
        (a1 + a4) * (b1 + b4) + a4 * (b3 - b1) - (a1 + a2) * b4 + (a2 - a4) * (b3 + b4) == a1 * b1
            + a2 * b3,
        a1 * (b2 - b4) + (a1 + a2) * b4 == a1 * b2 + a2 * b4,
        (a3 + a4) * b1 + a4 * (b3 - b1) == a3 * b1 + a4 * b3,
        (a1 + a4) * (b1 + b4) - (a3 + a4) * b1 + a1 * (b2 - b4) + (a3 - a1) * (b1 + b2) == a3 * b2
            + a4 * b4,
{
    assert((a1 + a4) * (b1 + b4) + a4 * (b3 - b1) - (a1 + a2) * b4 + (a2 - a4) * (b3 + b4) == a1
        * b1 + a2 * b3) by (nonlinear_arith);
    assert(a1 * (b2 - b4) + (a1 + a2) * b4 == a1 * b2 + a2 * b4) by (nonlinear_arith);
    assert((a3 + a4) * b1 + a4 * (b3 - b1) == a3 * b1 + a4 * b3) by (nonlinear_arith);
    assert((a1 + a4) * (b1 + b4) - (a3 + a4) * b1 + a1 * (b2 - b4) + (a3 - a1) * (b1 + b2) == a3
        * b2 + a4 * b4) by (nonlinear_arith);
}

/// A cell of a wrapped matrix product equals the crop of the exact dot
/// product of any row and column congruent to the factors' row and column.
proof fn lemma_mul_cell(
    p: Seq<Seq<int>>,
    q: Seq<Seq<int>>,
    u: Seq<int>,
    w: Seq<int>,
    i: int,
    j: int,
)
    requires
        0 <= i < p.len(),
        0 <= j < p.len(),
        p[i].len() == q.len(),
        u.len() == q.len(),
        w.len() == q.len(),
        forall|k: int|
            0 <= k < u.len() ==> #[trigger] (p[i][k] % two_to_64()) == u[k] % two_to_64(),
        forall|k: int|
            0 <= k < w.len() ==> #[trigger] (q[k][j] % two_to_64()) == w[k] % two_to_64(),
    ensures
        mat_mul(p, q)[i][j] == crop(dot(u, w)),
{
    let cq = column(q, j);
    assert forall|k: int| 0 <= k < cq.len() implies #[trigger] (cq[k] % two_to_64()) == w[k]
        % two_to_64() by {
        assert(cq[k] == q[k][j]);
        assert(q[k][j] % two_to_64() == w[k] % two_to_64());
    }
    lemma_dot_congruent(p[i], u, cq, w);
    lemma_crop_congruent(dot(p[i], cq), dot(u, w));
}

/// A top-left cell of the combined quadrants equals the same cell of the
/// whole product.
proof fn lemma_step_tl(a: Seq<Seq<int>>, b: Seq<Seq<int>>, h: int, i: int, j: int)
    requires
        square(a),
        square(b),
        a.len() == b.len(),
        h >= 1,
        a.len() == 2 * h,
        0 <= i < h,
        0 <= j < h,
    ensures
        sc1(a, b, h)[i][j] == mat_mul(a, b)[i][j],
{
    let qa1 = quadrant(a, 0, 0, h);
    let qa2 = quadrant(a, 0, h, h);
    let qa4 = quadrant(a, h, h, h);
    let qb1 = quadrant(b, 0, 0, h);
    let qb3 = quadrant(b, h, 0, h);
    let qb4 = quadrant(b, h, h, h);
    let w1 = column(qb1, j);
    let w3 = column(qb3, j);
    let w4 = column(qb4, j);
    let d11 = dot(qa1[i], w1);
    let d14 = dot(qa1[i], w4);
    let d41 = dot(qa4[i], w1);
    let d44 = dot(qa4[i], w4);
    let d43 = dot(qa4[i], w3);
    let d24 = dot(qa2[i], w4);
    let d23 = dot(qa2[i], w3);

    // M1 cell: congruent to the exact dot of the summed row and column.
    let u1 = row_sum(qa1[i], qa4[i]);
    let v1 = row_sum(w1, w4);
    let p1 = mat_sum(qa1, qa4);
    let q1 = mat_sum(qb1, qb4);
    assert forall|k: int| 0 <= k < u1.len() implies #[trigger] (p1[i][k] % two_to_64()) == u1[k]
        % two_to_64() by {
        assert(p1[i][k] == crop(qa1[i][k] + qa4[i][k]));
        lemma_crop_residue(qa1[i][k] + qa4[i][k]);
    }
    assert forall|k: int| 0 <= k < v1.len() implies #[trigger] (q1[k][j] % two_to_64()) == v1[k]
        % two_to_64() by {
        assert(q1[k][j] == crop(qb1[k][j] + qb4[k][j]));
        assert(v1[k] == w1[k] + w4[k] && w1[k] == qb1[k][j] && w4[k] == qb4[k][j]);
        lemma_crop_residue(qb1[k][j] + qb4[k][j]);
    }
    lemma_mul_cell(p1, q1, u1, v1, i, j);
    lemma_dot_row_sum_left(qa1[i], qa4[i], v1);
    lemma_dot_row_sum_right(qa1[i], w1, w4);
    lemma_dot_row_sum_right(qa4[i], w1, w4);
    assert(sm1(a, b, h)[i][j] == crop(d11 + d14 + d41 + d44));

    // M4 cell.
    let v4 = row_diff(w3, w1);
    let q4 = mat_diff(qb3, qb1);
    assert forall|k: int| 0 <= k < qa4[i].len() implies #[trigger] (qa4[i][k] % two_to_64())
        == qa4[i][k] % two_to_64() by {}
    assert forall|k: int| 0 <= k < v4.len() implies #[trigger] (q4[k][j] % two_to_64()) == v4[k]
        % two_to_64() by {
        assert(q4[k][j] == crop(qb3[k][j] - qb1[k][j]));
        assert(v4[k] == w3[k] - w1[k] && w3[k] == qb3[k][j] && w1[k] == qb1[k][j]);
        lemma_crop_residue(qb3[k][j] - qb1[k][j]);
    }
    lemma_mul_cell(qa4, q4, qa4[i], v4, i, j);
    lemma_dot_row_diff_right(qa4[i], w3, w1);
    assert(sm4(a, b, h)[i][j] == crop(d43 - d41));

    // M5 cell.
    let u5 = row_sum(qa1[i], qa2[i]);
    let p5 = mat_sum(qa1, qa2);
    assert forall|k: int| 0 <= k < u5.len() implies #[trigger] (p5[i][k] % two_to_64()) == u5[k]
        % two_to_64() by {
        assert(p5[i][k] == crop(qa1[i][k] + qa2[i][k]));
        lemma_crop_residue(qa1[i][k] + qa2[i][k]);
    }
    assert forall|k: int| 0 <= k < w4.len() implies #[trigger] (qb4[k][j] % two_to_64()) == w4[k]
        % two_to_64() by {
        assert(w4[k] == qb4[k][j]);
    }
    lemma_mul_cell(p5, qb4, u5, w4, i, j);
    lemma_dot_row_sum_left(qa1[i], qa2[i], w4);
    assert(sm5(a, b, h)[i][j] == crop(d14 + d24));

    // M7 cell.
    let u7 = row_diff(qa2[i], qa4[i]);
    let v7 = row_sum(w3, w4);
    let p7 = mat_diff(qa2, qa4);
    let q7 = mat_sum(qb3, qb4);
    assert forall|k: int| 0 <= k < u7.len() implies #[trigger] (p7[i][k] % two_to_64()) == u7[k]
        % two_to_64() by {
        assert(p7[i][k] == crop(qa2[i][k] - qa4[i][k]));
        lemma_crop_residue(qa2[i][k] - qa4[i][k]);
    }
    assert forall|k: int| 0 <= k < v7.len() implies #[trigger] (q7[k][j] % two_to_64()) == v7[k]
        % two_to_64() by {
        assert(q7[k][j] == crop(qb3[k][j] + qb4[k][j]));
        assert(v7[k] == w3[k] + w4[k] && w3[k] == qb3[k][j] && w4[k] == qb4[k][j]);
        lemma_crop_residue(qb3[k][j] + qb4[k][j]);
    }
    lemma_mul_cell(p7, q7, u7, v7, i, j);
    lemma_dot_row_diff_left(qa2[i], qa4[i], v7);
    lemma_dot_row_sum_right(qa2[i], w3, w4);
    lemma_dot_row_sum_right(qa4[i], w3, w4);
    assert(sm7(a, b, h)[i][j] == crop(d23 + d24 - (d43 + d44)));

    // Combine the four cells exactly as the executable code does.
    let e1 = d11 + d14 + d41 + d44;
    let e4 = d43 - d41;
    let e5 = d14 + d24;
    let e7 = d23 + d24 - (d43 + d44);
    assert(sc1(a, b, h)[i][j] == crop(
        crop(crop(sm1(a, b, h)[i][j] + sm4(a, b, h)[i][j]) - sm5(a, b, h)[i][j]) + sm7(
            a,
            b,
            h,
        )[i][j],
    ));
    lemma_crop_add_both(e1, e4);
    lemma_crop_id(crop(e1 + e4));
    lemma_crop_id(crop(e5));
    lemma_crop_sub_both(e1 + e4, e5);
    lemma_crop_id(crop(e1 + e4 - e5));
    lemma_crop_id(crop(e7));
    lemma_crop_add_both(e1 + e4 - e5, e7);
    assert(sc1(a, b, h)[i][j] == crop(d11 + d23));

    // The whole product's cell splits into the same two dot products.
    let n = a.len() as int;
    lemma_dot_split(a[i], column(b, j), h);
    assert(a[i].subrange(0, h) =~= qa1[i]);
    assert(a[i].subrange(h, n) =~= qa2[i]);
    assert(column(b, j).subrange(0, h) =~= w1);
    assert(column(b, j).subrange(h, n) =~= w3);
    assert(mat_mul(a, b)[i][j] == crop(d11 + d23));
}

/// A top-right cell of the combined quadrants equals the corresponding
/// cell of the whole product.
proof fn lemma_step_tr(a: Seq<Seq<int>>, b: Seq<Seq<int>>, h: int, i: int, j: int)
    requires
        square(a),
        square(b),
        a.len() == b.len(),
        h >= 1,
        a.len() == 2 * h,
        0 <= i < h,
        0 <= j < h,
    ensures
        sc2(a, b, h)[i][j] == mat_mul(a, b)[i][j + h],
{
    let qa1 = quadrant(a, 0, 0, h);
    let qa2 = quadrant(a, 0, h, h);
    let qb2 = quadrant(b, 0, h, h);
    let qb4 = quadrant(b, h, h, h);
    let w2 = column(qb2, j);
    let w4 = column(qb4, j);
    let d12 = dot(qa1[i], w2);
    let d14 = dot(qa1[i], w4);
    let d24 = dot(qa2[i], w4);

    // M3 cell.
    let v3 = row_diff(w2, w4);
    let q3 = mat_diff(qb2, qb4);
    assert forall|k: int| 0 <= k < qa1[i].len() implies #[trigger] (qa1[i][k] % two_to_64())
        == qa1[i][k] % two_to_64() by {}
    assert forall|k: int| 0 <= k < v3.len() implies #[trigger] (q3[k][j] % two_to_64()) == v3[k]
        % two_to_64() by {
        assert(q3[k][j] == crop(qb2[k][j] - qb4[k][j]));
        assert(v3[k] == w2[k] - w4[k] && w2[k] == qb2[k][j] && w4[k] == qb4[k][j]);
        lemma_crop_residue(qb2[k][j] - qb4[k][j]);
    }
    lemma_mul_cell(qa1, q3, qa1[i], v3, i, j);
    lemma_dot_row_diff_right(qa1[i], w2, w4);
    assert(sm3(a, b, h)[i][j] == crop(d12 - d14));

    // M5 cell.
    let u5 = row_sum(qa1[i], qa2[i]);
    let p5 = mat_sum(qa1, qa2);
    assert forall|k: int| 0 <= k < u5.len() implies #[trigger] (p5[i][k] % two_to_64()) == u5[k]
        % two_to_64() by {
        assert(p5[i][k] == crop(qa1[i][k] + qa2[i][k]));
        lemma_crop_residue(qa1[i][k] + qa2[i][k]);
    }
    assert forall|k: int| 0 <= k < w4.len() implies #[trigger] (qb4[k][j] % two_to_64()) == w4[k]
        % two_to_64() by {
        assert(w4[k] == qb4[k][j]);
    }
    lemma_mul_cell(p5, qb4, u5, w4, i, j);
    lemma_dot_row_sum_left(qa1[i], qa2[i], w4);
    assert(sm5(a, b, h)[i][j] == crop(d14 + d24));

    // Combine: M3 + M5.
    lemma_crop_add_both(d12 - d14, d14 + d24);
    assert(sc2(a, b, h)[i][j] == crop(d12 + d24));

    // The whole product's cell at column j + h.
    let n = a.len() as int;
    lemma_dot_split(a[i], column(b, j + h), h);
    assert(a[i].subrange(0, h) =~= qa1[i]);
    assert(a[i].subrange(h, n) =~= qa2[i]);
    assert(column(b, j + h).subrange(0, h) =~= w2);
    assert(column(b, j + h).subrange(h, n) =~= w4);
    assert(mat_mul(a, b)[i][j + h] == crop(d12 + d24));
}

/// A bottom-left cell of the combined quadrants equals the corresponding
/// cell of the whole product.
proof fn lemma_step_bl(a: Seq<Seq<int>>, b: Seq<Seq<int>>, h: int, i: int, j: int)
    requires
        square(a),
        square(b),
        a.len() == b.len(),
        h >= 1,
        a.len() == 2 * h,
        0 <= i < h,
        0 <= j < h,
    ensures
        sc3(a, b, h)[i][j] == mat_mul(a, b)[i + h][j],
{
    let qa3 = quadrant(a, h, 0, h);
    let qa4 = quadrant(a, h, h, h);
    let qb1 = quadrant(b, 0, 0, h);
    let qb3 = quadrant(b, h, 0, h);
    let w1 = column(qb1, j);
    let w3 = column(qb3, j);
    let d31 = dot(qa3[i], w1);
    let d41 = dot(qa4[i], w1);
    let d43 = dot(qa4[i], w3);

    // M2 cell.
    let u2 = row_sum(qa3[i], qa4[i]);
    let p2 = mat_sum(qa3, qa4);
    assert forall|k: int| 0 <= k < u2.len() implies #[trigger] (p2[i][k] % two_to_64()) == u2[k]
        % two_to_64() by {
        assert(p2[i][k] == crop(qa3[i][k] + qa4[i][k]));
        lemma_crop_residue(qa3[i][k] + qa4[i][k]);
    }
    assert forall|k: int| 0 <= k < w1.len() implies #[trigger] (qb1[k][j] % two_to_64()) == w1[k]
        % two_to_64() by {
        assert(w1[k] == qb1[k][j]);
    }
    lemma_mul_cell(p2, qb1, u2, w1, i, j);
    lemma_dot_row_sum_left(qa3[i], qa4[i], w1);
    assert(sm2(a, b, h)[i][j] == crop(d31 + d41));

    // M4 cell.
    let v4 = row_diff(w3, w1);
    let q4 = mat_diff(qb3, qb1);
    assert forall|k: int| 0 <= k < qa4[i].len() implies #[trigger] (qa4[i][k] % two_to_64())
        == qa4[i][k] % two_to_64() by {}
    assert forall|k: int| 0 <= k < v4.len() implies #[trigger] (q4[k][j] % two_to_64()) == v4[k]
        % two_to_64() by {
        assert(q4[k][j] == crop(qb3[k][j] - qb1[k][j]));
        assert(v4[k] == w3[k] - w1[k] && w3[k] == qb3[k][j] && w1[k] == qb1[k][j]);
        lemma_crop_residue(qb3[k][j] - qb1[k][j]);
    }
    lemma_mul_cell(qa4, q4, qa4[i], v4, i, j);
    lemma_dot_row_diff_right(qa4[i], w3, w1);
    assert(sm4(a, b, h)[i][j] == crop(d43 - d41));

    // Combine: M2 + M4.
    lemma_crop_add_both(d31 + d41, d43 - d41);
    assert(sc3(a, b, h)[i][j] == crop(d31 + d43));

    // The whole product's cell at row i + h.
    let n = a.len() as int;
    lemma_dot_split(a[i + h], column(b, j), h);
    assert(a[i + h].subrange(0, h) =~= qa3[i]);
    assert(a[i + h].subrange(h, n) =~= qa4[i]);
    assert(column(b, j).subrange(0, h) =~= w1);
    assert(column(b, j).subrange(h, n) =~= w3);
    assert(mat_mul(a, b)[i + h][j] == crop(d31 + d43));
}

/// A bottom-right cell of the combined quadrants equals the corresponding
/// cell of the whole product.
proof fn lemma_step_br(a: Seq<Seq<int>>, b: Seq<Seq<int>>, h: int, i: int, j: int)
    requires
        square(a),
        square(b),
        a.len() == b.len(),
        h >= 1,
        a.len() == 2 * h,
        0 <= i < h,
        0 <= j < h,
    ensures
        sc4(a, b, h)[i][j] == mat_mul(a, b)[i + h][j + h],
{
    let qa1 = quadrant(a, 0, 0, h);
    let qa2 = quadrant(a, 0, h, h);
    let qa3 = quadrant(a, h, 0, h);
    let qa4 = quadrant(a, h, h, h);
    let qb1 = quadrant(b, 0, 0, h);
    let qb2 = quadrant(b, 0, h, h);
    let qb4 = quadrant(b, h, h, h);
    let w1 = column(qb1, j);
    let w2 = column(qb2, j);
    let w4 = column(qb4, j);
    let d11 = dot(qa1[i], w1);
    let d14 = dot(qa1[i], w4);
    let d41 = dot(qa4[i], w1);
    let d44 = dot(qa4[i], w4);
    let d31 = dot(qa3[i], w1);
    let d12 = dot(qa1[i], w2);
    let d32 = dot(qa3[i], w2);

    // M1 cell.
    let u1 = row_sum(qa1[i], qa4[i]);
    let v1 = row_sum(w1, w4);
    let p1 = mat_sum(qa1, qa4);
    let q1 = mat_sum(qb1, qb4);
    assert forall|k: int| 0 <= k < u1.len() implies #[trigger] (p1[i][k] % two_to_64()) == u1[k]
        % two_to_64() by {
        assert(p1[i][k] == crop(qa1[i][k] + qa4[i][k]));
        lemma_crop_residue(qa1[i][k] + qa4[i][k]);
    }
    assert forall|k: int| 0 <= k < v1.len() implies #[trigger] (q1[k][j] % two_to_64()) == v1[k]
        % two_to_64() by {
        assert(q1[k][j] == crop(qb1[k][j] + qb4[k][j]));
        assert(v1[k] == w1[k] + w4[k] && w1[k] == qb1[k][j] && w4[k] == qb4[k][j]);
        lemma_crop_residue(qb1[k][j] + qb4[k][j]);
    }
    lemma_mul_cell(p1, q1, u1, v1, i, j);
    lemma_dot_row_sum_left(qa1[i], qa4[i], v1);
    lemma_dot_row_sum_right(qa1[i], w1, w4);
    lemma_dot_row_sum_right(qa4[i], w1, w4);
    assert(sm1(a, b, h)[i][j] == crop(d11 + d14 + d41 + d44));

    // M2 cell.
    let u2 = row_sum(qa3[i], qa4[i]);
    let p2 = mat_sum(qa3, qa4);
    assert forall|k: int| 0 <= k < u2.len() implies #[trigger] (p2[i][k] % two_to_64()) == u2[k]
        % two_to_64() by {
        assert(p2[i][k] == crop(qa3[i][k] + qa4[i][k]));
        lemma_crop_residue(qa3[i][k] + qa4[i][k]);
    }
    assert forall|k: int| 0 <= k < w1.len() implies #[trigger] (qb1[k][j] % two_to_64()) == w1[k]
        % two_to_64() by {
        assert(w1[k] == qb1[k][j]);
    }
    lemma_mul_cell(p2, qb1, u2, w1, i, j);
    lemma_dot_row_sum_left(qa3[i], qa4[i], w1);
    assert(sm2(a, b, h)[i][j] == crop(d31 + d41));

    // M3 cell.
    let v3 = row_diff(w2, w4);
    let q3 = mat_diff(qb2, qb4);
    assert forall|k: int| 0 <= k < qa1[i].len() implies #[trigger] (qa1[i][k] % two_to_64())
        == qa1[i][k] % two_to_64() by {}
    assert forall|k: int| 0 <= k < v3.len() implies #[trigger] (q3[k][j] % two_to_64()) == v3[k]
        % two_to_64() by {
        assert(q3[k][j] == crop(qb2[k][j] - qb4[k][j]));
        assert(v3[k] == w2[k] - w4[k] && w2[k] == qb2[k][j] && w4[k] == qb4[k][j]);
        lemma_crop_residue(qb2[k][j] - qb4[k][j]);
    }
    lemma_mul_cell(qa1, q3, qa1[i], v3, i, j);
    lemma_dot_row_diff_right(qa1[i], w2, w4);
    assert(sm3(a, b, h)[i][j] == crop(d12 - d14));

    // M6 cell.
    let u6 = row_diff(qa3[i], qa1[i]);
    let v6 = row_sum(w1, w2);
    let p6 = mat_diff(qa3, qa1);
    let q6 = mat_sum(qb1, qb2);
    assert forall|k: int| 0 <= k < u6.len() implies #[trigger] (p6[i][k] % two_to_64()) == u6[k]
        % two_to_64() by {
        assert(p6[i][k] == crop(qa3[i][k] - qa1[i][k]));
        lemma_crop_residue(qa3[i][k] - qa1[i][k]);
    }
    assert forall|k: int| 0 <= k < v6.len() implies #[trigger] (q6[k][j] % two_to_64()) == v6[k]
        % two_to_64() by {
        assert(q6[k][j] == crop(qb1[k][j] + qb2[k][j]));
        assert(v6[k] == w1[k] + w2[k] && w1[k] == qb1[k][j] && w2[k] == qb2[k][j]);
        lemma_crop_residue(qb1[k][j] + qb2[k][j]);
    }
    lemma_mul_cell(p6, q6, u6, v6, i, j);
    lemma_dot_row_diff_left(qa3[i], qa1[i], v6);
    lemma_dot_row_sum_right(qa3[i], w1, w2);
    lemma_dot_row_sum_right(qa1[i], w1, w2);
    assert(sm6(a, b, h)[i][j] == crop(d31 + d32 - (d11 + d12)));

    // Combine the four cells exactly as the executable code does.
    let e1 = d11 + d14 + d41 + d44;
    let e2 = d31 + d41;
    let e3 = d12 - d14;
    let e6 = d31 + d32 - (d11 + d12);
    assert(sc4(a, b, h)[i][j] == crop(
        crop(crop(sm1(a, b, h)[i][j] - sm2(a, b, h)[i][j]) + sm3(a, b, h)[i][j]) + sm6(
            a,
            b,
            h,
        )[i][j],
    ));
    lemma_crop_sub_both(e1, e2);
    lemma_crop_id(crop(e1 - e2));
    lemma_crop_id(crop(e3));
    lemma_crop_add_both(e1 - e2, e3);
    lemma_crop_id(crop(e1 - e2 + e3));
    lemma_crop_id(crop(e6));
    lemma_crop_add_both(e1 - e2 + e3, e6);
    assert(sc4(a, b, h)[i][j] == crop(d32 + d44));

    // The whole product's cell at row i + h, column j + h.
    let n = a.len() as int;
    lemma_dot_split(a[i + h], column(b, j + h), h);
    assert(a[i + h].subrange(0, h) =~= qa3[i]);
    assert(a[i + h].subrange(h, n) =~= qa4[i]);
    assert(column(b, j + h).subrange(0, h) =~= w2);
    assert(column(b, j + h).subrange(h, n) =~= w4);
    assert(mat_mul(a, b)[i + h][j + h] == crop(d32 + d44));
}

/// One level of the Strassen recursion is sound: assembling the four
/// combined quadrants yields exactly the wrapped product of the two
/// matrices.
proof fn lemma_strassen_step(a: Seq<Seq<int>>, b: Seq<Seq<int>>, h: int)
    requires
        square(a),
        square(b),
        a.len() == b.len(),
        h >= 1,
        a.len() == 2 * h,
    ensures
        assembled(sc1(a, b, h), sc2(a, b, h), sc3(a, b, h), sc4(a, b, h)) == mat_mul(a, b),
{
    let n = a.len() as int;
    let lhs = assembled(sc1(a, b, h), sc2(a, b, h), sc3(a, b, h), sc4(a, b, h));
    let rhs = mat_mul(a, b);
    assert(sc1(a, b, h).len() == h);
    assert(lhs.len() == n);
    assert forall|i: int, j: int| 0 <= i < n && 0 <= j < n implies lhs[i][j] == rhs[i][j] by {
        if i < h {
            if j < h {
                lemma_step_tl(a, b, h, i, j);
            } else {
                lemma_step_tr(a, b, h, i, j - h);
            }
        } else {
            if j < h {
                lemma_step_bl(a, b, h, i - h, j);
            } else {
                lemma_step_br(a, b, h, i - h, j - h);
            }
        }
    }
    assert forall|i: int| 0 <= i < n implies lhs[i] =~= rhs[i] by {
        assert(forall|j: int| 0 <= j < n ==> lhs[i][j] == rhs[i][j]);
    }
    assert(lhs =~= rhs);
}

/// The recursive Strassen routine on two matrices of equal power-of-two
/// order: returns exactly the wrapped product.
pub fn strassen_mult(a: &Matrix, b: &Matrix) -> (res: Matrix)
    requires
        a.wf(),
        b.wf(),
        a@.len() == b@.len(),
        is_pow2(a@.len() as int),
    ensures
        res.wf(),
        res@ == mat_mul(a@, b@),
    decreases a@.len(),
{
    let n = a.order();
    if n == 1 {
        let x = a.get(0, 0);
        let y = b.get(0, 0);
        let res = Matrix::scalar(x.wrapping_mul(y));
        proof {
            lemma_wrapping_mul_crop(x, y);
            let u = a@[0];
            let v = column(b@, 0);
            assert(u.len() == 1 && v.len() == 1);
            assert(dot(u, v) == dot(u.drop_last(), v.drop_last()) + u[0] * v[0]);
            assert(dot(u.drop_last(), v.drop_last()) == 0);
            assert(v[0] == b@[0][0]);
            assert(res@ =~~= mat_mul(a@, b@));
        }
        res
    } else if n == 2 {
        let a1 = a.get(0, 0);
        let a2 = a.get(0, 1);
        let a3 = a.get(1, 0);
        let a4 = a.get(1, 1);
        let b1 = b.get(0, 0);
        let b2 = b.get(0, 1);
        let b3 = b.get(1, 0);
        let b4 = b.get(1, 1);
        let m1 = (a1.wrapping_add(a4)).wrapping_mul(b1.wrapping_add(b4));
        let m2 = (a3.wrapping_add(a4)).wrapping_mul(b1);
        let m3 = a1.wrapping_mul(b2.wrapping_sub(b4));
        let m4 = a4.wrapping_mul(b3.wrapping_sub(b1));
        let m5 = (a1.wrapping_add(a2)).wrapping_mul(b4);
        let m6 = (a3.wrapping_sub(a1)).wrapping_mul(b1.wrapping_add(b2));
        let m7 = (a2.wrapping_sub(a4)).wrapping_mul(b3.wrapping_add(b4));
        let c00 = m1.wrapping_add(m4).wrapping_sub(m5).wrapping_add(m7);
        let c01 = m3.wrapping_add(m5);
        let c10 = m2.wrapping_add(m4);
        let c11 = m1.wrapping_sub(m2).wrapping_add(m3).wrapping_add(m6);
        let mut top: Vec<i64> = Vec::new();
        top.push(c00);
        top.push(c01);
        let mut bottom: Vec<i64> = Vec::new();
        bottom.push(c10);
        bottom.push(c11);
        let mut rows: Vec<Vec<i64>> = Vec::new();
        rows.push(top);
        rows.push(bottom);
        let res = Matrix { m: rows };
        proof {
            let x1 = a1 as int;
            let x2 = a2 as int;
            let x3 = a3 as int;
            let x4 = a4 as int;
            let y1 = b1 as int;
            let y2 = b2 as int;
            let y3 = b3 as int;
            let y4 = b4 as int;
            lemma_seven_product_scalars(x1, x2, x3, x4, y1, y2, y3, y4);
            // Each scalar product is the crop of the exact formula.
            lemma_wrapping_add_crop(a1, a4);
            lemma_wrapping_add_crop(b1, b4);
            lemma_wrapping_mul_crop(a1.wrapping_add(a4), b1.wrapping_add(b4));
            lemma_crop_mul_both(x1 + x4, y1 + y4);
            let e1 = (x1 + x4) * (y1 + y4);
            assert(m1 as int == crop(e1));

            lemma_wrapping_add_crop(a3, a4);
            lemma_wrapping_mul_crop(a3.wrapping_add(a4), b1);
            lemma_crop_id(y1);
            lemma_crop_mul_both(x3 + x4, y1);
            let e2 = (x3 + x4) * y1;
            assert(m2 as int == crop(e2));

            lemma_wrapping_sub_crop(b2, b4);
            lemma_wrapping_mul_crop(a1, b2.wrapping_sub(b4));
            lemma_crop_id(x1);
            lemma_crop_mul_both(x1, y2 - y4);
            let e3 = x1 * (y2 - y4);
            assert(m3 as int == crop(e3));

            lemma_wrapping_sub_crop(b3, b1);
            lemma_wrapping_mul_crop(a4, b3.wrapping_sub(b1));
            lemma_crop_id(x4);
            lemma_crop_mul_both(x4, y3 - y1);
            let e4 = x4 * (y3 - y1);
            assert(m4 as int == crop(e4));

            lemma_wrapping_add_crop(a1, a2);
            lemma_wrapping_mul_crop(a1.wrapping_add(a2), b4);
            lemma_crop_id(y4);
            lemma_crop_mul_both(x1 + x2, y4);
            let e5 = (x1 + x2) * y4;
            assert(m5 as int == crop(e5));

            lemma_wrapping_sub_crop(a3, a1);
            lemma_wrapping_add_crop(b1, b2);
            lemma_wrapping_mul_crop(a3.wrapping_sub(a1), b1.wrapping_add(b2));
            lemma_crop_mul_both(x3 - x1, y1 + y2);
            let e6 = (x3 - x1) * (y1 + y2);
            assert(m6 as int == crop(e6));

            lemma_wrapping_sub_crop(a2, a4);
            lemma_wrapping_add_crop(b3, b4);
            lemma_wrapping_mul_crop(a2.wrapping_sub(a4), b3.wrapping_add(b4));
            lemma_crop_mul_both(x2 - x4, y3 + y4);
            let e7 = (x2 - x4) * (y3 + y4);
            assert(m7 as int == crop(e7));

            // The combined cells crop the combined exact formulas.
            lemma_wrapping_add_crop(m1, m4);
            lemma_crop_add_both(e1, e4);
            lemma_wrapping_sub_crop(m1.wrapping_add(m4), m5);
            lemma_crop_sub_both(e1 + e4, e5);
            lemma_wrapping_add_crop(m1.wrapping_add(m4).wrapping_sub(m5), m7);
            lemma_crop_add_both(e1 + e4 - e5, e7);
            assert(c00 as int == crop(e1 + e4 - e5 + e7));

            lemma_wrapping_add_crop(m3, m5);
            lemma_crop_add_both(e3, e5);
            assert(c01 as int == crop(e3 + e5));

            lemma_wrapping_add_crop(m2, m4);
            lemma_crop_add_both(e2, e4);
            assert(c10 as int == crop(e2 + e4));

            lemma_wrapping_sub_crop(m1, m2);
            lemma_crop_sub_both(e1, e2);
            lemma_wrapping_add_crop(m1.wrapping_sub(m2), m3);
            lemma_crop_add_both(e1 - e2, e3);
            lemma_wrapping_add_crop(m1.wrapping_sub(m2).wrapping_add(m3), m6);
            lemma_crop_add_both(e1 - e2 + e3, e6);
            assert(c11 as int == crop(e1 - e2 + e3 + e6));

            // The exact dot products of the order-2 multiplication.
            assert(a@[0].len() == 2 && a@[1].len() == 2);
            assert(b@[0].len() == 2 && b@[1].len() == 2);
            assert forall|i: int, j: int| 0 <= i < 2 && 0 <= j < 2 implies dot(
                a@[i],
                column(b@, j),
            ) == a@[i][0] * b@[0][j] + a@[i][1] * b@[1][j] by {
                let u = a@[i];
                let v = column(b@, j);
                assert(u.len() == 2 && v.len() == 2);
                assert(dot(u, v) == dot(u.drop_last(), v.drop_last()) + u[1] * v[1]);
                let ud = u.drop_last();
                let vd = v.drop_last();
                assert(ud.len() == 1 && vd.len() == 1);
                assert(dot(ud, vd) == dot(ud.drop_last(), vd.drop_last()) + ud[0] * vd[0]);
                assert(dot(ud.drop_last(), vd.drop_last()) == 0);
                assert(ud[0] == u[0] && vd[0] == v[0]);
                assert(v[0] == b@[0][j] && v[1] == b@[1][j]);
            }
            assert(x1 == a@[0][0] && x2 == a@[0][1] && x3 == a@[1][0] && x4 == a@[1][1]);
            assert(y1 == b@[0][0] && y2 == b@[0][1] && y3 == b@[1][0] && y4 == b@[1][1]);
            assert(res@[0][0] == res.m@[0]@[0] as int);
            assert(res@[0][1] == res.m@[0]@[1] as int);
            assert(res@[1][0] == res.m@[1]@[0] as int);
            assert(res@[1][1] == res.m@[1]@[1] as int);
            assert(res@[0].len() == res.m@[0]@.len());
            assert(res@[1].len() == res.m@[1]@.len());
            assert(res@ =~~= mat_mul(a@, b@));
        }
        res
    } else {
        proof {
            lemma_pow2_half(n as int);
        }
        let h = n / 2;
        let (a1, a2, a3, a4) = a.get_submatrices();
        let (b1, b2, b3, b4) = b.get_submatrices();
        let m1 = strassen_mult(&a1.add(&a4), &b1.add(&b4));
        let m2 = strassen_mult(&a3.add(&a4), &b1);
        let m3 = strassen_mult(&a1, &b2.subtract(&b4));
        let m4 = strassen_mult(&a4, &b3.subtract(&b1));
        let m5 = strassen_mult(&a1.add(&a2), &b4);
        let m6 = strassen_mult(&a3.subtract(&a1), &b1.add(&b2));
        let m7 = strassen_mult(&a2.subtract(&a4), &b3.add(&b4));
        let c1 = m1.add(&m4).subtract(&m5).add(&m7);
        let c2 = m3.add(&m5);
        let c3 = m2.add(&m4);
        let c4 = m1.subtract(&m2).add(&m3).add(&m6);
        let res = Matrix::assemble(&c1, &c2, &c3, &c4);
        proof {
            let hh = h as int;
            assert(m1@ == sm1(a@, b@, hh));
            assert(m2@ == sm2(a@, b@, hh));
            assert(m3@ == sm3(a@, b@, hh));
            assert(m4@ == sm4(a@, b@, hh));
            assert(m5@ == sm5(a@, b@, hh));
            assert(m6@ == sm6(a@, b@, hh));
            assert(m7@ == sm7(a@, b@, hh));
            lemma_strassen_step(a@, b@, hh);
            assert(res@ == mat_mul(a@, b@));
        }
        res
    }
}

/// Strassen multiplication of two equal-order square matrices: pads to the
/// next power of two, recurses, and trims back to the original order. The
/// result is exactly `mat_mul` of the inputs — the same contract the
/// standard cubic `Matrix::multiply` carries — and has the inputs' order.
pub fn strassen(a: &Matrix, b: &Matrix) -> (res: Matrix)
    requires
        a.wf(),
        b.wf(),
        a@.len() == b@.len(),
        a@.len() <= MAX_ORDER,
    ensures
        res.wf(),
        res@.len() == a@.len(),
        res@ == mat_mul(a@, b@),
{
    let n = a.order();
    let pa = a.pad();
    let pb = b.pad();
    let full = strassen_mult(&pa, &pb);
    let mut rows: Vec<Vec<i64>> = Vec::new();
    while rows.len() < n
        invariant
            full.wf(),
            n <= full@.len(),
            rows@.len() <= n,
            forall|i: int| 0 <= i < rows@.len() ==> (#[trigger] rows@[i])@.len() == n,
            forall|i: int, j: int|
                0 <= i < rows@.len() && 0 <= j < n ==> #[trigger] rows@[i]@[j] as int
                    == full@[i][j],
        decreases n - rows.len(),
    {
        let i = rows.len();
        let mut row: Vec<i64> = Vec::new();
        while row.len() < n
            invariant
                full.wf(),
                n <= full@.len(),
                i < n,
                row@.len() <= n,
                forall|j: int|
                    0 <= j < row@.len() ==> #[trigger] row@[j] as int == full@[i as int][j],
            decreases n - row.len(),
        {
            let j = row.len();
            proof {
                assert(full@.len() == full.m@.len());
                assert(full@[i as int].len() == full.m@[i as int]@.len());
            }
            let x = full.m[i][j];
            proof {
                assert(x as int == full@[i as int][j as int]);
            }
            row.push(x);
        }
        rows.push(row);
    }
    let res = Matrix { m: rows };
    proof {
        let nn = n as int;
        let p = next_pow2(nn);
        lemma_next_pow2_props(nn);
        lemma_padded_product(a@, b@, p);
        assert forall|i: int, j: int|
            0 <= i < nn && 0 <= j < nn implies res@[i][j] == truncated(
            mat_mul(pa@, pb@),
            nn,
        )[i][j] by {
            assert(res@[i][j] == res.m@[i]@[j] as int);
        }
        assert forall|i: int| 0 <= i < nn implies (#[trigger] res@[i]).len() == nn by {
            assert(res@[i].len() == res.m@[i]@.len());
        }
        assert(res@ =~~= truncated(mat_mul(pa@, pb@), nn));
        assert(res@ == mat_mul(a@, b@));
    }
    res
}

} // verus!
