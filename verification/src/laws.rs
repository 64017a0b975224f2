//! General laws of the library, stated over the same spec functions that
//! the executable contracts use, and proved for every input they admit.

use vstd::prelude::*;
use crate::model::{
    assembled, bounded, column, identity, lemma_dot_unit, lemma_next_pow2_props, mat_mul,
    next_pow2, padded, quadrant, square,
};
use crate::matrix::{lemma_matrix_bounded, Matrix};
use crate::modular::lemma_crop_id;

verus! {

/// Identity law: multiplying any matrix by the identity of its order gives
/// the matrix back, exactly. With both multiplication routines ensuring
/// `mat_mul`, this holds of each of them.
pub proof fn lemma_identity_right(a: Seq<Seq<int>>)
    requires
        square(a),
        bounded(a),
    ensures
        mat_mul(a, identity(a.len() as int)) == a,
{
    let n = a.len() as int;
    let idm = identity(n);
    assert forall|i: int, j: int| 0 <= i < n && 0 <= j < n implies mat_mul(a, idm)[i][j]
        == a[i][j] by {
        let v = column(idm, j);
        assert(v.len() == n);
        assert(v[j] == 1);
        assert forall|k: int| 0 <= k < v.len() && k != j implies #[trigger] v[k] == 0 by {
            assert(v[k] == idm[k][j]);
        }
        lemma_dot_unit(a[i], v, j);
        lemma_crop_id(a[i][j]);
    }
    assert forall|i: int| 0 <= i < n implies mat_mul(a, idm)[i] =~= a[i] by {
        assert(forall|j: int| 0 <= j < n ==> mat_mul(a, idm)[i][j] == a[i][j]);
    }
    assert(mat_mul(a, idm) =~= a);
}

/// The identity law at the matrix level: the view of any square `Matrix`
/// is bounded by construction, so multiplying it by the identity of its
/// order gives it back.
pub proof fn lemma_matrix_identity_right(a: &Matrix)
    requires
        a.wf(),
    ensures
        mat_mul(a@, identity(a@.len() as int)) == a@,
{
    lemma_matrix_bounded(a);
    lemma_identity_right(a@);
}

/// Decomposition round trip: reassembling the four quadrants of an
/// even-order matrix reconstructs it exactly — pure data movement.
pub proof fn lemma_split_assemble(m: Seq<Seq<int>>)
    requires
        square(m),
        m.len() % 2 == 0,
    ensures
        assembled(
            quadrant(m, 0, 0, m.len() as int / 2),
            quadrant(m, 0, m.len() as int / 2, m.len() as int / 2),
            quadrant(m, m.len() as int / 2, 0, m.len() as int / 2),
            quadrant(m, m.len() as int / 2, m.len() as int / 2, m.len() as int / 2),
        ) == m,
{
    let n = m.len() as int;
    let h = n / 2;
    assert(2 * h == n);
    let lhs = assembled(
        quadrant(m, 0, 0, h),
        quadrant(m, 0, h, h),
        quadrant(m, h, 0, h),
        quadrant(m, h, h, h),
    );
    assert(lhs.len() == n);
    assert forall|i: int| 0 <= i < n implies lhs[i] =~= m[i] by {
        assert forall|j: int| 0 <= j < n implies lhs[i][j] == m[i][j] by {
            if i < h {
                if j < h {
                    assert(lhs[i][j] == quadrant(m, 0, 0, h)[i][j]);
                } else {
                    assert(lhs[i][j] == quadrant(m, 0, h, h)[i][j - h]);
                }
            } else {
                if j < h {
                    assert(lhs[i][j] == quadrant(m, h, 0, h)[i - h][j]);
                } else {
                    assert(lhs[i][j] == quadrant(m, h, h, h)[i - h][j - h]);
                }
            }
        }
    }
    assert(lhs =~= m);
}

/// Padding idempotence: a padded matrix already has power-of-two order, so
/// padding it again changes neither the order nor any cell.
pub proof fn lemma_pad_idempotent(m: Seq<Seq<int>>)
    requires
        square(m),
    ensures
        next_pow2(next_pow2(m.len() as int)) == next_pow2(m.len() as int),
        padded(padded(m, next_pow2(m.len() as int)), next_pow2(m.len() as int)) == padded(
            m,
            next_pow2(m.len() as int),
        ),
{
    let n = m.len() as int;
    let p = next_pow2(n);
    lemma_next_pow2_props(n);
    lemma_next_pow2_props(p);
    let q = padded(m, p);
    assert forall|i: int| 0 <= i < p implies padded(q, p)[i] =~= q[i] by {
        assert forall|j: int| 0 <= j < p implies padded(q, p)[i][j] == q[i][j] by {
            assert(q[i].len() == p);
        }
    }
    assert(padded(q, p) =~= q);
}

} // verus!
