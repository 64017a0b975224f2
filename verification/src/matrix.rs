//! The square matrix container and its elementwise and structural
//! operations: construction, random filling, wrapping addition and
//! subtraction, the cubic standard multiplication, exact equality, zero
//! padding to the next power of two, quadrant splitting and reassembly.

use vstd::prelude::*;
use crate::model::{
    assembled, column, dot, identity, is_pow2, lemma_next_pow2_min, lemma_next_pow2_props,
    lemma_pow2_le, mat_diff, mat_mul, mat_sum, next_pow2, padded, quadrant, square,
};
use crate::modular::{
    crop, lemma_crop_add_both, lemma_crop_id, lemma_wrapping_add_crop, lemma_wrapping_mul_crop,
    lemma_wrapping_sub_crop,
};
use crate::MAX_ORDER;

verus! {

/// A square, dense matrix of 64-bit integers, indexed row first.
pub struct Matrix {
    pub m: Vec<Vec<i64>>,
}

impl View for Matrix {
    type V = Seq<Seq<int>>;

    open spec fn view(&self) -> Seq<Seq<int>> {
        Seq::new(
            self.m@.len(),
            |i: int| Seq::new(self.m@[i]@.len(), |j: int| self.m@[i]@[j] as int),
        )
    }
}

/// Every entry of a matrix fits in `i64`: true by construction.
pub proof fn lemma_matrix_bounded(a: &Matrix)
    ensures
        crate::model::bounded(a@),
{
    assert forall|i: int, j: int|
        0 <= i < a@.len() && 0 <= j < a@[i].len() implies i64::MIN <= #[trigger] a@[i][j]
        <= i64::MAX by {
        assert(a@[i][j] == a.m@[i]@[j] as int);
    }
}

/// Relies on rand::random: an arbitrary 64-bit integer drawn from the
/// thread-local generator; nothing is assumed of its value.
#[verifier::external_body]
fn random_i64() -> i64 {
    rand::random::<i64>()
}

impl Matrix {
    /// The matrix is square: every row as long as the list of rows.
    pub open spec fn wf(&self) -> bool {
        square(self@)
    }

    /// The order (number of rows and of columns).
    pub fn order(&self) -> (n: usize)
        ensures
            n == self@.len(),
    {
        proof {
            assert(self@.len() == self.m@.len());
        }
        self.m.len()
    }

    /// The entry at row `i`, column `j`.
    pub fn get(&self, i: usize, j: usize) -> (x: i64)
        requires
            i < self@.len(),
            j < self@[i as int].len(),
        ensures
            x as int == self@[i as int][j as int],
    {
        proof {
            assert(self@.len() == self.m@.len());
            assert(self@[i as int].len() == self.m@[i as int]@.len());
            assert(self@[i as int][j as int] == self.m@[i as int]@[j as int] as int);
        }
        self.m[i][j]
    }

    /// A `size` by `size` matrix with every entry zero.
    pub fn new_matrix(size: usize) -> (res: Matrix)
        ensures
            res.wf(),
            res@.len() == size,
            forall|i: int, j: int|
                0 <= i < size && 0 <= j < size ==> #[trigger] res@[i][j] == 0,
    {
        let mut rows: Vec<Vec<i64>> = Vec::new();
        while rows.len() < size
            invariant
                rows@.len() <= size,
                forall|i: int| 0 <= i < rows@.len() ==> (#[trigger] rows@[i])@.len() == size,
                forall|i: int, j: int|
                    0 <= i < rows@.len() && 0 <= j < size ==> #[trigger] rows@[i]@[j] == 0,
            decreases size - rows.len(),
        {
            let mut row: Vec<i64> = Vec::new();
            while row.len() < size
                invariant
                    row@.len() <= size,
                    forall|j: int| 0 <= j < row@.len() ==> #[trigger] row@[j] == 0,
                decreases size - row.len(),
            {
                row.push(0);
            }
            rows.push(row);
        }
        let res = Matrix { m: rows };
        proof {
            assert forall|i: int, j: int|
                0 <= i < size && 0 <= j < size implies #[trigger] res@[i][j] == 0 by {
                assert(res@[i][j] == res.m@[i]@[j] as int);
            }
            assert forall|i: int| 0 <= i < res@.len() implies (#[trigger] res@[i]).len()
                == res@.len() by {
                assert(res@[i].len() == res.m@[i]@.len());
            }
        }
        res
    }

    /// A 1 by 1 matrix holding one value.
    pub fn scalar(x: i64) -> (res: Matrix)
        ensures
            res.wf(),
            res@.len() == 1,
            res@[0][0] == x as int,
    {
        let mut row: Vec<i64> = Vec::new();
        row.push(x);
        let mut rows: Vec<Vec<i64>> = Vec::new();
        rows.push(row);
        let res = Matrix { m: rows };
        proof {
            assert(res@[0][0] == res.m@[0]@[0] as int);
            assert(res@[0].len() == res.m@[0]@.len());
        }
        res
    }

    /// The identity matrix of the given order.
    pub fn identity_matrix(size: usize) -> (res: Matrix)
        ensures
            res.wf(),
            res@ == identity(size as int),
    {
        let mut rows: Vec<Vec<i64>> = Vec::new();
        while rows.len() < size
            invariant
                rows@.len() <= size,
                forall|i: int| 0 <= i < rows@.len() ==> (#[trigger] rows@[i])@.len() == size,
                forall|i: int, j: int|
                    0 <= i < rows@.len() && 0 <= j < size ==> #[trigger] rows@[i]@[j] == (
                    if i == j {
                        1i64
                    } else {
                        0i64
                    }),
            decreases size - rows.len(),
        {
            let i = rows.len();
            let mut row: Vec<i64> = Vec::new();
            while row.len() < size
                invariant
                    row@.len() <= size,
                    forall|j: int| 0 <= j < row@.len() ==> #[trigger] row@[j] == (
                    if i == j {
                        1i64
                    } else {
                        0i64
                    }),
            decreases size - row.len(),
            {
                if row.len() == i {
                    row.push(1);
                } else {
                    row.push(0);
                }
            }
            rows.push(row);
        }
        let res = Matrix { m: rows };
        proof {
            assert forall|i: int, j: int|
                0 <= i < size && 0 <= j < size implies res@[i][j] == identity(size as int)[i][j] by {
                assert(res@[i][j] == res.m@[i]@[j] as int);
            }
            assert(res@ =~~= identity(size as int));
        }
        res
    }

    /// A matrix made of the given rows, when they form a square.
    pub fn from_rows(rows: Vec<Vec<i64>>) -> (res: Option<Matrix>)
        ensures
            match res {
                Some(mx) => {
                    &&& mx.wf()
                    &&& mx@.len() == rows@.len()
                    &&& forall|i: int|
                        0 <= i < rows@.len() ==> (#[trigger] rows@[i])@.len() == rows@.len()
                    &&& forall|i: int, j: int|
                        0 <= i < rows@.len() && 0 <= j < rows@.len() ==> #[trigger] mx@[i][j]
                            == rows@[i]@[j] as int
                },
                None => exists|i: int|
                    0 <= i < rows@.len() && (#[trigger] rows@[i])@.len() != rows@.len(),
            },
    {
        let n = rows.len();
        let mut i: usize = 0;
        while i < n
            invariant
                i <= n,
                rows@.len() == n,
                forall|ii: int| 0 <= ii < i ==> (#[trigger] rows@[ii])@.len() == n,
            decreases n - i,
        {
            if rows[i].len() != n {
                return None;
            }
            i += 1;
        }
        let res = Matrix { m: rows };
        proof {
            assert forall|ii: int| 0 <= ii < res@.len() implies (#[trigger] res@[ii]).len()
                == res@.len() by {
                assert(res@[ii].len() == res.m@[ii]@.len());
            }
        }
        Some(res)
    }

    /// Fills every entry with a fresh random value; the order is kept.
    pub fn init(&mut self)
        ensures
            final (self).wf(),
            final (self)@.len() == old(self)@.len(),
    {
        let n = self.m.len();
        proof {
            assert(self@.len() == self.m@.len());
        }
        let mut rows: Vec<Vec<i64>> = Vec::new();
        while rows.len() < n
            invariant
                rows@.len() <= n,
                forall|i: int| 0 <= i < rows@.len() ==> (#[trigger] rows@[i])@.len() == n,
            decreases n - rows.len(),
        {
            let mut row: Vec<i64> = Vec::new();
            while row.len() < n
                invariant
                    row@.len() <= n,
                decreases n - row.len(),
            {
                row.push(random_i64());
            }
            rows.push(row);
        }
        self.m = rows;
        proof {
            assert forall|i: int| 0 <= i < self@.len() implies (#[trigger] self@[i]).len()
                == self@.len() by {
                assert(self@[i].len() == self.m@[i]@.len());
            }
        }
    }

    /// Entrywise wrapping sum of two matrices of equal order.
    pub fn add(&self, other: &Matrix) -> (res: Matrix)
        requires
            self.wf(),
            other.wf(),
            self@.len() == other@.len(),
        ensures
            res.wf(),
            res@ == mat_sum(self@, other@),
    {
        let n = self.m.len();
        proof {
            assert(self@.len() == self.m@.len());
        }
        let mut rows: Vec<Vec<i64>> = Vec::new();
        while rows.len() < n
            invariant
                self.wf(),
                other.wf(),
                self@.len() == n,
                other@.len() == n,
                rows@.len() <= n,
                forall|i: int| 0 <= i < rows@.len() ==> (#[trigger] rows@[i])@.len() == n,
                forall|i: int, j: int|
                    0 <= i < rows@.len() && 0 <= j < n ==> #[trigger] rows@[i]@[j] as int == crop(
                        self@[i][j] + other@[i][j],
                    ),
            decreases n - rows.len(),
        {
            let i = rows.len();
            let mut row: Vec<i64> = Vec::new();
            while row.len() < n
                invariant
                    self.wf(),
                    other.wf(),
                    self@.len() == n,
                    other@.len() == n,
                    i < n,
                    row@.len() <= n,
                    forall|j: int|
                        0 <= j < row@.len() ==> #[trigger] row@[j] as int == crop(
                            self@[i as int][j] + other@[i as int][j],
                        ),
                decreases n - row.len(),
            {
                let j = row.len();
                proof {
                    assert(self@.len() == self.m@.len());
                    assert(other@.len() == other.m@.len());
                    assert(self@[i as int].len() == self.m@[i as int]@.len());
                    assert(other@[i as int].len() == other.m@[i as int]@.len());
                }
                let x = self.m[i][j];
                let y = other.m[i][j];
                proof {
                    lemma_wrapping_add_crop(x, y);
                    assert(x as int == self@[i as int][j as int]);
                    assert(y as int == other@[i as int][j as int]);
                }
                row.push(x.wrapping_add(y));
            }
            rows.push(row);
        }
        let res = Matrix { m: rows };
        proof {
            assert forall|i: int, j: int|
                0 <= i < n && 0 <= j < n implies res@[i][j] == mat_sum(self@, other@)[i][j] by {
                assert(res@[i][j] == res.m@[i]@[j] as int);
            }
            assert forall|i: int| 0 <= i < n implies (#[trigger] res@[i]).len() == n by {
                assert(res@[i].len() == res.m@[i]@.len());
            }
            assert(res@ =~~= mat_sum(self@, other@));
        }
        res
    }

    /// Entrywise wrapping difference of two matrices of equal order.
    pub fn subtract(&self, other: &Matrix) -> (res: Matrix)
        requires
            self.wf(),
            other.wf(),
            self@.len() == other@.len(),
        ensures
            res.wf(),
            res@ == mat_diff(self@, other@),
    {
        let n = self.m.len();
        proof {
            assert(self@.len() == self.m@.len());
        }
        let mut rows: Vec<Vec<i64>> = Vec::new();
        while rows.len() < n
            invariant
                self.wf(),
                other.wf(),
                self@.len() == n,
                other@.len() == n,
                rows@.len() <= n,
                forall|i: int| 0 <= i < rows@.len() ==> (#[trigger] rows@[i])@.len() == n,
                forall|i: int, j: int|
                    0 <= i < rows@.len() && 0 <= j < n ==> #[trigger] rows@[i]@[j] as int == crop(
                        self@[i][j] - other@[i][j],
                    ),
            decreases n - rows.len(),
        {
            let i = rows.len();
            let mut row: Vec<i64> = Vec::new();
            while row.len() < n
                invariant
                    self.wf(),
                    other.wf(),
                    self@.len() == n,
                    other@.len() == n,
                    i < n,
                    row@.len() <= n,
                    forall|j: int|
                        0 <= j < row@.len() ==> #[trigger] row@[j] as int == crop(
                            self@[i as int][j] - other@[i as int][j],
                        ),
                decreases n - row.len(),
            {
                let j = row.len();
                proof {
                    assert(self@.len() == self.m@.len());
                    assert(other@.len() == other.m@.len());
                    assert(self@[i as int].len() == self.m@[i as int]@.len());
                    assert(other@[i as int].len() == other.m@[i as int]@.len());
                }
                let x = self.m[i][j];
                let y = other.m[i][j];
                proof {
                    lemma_wrapping_sub_crop(x, y);
                    assert(x as int == self@[i as int][j as int]);
                    assert(y as int == other@[i as int][j as int]);
                }
                row.push(x.wrapping_sub(y));
            }
            rows.push(row);
        }
        let res = Matrix { m: rows };
        proof {
            assert forall|i: int, j: int|
                0 <= i < n && 0 <= j < n implies res@[i][j] == mat_diff(self@, other@)[i][j] by {
                assert(res@[i][j] == res.m@[i]@[j] as int);
            }
            assert forall|i: int| 0 <= i < n implies (#[trigger] res@[i]).len() == n by {
                assert(res@[i].len() == res.m@[i]@.len());
            }
            assert(res@ =~~= mat_diff(self@, other@));
        }
        res
    }

    /// Standard cubic multiplication: every result cell is the wrapped dot
    /// product of a row of `self` with a column of `other`.
    pub fn multiply(&self, other: &Matrix) -> (res: Matrix)
        requires
            self.wf(),
            other.wf(),
            self@.len() == other@.len(),
        ensures
            res.wf(),
            res@ == mat_mul(self@, other@),
    {
        let n = self.m.len();
        proof {
            assert(self@.len() == self.m@.len());
        }
        let mut rows: Vec<Vec<i64>> = Vec::new();
        while rows.len() < n
            invariant
                self.wf(),
                other.wf(),
                self@.len() == n,
                other@.len() == n,
                rows@.len() <= n,
                forall|i: int| 0 <= i < rows@.len() ==> (#[trigger] rows@[i])@.len() == n,
                forall|i: int, j: int|
                    0 <= i < rows@.len() && 0 <= j < n ==> #[trigger] rows@[i]@[j] as int == crop(
                        dot(self@[i], column(other@, j)),
                    ),
            decreases n - rows.len(),
        {
            let i = rows.len();
            let mut row: Vec<i64> = Vec::new();
            while row.len() < n
                invariant
                    self.wf(),
                    other.wf(),
                    self@.len() == n,
                    other@.len() == n,
                    i < n,
                    row@.len() <= n,
                    forall|j: int|
                        0 <= j < row@.len() ==> #[trigger] row@[j] as int == crop(
                            dot(self@[i as int], column(other@, j)),
                        ),
                decreases n - row.len(),
            {
                let j = row.len();
                let mut acc: i64 = 0;
                let mut k: usize = 0;
                proof {
                    lemma_crop_id(0);
                }
                while k < n
                    invariant
                        self.wf(),
                        other.wf(),
                        self@.len() == n,
                        other@.len() == n,
                        i < n,
                        j < n,
                        k <= n,
                        acc as int == crop(
                            dot(
                                self@[i as int].subrange(0, k as int),
                                column(other@, j as int).subrange(0, k as int),
                            ),
                        ),
                    decreases n - k,
                {
                    proof {
                        assert(self@.len() == self.m@.len());
                        assert(other@.len() == other.m@.len());
                        assert(self@[i as int].len() == self.m@[i as int]@.len());
                        assert(other@[k as int].len() == other.m@[k as int]@.len());
                    }
                    let x = self.m[i][k];
                    let y = other.m[k][j];
                    let p = x.wrapping_mul(y);
                    proof {
                        let u = self@[i as int];
                        let v = column(other@, j as int);
                        let ki = k as int;
                        assert(x as int == u[ki]);
                        assert(y as int == other@[ki][j as int]);
                        assert(v[ki] == other@[ki][j as int]);
                        lemma_wrapping_mul_crop(x, y);
                        lemma_wrapping_add_crop(acc, p);
                        lemma_crop_add_both(
                            dot(u.subrange(0, ki), v.subrange(0, ki)),
                            u[ki] * v[ki],
                        );
                        assert(u.subrange(0, ki + 1).drop_last() =~= u.subrange(0, ki));
                        assert(v.subrange(0, ki + 1).drop_last() =~= v.subrange(0, ki));
                        assert(u.subrange(0, ki + 1).last() == u[ki]);
                        assert(v.subrange(0, ki + 1).last() == v[ki]);
                    }
                    acc = acc.wrapping_add(p);
                    k += 1;
                }
                proof {
                    let u = self@[i as int];
                    let v = column(other@, j as int);
                    assert(u.subrange(0, n as int) =~= u);
                    assert(v.subrange(0, n as int) =~= v);
                }
                row.push(acc);
            }
            rows.push(row);
        }
        let res = Matrix { m: rows };
        proof {
            assert forall|i: int, j: int|
                0 <= i < n && 0 <= j < n implies res@[i][j] == mat_mul(self@, other@)[i][j] by {
                assert(res@[i][j] == res.m@[i]@[j] as int);
            }
            assert forall|i: int| 0 <= i < n implies (#[trigger] res@[i]).len() == n by {
                assert(res@[i].len() == res.m@[i]@.len());
            }
            assert(res@ =~~= mat_mul(self@, other@));
        }
        res
    }

    /// Exact entrywise equality of two matrices; false when the orders
    /// differ.
    pub fn equals(&self, other: &Matrix) -> (r: bool)
        requires
            self.wf(),
            other.wf(),
        ensures
            r <==> self@ == other@,
    {
        let n = self.m.len();
        proof {
            assert(self@.len() == self.m@.len());
            assert(other@.len() == other.m@.len());
        }
        if n != other.m.len() {
            return false;
        }
        let mut i: usize = 0;
        while i < n
            invariant
                self.wf(),
                other.wf(),
                self@.len() == n,
                other@.len() == n,
                i <= n,
                forall|ii: int, jj: int|
                    0 <= ii < i && 0 <= jj < n ==> #[trigger] self@[ii][jj] == other@[ii][jj],
            decreases n - i,
        {
            let mut j: usize = 0;
            while j < n
                invariant
                    self.wf(),
                    other.wf(),
                    self@.len() == n,
                    other@.len() == n,
                    i < n,
                    j <= n,
                    forall|jj: int|
                        0 <= jj < j ==> #[trigger] self@[i as int][jj] == other@[i as int][jj],
                decreases n - j,
            {
                proof {
                    assert(self@.len() == self.m@.len());
                    assert(other@.len() == other.m@.len());
                    assert(self@[i as int].len() == self.m@[i as int]@.len());
                    assert(other@[i as int].len() == other.m@[i as int]@.len());
                }
                if self.m[i][j] != other.m[i][j] {
                    proof {
                        assert(self@[i as int][j as int] == self.m@[i as int]@[j as int] as int);
                        assert(other@[i as int][j as int] == other.m@[i as int]@[j as int] as int);
                    }
                    return false;
                }
                proof {
                    assert(self@[i as int][j as int] == self.m@[i as int]@[j as int] as int);
                    assert(other@[i as int][j as int] == other.m@[i as int]@[j as int] as int);
                }
                j += 1;
            }
            i += 1;
        }
        proof {
            assert(self@ =~~= other@);
        }
        true
    }

    /// The matrix enlarged to the next power-of-two order, the original in
    /// the top-left corner and every added cell zero.
    pub fn pad(&self) -> (res: Matrix)
        requires
            self.wf(),
            self@.len() <= MAX_ORDER,
        ensures
            res.wf(),
            res@ == padded(self@, next_pow2(self@.len() as int)),
            is_pow2(res@.len() as int),
            res@.len() >= self@.len(),
    {
        let n = self.m.len();
        proof {
            assert(self@.len() == self.m@.len());
        }
        let mut p: usize = 1;
        proof {
            lemma_next_pow2_props(n as int);
        }
        while p < n
            invariant
                n <= MAX_ORDER,
                1 <= p,
                is_pow2(p as int),
                p as int <= next_pow2(n as int),
            decreases 2 * n - p,
        {
            proof {
                lemma_next_pow2_props(n as int);
                lemma_pow2_le(p as int, next_pow2(n as int));
            }
            p = p * 2;
        }
        proof {
            lemma_next_pow2_props(n as int);
            lemma_next_pow2_min(n as int, p as int);
            assert(p as int == next_pow2(n as int));
        }
        let mut rows: Vec<Vec<i64>> = Vec::new();
        while rows.len() < p
            invariant
                self.wf(),
                self@.len() == n,
                n <= p,
                rows@.len() <= p,
                forall|i: int| 0 <= i < rows@.len() ==> (#[trigger] rows@[i])@.len() == p,
                forall|i: int, j: int|
                    0 <= i < rows@.len() && 0 <= j < p ==> #[trigger] rows@[i]@[j] as int == (
                    if i < n && j < n {
                        self@[i][j]
                    } else {
                        0
                    }),
            decreases p - rows.len(),
        {
            let i = rows.len();
            let mut row: Vec<i64> = Vec::new();
            while row.len() < p
                invariant
                    self.wf(),
                    self@.len() == n,
                    n <= p,
                    i < p,
                    row@.len() <= p,
                    forall|j: int|
                        0 <= j < row@.len() ==> #[trigger] row@[j] as int == (
                        if i < n && j < n {
                            self@[i as int][j]
                        } else {
                            0
                        }),
                decreases p - row.len(),
            {
                let j = row.len();
                if i < n && j < n {
                    proof {
                        assert(self@.len() == self.m@.len());
                        assert(self@[i as int].len() == self.m@[i as int]@.len());
                    }
                    let x = self.m[i][j];
                    proof {
                        assert(x as int == self@[i as int][j as int]);
                    }
                    row.push(x);
                } else {
                    row.push(0);
                }
            }
            rows.push(row);
        }
        let res = Matrix { m: rows };
        proof {
            assert forall|i: int, j: int|
                0 <= i < p && 0 <= j < p implies res@[i][j] == padded(
                self@,
                next_pow2(n as int),
            )[i][j] by {
                assert(res@[i][j] == res.m@[i]@[j] as int);
            }
            assert forall|i: int| 0 <= i < p implies (#[trigger] res@[i]).len() == p by {
                assert(res@[i].len() == res.m@[i]@.len());
            }
            assert(res@ =~~= padded(self@, next_pow2(self@.len() as int)));
        }
        res
    }

    /// The order-`h` block of the matrix whose top-left cell is (`r0`, `c0`).
    fn copy_block(&self, r0: usize, c0: usize, h: usize) -> (res: Matrix)
        requires
            self.wf(),
            r0 + h <= self@.len(),
            c0 + h <= self@.len(),
        ensures
            res.wf(),
            res@ == quadrant(self@, r0 as int, c0 as int, h as int),
    {
        let n = self.m.len();
        proof {
            assert(self@.len() == self.m@.len());
        }
        let mut rows: Vec<Vec<i64>> = Vec::new();
        while rows.len() < h
            invariant
                self.wf(),
                n == self@.len(),
                r0 + h <= n,
                c0 + h <= n,
                rows@.len() <= h,
                forall|i: int| 0 <= i < rows@.len() ==> (#[trigger] rows@[i])@.len() == h,
                forall|i: int, j: int|
                    0 <= i < rows@.len() && 0 <= j < h ==> #[trigger] rows@[i]@[j] as int
                        == self@[r0 + i][c0 + j],
            decreases h - rows.len(),
        {
            let i = rows.len();
            let mut row: Vec<i64> = Vec::new();
            while row.len() < h
                invariant
                    self.wf(),
                    n == self@.len(),
                    r0 + h <= n,
                    c0 + h <= n,
                    i < h,
                    row@.len() <= h,
                    forall|j: int|
                        0 <= j < row@.len() ==> #[trigger] row@[j] as int == self@[r0 + i][c0 + j],
                decreases h - row.len(),
            {
                let j = row.len();
                proof {
                    assert(self@.len() == self.m@.len());
                    assert(self@[(r0 + i) as int].len() == self.m@[(r0 + i) as int]@.len());
                }
                let x = self.m[r0 + i][c0 + j];
                proof {
                    assert(x as int == self@[(r0 + i) as int][(c0 + j) as int]);
                }
                row.push(x);
            }
            rows.push(row);
        }
        let res = Matrix { m: rows };
        proof {
            assert forall|i: int, j: int|
                0 <= i < h && 0 <= j < h implies res@[i][j] == quadrant(
                self@,
                r0 as int,
                c0 as int,
                h as int,
            )[i][j] by {
                assert(res@[i][j] == res.m@[i]@[j] as int);
            }
            assert forall|i: int| 0 <= i < h implies (#[trigger] res@[i]).len() == h by {
                assert(res@[i].len() == res.m@[i]@.len());
            }
            assert(res@ =~~= quadrant(self@, r0 as int, c0 as int, h as int));
        }
        res
    }

    /// The four quadrants of an even-order matrix: top-left, top-right,
    /// bottom-left, bottom-right, each of half the order.
    pub fn get_submatrices(&self) -> (res: (Matrix, Matrix, Matrix, Matrix))
        requires
            self.wf(),
            self@.len() % 2 == 0,
        ensures
            res.0.wf(),
            res.1.wf(),
            res.2.wf(),
            res.3.wf(),
            res.0@ == quadrant(self@, 0, 0, self@.len() as int / 2),
            res.1@ == quadrant(self@, 0, self@.len() as int / 2, self@.len() as int / 2),
            res.2@ == quadrant(self@, self@.len() as int / 2, 0, self@.len() as int / 2),
            res.3@ == quadrant(self@, self@.len() as int / 2, self@.len() as int / 2, self@.len() as int / 2),
    {
        let h = self.m.len() / 2;
        proof {
            assert(self@.len() == self.m@.len());
            assert(2 * (self@.len() as int / 2) == self@.len() as int);
        }
        (
            self.copy_block(0, 0, h),
            self.copy_block(0, h, h),
            self.copy_block(h, 0, h),
            self.copy_block(h, h, h),
        )
    }

    /// One matrix of twice the order from four equal-order quadrants,
    /// placed top-left, top-right, bottom-left, bottom-right.
    pub fn assemble(c1: &Matrix, c2: &Matrix, c3: &Matrix, c4: &Matrix) -> (res: Matrix)
        requires
            c1.wf(),
            c2.wf(),
            c3.wf(),
            c4.wf(),
            c2@.len() == c1@.len(),
            c3@.len() == c1@.len(),
            c4@.len() == c1@.len(),
            2 * c1@.len() <= usize::MAX,
        ensures
            res.wf(),
            res@ == assembled(c1@, c2@, c3@, c4@),
    {
        let h = c1.m.len();
        proof {
            assert(c1@.len() == c1.m@.len());
        }
        let n = 2 * h;
        let mut rows: Vec<Vec<i64>> = Vec::new();
        while rows.len() < n
            invariant
                c1.wf(),
                c2.wf(),
                c3.wf(),
                c4.wf(),
                c1@.len() == h,
                c2@.len() == h,
                c3@.len() == h,
                c4@.len() == h,
                n == 2 * h,
                rows@.len() <= n,
                forall|i: int| 0 <= i < rows@.len() ==> (#[trigger] rows@[i])@.len() == n,
                forall|i: int, j: int|
                    0 <= i < rows@.len() && 0 <= j < n ==> #[trigger] rows@[i]@[j] as int
                        == assembled(c1@, c2@, c3@, c4@)[i][j],
            decreases n - rows.len(),
        {
            let i = rows.len();
            let mut row: Vec<i64> = Vec::new();
            while row.len() < n
                invariant
                    c1.wf(),
                    c2.wf(),
                    c3.wf(),
                    c4.wf(),
                    c1@.len() == h,
                    c2@.len() == h,
                    c3@.len() == h,
                    c4@.len() == h,
                    n == 2 * h,
                    i < n,
                    row@.len() <= n,
                    forall|j: int|
                        0 <= j < row@.len() ==> #[trigger] row@[j] as int == assembled(
                            c1@,
                            c2@,
                            c3@,
                            c4@,
                        )[i as int][j],
                decreases n - row.len(),
            {
                let j = row.len();
                proof {
                    assert(c1@.len() == c1.m@.len());
                    assert(c2@.len() == c2.m@.len());
                    assert(c3@.len() == c3.m@.len());
                    assert(c4@.len() == c4.m@.len());
                    if i < h {
                        if j < h {
                            assert(c1@[i as int].len() == c1.m@[i as int]@.len());
                        } else {
                            assert(c2@[i as int].len() == c2.m@[i as int]@.len());
                        }
                    } else {
                        if j < h {
                            assert(c3@[(i - h) as int].len() == c3.m@[(i - h) as int]@.len());
                        } else {
                            assert(c4@[(i - h) as int].len() == c4.m@[(i - h) as int]@.len());
                        }
                    }
                }
                let x = if i < h {
                    if j < h {
                        c1.m[i][j]
                    } else {
                        c2.m[i][j - h]
                    }
                } else {
                    if j < h {
                        c3.m[i - h][j]
                    } else {
                        c4.m[i - h][j - h]
                    }
                };
                proof {
                    let ii = i as int;
                    let jj = j as int;
                    if ii < h {
                        if jj < h {
                            assert(x as int == c1@[ii][jj]);
                        } else {
                            assert(x as int == c2@[ii][jj - h]);
                        }
                    } else {
                        if jj < h {
                            assert(x as int == c3@[ii - h][jj]);
                        } else {
                            assert(x as int == c4@[ii - h][jj - h]);
                        }
                    }
                }
                row.push(x);
            }
            rows.push(row);
        }
        let res = Matrix { m: rows };
        proof {
            assert forall|i: int, j: int|
                0 <= i < n && 0 <= j < n implies res@[i][j] == assembled(
                c1@,
                c2@,
                c3@,
                c4@,
            )[i][j] by {
                assert(res@[i][j] == res.m@[i]@[j] as int);
            }
            assert forall|i: int| 0 <= i < n implies (#[trigger] res@[i]).len() == n by {
                assert(res@[i].len() == res.m@[i]@.len());
            }
            assert(res@ =~~= assembled(c1@, c2@, c3@, c4@));
        }
        res
    }
}

} // verus!
