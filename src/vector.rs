use vstd::prelude::*;

use crate::error::Error;
use crate::field::{p, Fp};
use vstd::arithmetic::div_mod::lemma_add_mod_noop;

verus! {

/// Field values of a vector of elements.
pub open spec fn fvs(v: Seq<Fp>) -> Seq<int> {
    Seq::new(v.len(), |i: int| v[i].fv())
}

/// True when every element of the vector is the zero of the field.
pub open spec fn all_zero(v: Seq<Fp>) -> bool {
    forall|i: int| 0 <= i < v.len() ==> #[trigger] v[i].fv() == 0
}

/// True when two vectors have the same length and the same field values.
pub open spec fn same_values(a: Seq<Fp>, b: Seq<Fp>) -> bool {
    a.len() == b.len() && forall|i: int| 0 <= i < a.len() ==> #[trigger] a[i].fv() == b[i].fv()
}

/// The canonical elements whose field values are `s` (each in `[0, p)`).
pub open spec fn canon(s: Seq<int>) -> Seq<Fp> {
    Seq::new(s.len(), |i: int| Fp { val: s[i] as u64 })
}

/// A vector of canonical elements is the canonical form of its field values.
pub proof fn lemma_canon(v: Seq<Fp>)
    requires
        forall|i: int| 0 <= i < v.len() ==> (#[trigger] v[i]).canonical(),
    ensures
        canon(fvs(v)) == v,
{
    assert forall|i: int| 0 <= i < v.len() implies #[trigger] canon(fvs(v))[i] == v[i] by {
        vstd::arithmetic::div_mod::lemma_small_mod(v[i].val as nat, p() as nat);
    }
    assert(canon(fvs(v)) =~= v);
}

/// The integer sum of `value * z[column]` over the entries of a sparse row.
pub open spec fn row_sum(row: Seq<(Fp, usize)>, z: Seq<Fp>) -> int
    decreases row.len(),
{
    if row.len() == 0 {
        0
    } else {
        row_sum(row.drop_last(), z) + row.last().0.val * z[row.last().1 as int].val
    }
}

/// A sparse matrix: for each row, its non-zero entries as `(value, column)`.
#[derive(Clone, Debug)]
pub struct SparseMatrix {
    pub n_rows: usize,
    pub n_cols: usize,
    pub coeffs: Vec<Vec<(Fp, usize)>>,
}

impl SparseMatrix {
    /// The entries of row `i`.
    pub open spec fn row(self, i: int) -> Seq<(Fp, usize)> {
        self.coeffs@[i]@
    }

    /// One list of entries per row, and every column index below `n_cols`.
    pub open spec fn wf(self) -> bool {
        &&& self.coeffs@.len() == self.n_rows
        &&& forall|i: int, k: int|
            0 <= i < self.n_rows && 0 <= k < self.row(i).len() ==> (#[trigger] self.row(i)[k]).1
                < self.n_cols
    }

    /// The product of the matrix with `z`, row by row, as field values.
    pub open spec fn mul_spec(self, z: Seq<Fp>) -> Seq<int> {
        Seq::new(self.n_rows as nat, |i: int| row_sum(self.row(i), z) % p())
    }
}

/// The field value of the product of one sparse row with `z`.
fn row_dot(row: &Vec<(Fp, usize)>, z: &[Fp]) -> (r: Fp)
    requires
        forall|k: int| 0 <= k < row@.len() ==> (#[trigger] row@[k]).1 < z@.len(),
    ensures
        r.fv() == row_sum(row@, z@) % p(),
        r.canonical(),
{
    let mut acc = Fp::zero();
    let mut k: usize = 0;
    while k < row.len()
        invariant
            k <= row@.len(),
            forall|j: int| 0 <= j < row@.len() ==> (#[trigger] row@[j]).1 < z@.len(),
            acc.fv() == row_sum(row@.take(k as int), z@) % p(),
            acc.canonical(),
        decreases row@.len() - k,
    {
        let (c, col) = row[k];
        let t = c.mul(z[col]);
        let next = acc.add(t);
        proof {
            let s = row@.take(k as int + 1);
            assert(s.drop_last() =~= row@.take(k as int));
            lemma_add_mod_noop(row_sum(row@.take(k as int), z@), c.val * z@[col as int].val, p());
        }
        acc = next;
        k = k + 1;
    }
    proof {
        assert(row@.take(k as int) =~= row@);
    }
    acc
}

/// Multiplies the sparse matrix by the dense vector `z`.
pub fn mat_vec_mul(m: &SparseMatrix, z: &[Fp]) -> (r: Result<Vec<Fp>, Error>)
    requires
        m.wf(),
    ensures
        z@.len() != m.n_cols <==> r == Err::<Vec<Fp>, Error>(
            Error::NotSameLength(z@.len() as usize, m.n_cols),
        ),
        z@.len() == m.n_cols <==> r is Ok,
        r is Ok ==> fvs(r->Ok_0@) == m.mul_spec(z@),
        r is Ok ==> forall|i: int| 0 <= i < r->Ok_0@.len() ==> (#[trigger] r->Ok_0@[i]).canonical(),
{
    if m.n_cols != z.len() {
        return Err(Error::NotSameLength(z.len(), m.n_cols));
    }
    let mut out: Vec<Fp> = Vec::new();
    let mut i: usize = 0;
    while i < m.coeffs.len()
        invariant
            m.wf(),
            z@.len() == m.n_cols,
            i <= m.n_rows,
            out@.len() == i,
            forall|j: int| 0 <= j < i ==> (#[trigger] out@[j]).fv() == row_sum(m.row(j), z@) % p(),
            forall|j: int| 0 <= j < i ==> (#[trigger] out@[j]).canonical(),
        decreases m.n_rows - i,
    {
        proof {
            assert forall|k: int| 0 <= k < m.coeffs@[i as int]@.len() implies (#[trigger] m.coeffs@[i as int]@[k]).1 < z@.len() by {
                assert(m.row(i as int)[k].1 < m.n_cols);
            }
        }
        let v = row_dot(&m.coeffs[i], z);
        out.push(v);
        i = i + 1;
    }
    assert(fvs(out@) =~= m.mul_spec(z@));
    Ok(out)
}

/// The elementwise product of two vectors of equal length.
pub fn hadamard(a: &Vec<Fp>, b: &Vec<Fp>) -> (r: Result<Vec<Fp>, Error>)
    ensures
        a@.len() != b@.len() <==> r == Err::<Vec<Fp>, Error>(
            Error::NotSameLength(a@.len() as usize, b@.len() as usize),
        ),
        a@.len() == b@.len() <==> r is Ok,
        r is Ok ==> r->Ok_0@.len() == a@.len(),
        r is Ok ==> forall|i: int|
            0 <= i < a@.len() ==> (#[trigger] r->Ok_0@[i]).fv() == (a@[i].fv() * b@[i].fv()) % p(),
{
    if a.len() != b.len() {
        return Err(Error::NotSameLength(a.len(), b.len()));
    }
    let mut out: Vec<Fp> = Vec::new();
    let mut i: usize = 0;
    while i < a.len()
        invariant
            a@.len() == b@.len(),
            i <= a@.len(),
            out@.len() == i,
            forall|j: int|
                0 <= j < i ==> (#[trigger] out@[j]).fv() == (a@[j].fv() * b@[j].fv()) % p(),
        decreases a@.len() - i,
    {
        out.push(a[i].mul(b[i]));
        i = i + 1;
    }
    Ok(out)
}

/// Multiplies every element of `v` by the scalar `c`.
pub fn vec_scalar_mul(v: &Vec<Fp>, c: Fp) -> (r: Vec<Fp>)
    ensures
        r@.len() == v@.len(),
        forall|i: int| 0 <= i < v@.len() ==> (#[trigger] r@[i]).fv() == (v@[i].fv() * c.fv()) % p(),
{
    let mut out: Vec<Fp> = Vec::new();
    let mut i: usize = 0;
    while i < v.len()
        invariant
            i <= v@.len(),
            out@.len() == i,
            forall|j: int| 0 <= j < i ==> (#[trigger] out@[j]).fv() == (v@[j].fv() * c.fv()) % p(),
        decreases v@.len() - i,
    {
        out.push(v[i].mul(c));
        i = i + 1;
    }
    out
}

/// The elementwise difference `a - b` of two vectors of equal length.
pub fn vec_sub(a: &Vec<Fp>, b: &Vec<Fp>) -> (r: Result<Vec<Fp>, Error>)
    ensures
        a@.len() != b@.len() <==> r == Err::<Vec<Fp>, Error>(
            Error::NotSameLength(a@.len() as usize, b@.len() as usize),
        ),
        a@.len() == b@.len() <==> r is Ok,
        r is Ok ==> r->Ok_0@.len() == a@.len(),
        r is Ok ==> forall|i: int|
            0 <= i < a@.len() ==> (#[trigger] r->Ok_0@[i]).fv() == (a@[i].fv() - b@[i].fv()) % p(),
        r is Ok ==> forall|i: int| 0 <= i < a@.len() ==> (#[trigger] r->Ok_0@[i]).canonical(),
{
    if a.len() != b.len() {
        return Err(Error::NotSameLength(a.len(), b.len()));
    }
    let mut out: Vec<Fp> = Vec::new();
    let mut i: usize = 0;
    while i < a.len()
        invariant
            a@.len() == b@.len(),
            i <= a@.len(),
            out@.len() == i,
            forall|j: int|
                0 <= j < i ==> (#[trigger] out@[j]).fv() == (a@[j].fv() - b@[j].fv()) % p(),
            forall|j: int| 0 <= j < i ==> (#[trigger] out@[j]).canonical(),
        decreases a@.len() - i,
    {
        out.push(a[i].sub(b[i]));
        i = i + 1;
    }
    Ok(out)
}

/// Whether every element of `v` is zero in the field.
pub fn is_zero_vec(v: &Vec<Fp>) -> (r: bool)
    ensures
        r == all_zero(v@),
{
    let mut i: usize = 0;
    while i < v.len()
        invariant
            i <= v@.len(),
            forall|j: int| 0 <= j < i ==> (#[trigger] v@[j]).fv() == 0,
        decreases v@.len() - i,
    {
        if !v[i].is_zero() {
            return false;
        }
        i = i + 1;
    }
    true
}

impl SparseMatrix {
    /// The matrix is the sparse form of the dense rows `values`: each row
    /// lists, by increasing column, exactly the non-zero values of its row.
    pub open spec fn sparse_of(self, values: Seq<Vec<Fp>>) -> bool {
        &&& self.wf()
        &&& values.len() == self.n_rows
        &&& forall|i: int, k: int|
            0 <= i < self.n_rows && 0 <= k < self.row(i).len() ==> {
                let (v, c) = #[trigger] self.row(i)[k];
                &&& v == values[i]@[c as int]
                &&& v.fv() != 0
            }
        &&& forall|i: int, k1: int, k2: int|
            0 <= i < self.n_rows && 0 <= k1 < k2 < self.row(i).len() ==> (#[trigger] self.row(
                i,
            )[k1]).1 < (#[trigger] self.row(i)[k2]).1
        &&& forall|i: int, c: int|
            0 <= i < self.n_rows && 0 <= c < self.n_cols && (#[trigger] values[i]@[c]).fv() != 0
                ==> exists|k: int| 0 <= k < self.row(i).len() && (#[trigger] self.row(i)[k]).1 == c
    }

    /// The sparse matrix with `n_cols` columns whose rows are the dense rows
    /// `values`; zeros are left out.
    pub fn from_dense(values: &Vec<Vec<Fp>>, n_cols: usize) -> (r: SparseMatrix)
        requires
            forall|i: int| 0 <= i < values@.len() ==> (#[trigger] values@[i])@.len() == n_cols,
        ensures
            r.n_rows == values@.len(),
            r.n_cols == n_cols,
            r.sparse_of(values@),
    {
        let mut coeffs: Vec<Vec<(Fp, usize)>> = Vec::new();
        let mut i: usize = 0;
        while i < values.len()
            invariant
                forall|i2: int| 0 <= i2 < values@.len() ==> (#[trigger] values@[i2])@.len() == n_cols,
                i <= values@.len(),
                coeffs@.len() == i,
                forall|i2: int, k: int|
                    0 <= i2 < i && 0 <= k < coeffs@[i2]@.len() ==> {
                        let (v, c) = #[trigger] coeffs@[i2]@[k];
                        &&& c < n_cols
                        &&& v == values@[i2]@[c as int]
                        &&& v.fv() != 0
                    },
                forall|i2: int, k1: int, k2: int|
                    0 <= i2 < i && 0 <= k1 < k2 < coeffs@[i2]@.len() ==> (#[trigger] coeffs@[i2]@[k1]).1
                        < (#[trigger] coeffs@[i2]@[k2]).1,
                forall|i2: int, c: int|
                    0 <= i2 < i && 0 <= c < n_cols && (#[trigger] values@[i2]@[c]).fv() != 0
                        ==> exists|k: int|
                        0 <= k < coeffs@[i2]@.len() && (#[trigger] coeffs@[i2]@[k]).1 == c,
            decreases values@.len() - i,
        {
            let dense = &values[i];
            let mut row: Vec<(Fp, usize)> = Vec::new();
            let mut c: usize = 0;
            while c < n_cols
                invariant
                    dense@.len() == n_cols,
                    c <= n_cols,
                    forall|k: int|
                        0 <= k < row@.len() ==> {
                            let (v, cc) = #[trigger] row@[k];
                            &&& cc < c
                            &&& v == dense@[cc as int]
                            &&& v.fv() != 0
                        },
                    forall|k1: int, k2: int|
                        0 <= k1 < k2 < row@.len() ==> (#[trigger] row@[k1]).1 < (#[trigger] row@[k2]).1,
                    forall|c2: int|
                        0 <= c2 < c && (#[trigger] dense@[c2]).fv() != 0 ==> exists|k: int|
                            0 <= k < row@.len() && (#[trigger] row@[k]).1 == c2,
                decreases n_cols - c,
            {
                let v = dense[c];
                let ghost before = row@;
                if !v.is_zero() {
                    row.push((v, c));
                }
                proof {
                    assert forall|c2: int|
                        0 <= c2 < c + 1 && (#[trigger] dense@[c2]).fv() != 0 implies exists|k: int|
                        0 <= k < row@.len() && (#[trigger] row@[k]).1 == c2 by {
                        if c2 < c {
                            let k = choose|k: int| 0 <= k < before.len() && (#[trigger] before[k]).1 == c2;
                            assert(row@[k] == before[k]);
                        } else {
                            assert(row@[row@.len() - 1].1 == c2);
                        }
                    }
                }
                c = c + 1;
            }
            let ghost done_row = row@;
            let ghost old_coeffs = coeffs@;
            coeffs.push(row);
            proof {
                assert(coeffs@[i as int]@ == done_row);
                assert forall|i2: int, c2: int|
                    0 <= i2 < i + 1 && 0 <= c2 < n_cols && (#[trigger] values@[i2]@[c2]).fv() != 0
                    implies exists|k: int|
                    0 <= k < coeffs@[i2]@.len() && (#[trigger] coeffs@[i2]@[k]).1 == c2 by {
                    if i2 == i {
                        assert(dense@[c2] == values@[i2]@[c2]);
                        let k = choose|k: int| 0 <= k < done_row.len() && (#[trigger] done_row[k]).1 == c2;
                        assert(coeffs@[i2]@[k] == done_row[k]);
                    } else {
                        let k = choose|k: int|
                            0 <= k < old_coeffs[i2]@.len() && (#[trigger] old_coeffs[i2]@[k]).1 == c2;
                        assert(coeffs@[i2] == old_coeffs[i2]);
                        assert(coeffs@[i2]@[k] == old_coeffs[i2]@[k]);
                    }
                }
            }
            i = i + 1;
        }
        let r = SparseMatrix { n_rows: values.len(), n_cols, coeffs };
        proof {
            assert forall|i2: int, k: int|
                0 <= i2 < r.n_rows && 0 <= k < r.row(i2).len() implies (#[trigger] r.row(i2)[k]).1
                < n_cols by {
                assert(r.row(i2)[k] == coeffs@[i2]@[k]);
            }
            assert forall|i2: int, k: int| 0 <= i2 < r.n_rows && 0 <= k < r.row(i2).len() implies {
                let (v, c) = #[trigger] r.row(i2)[k];
                &&& v == values@[i2]@[c as int]
                &&& v.fv() != 0
            } by {
                assert(r.row(i2)[k] == coeffs@[i2]@[k]);
            }
            assert forall|i2: int, k1: int, k2: int|
                0 <= i2 < r.n_rows && 0 <= k1 < k2 < r.row(i2).len() implies (#[trigger] r.row(
                i2,
            )[k1]).1 < (#[trigger] r.row(i2)[k2]).1 by {
                assert(r.row(i2)[k1] == coeffs@[i2]@[k1]);
                assert(r.row(i2)[k2] == coeffs@[i2]@[k2]);
            }
            assert forall|i2: int, c: int|
                0 <= i2 < r.n_rows && 0 <= c < n_cols && (#[trigger] values@[i2]@[c]).fv() != 0
                implies exists|k: int| 0 <= k < r.row(i2).len() && (#[trigger] r.row(i2)[k]).1 == c by {
                let k = choose|k: int| 0 <= k < coeffs@[i2]@.len() && (#[trigger] coeffs@[i2]@[k]).1 == c;
                assert(r.row(i2)[k] == coeffs@[i2]@[k]);
            }
        }
        r
    }
}

} // verus!
