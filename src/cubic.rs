use vstd::prelude::*;

use crate::field::{p, Fp};
use crate::r1cs::{scalar_of, R1CS};
use crate::vector::row_sum;
use vstd::arithmetic::div_mod::{
    lemma_mod_add_multiples_vanish, lemma_mod_twice, lemma_small_mod, lemma_sub_mod_noop,
    lemma_add_mod_noop, lemma_mul_mod_noop_left,
};

verus! {

/// The constraint system of `y = x^3 + x + 5` over `z = [1, x, y, x^2, x^3, x^3 + x]`:
/// `x * x = x^2`, `x^2 * x = x^3`, `(x + x^3) * 1 = x^3 + x`, `(5 + x^3 + x) * 1 = y`.
pub open spec fn is_cubic(r: R1CS) -> bool {
    let one = Fp { val: 1 };
    let five = Fp { val: 5 };
    &&& r.shape_ok()
    &&& r.l == 1
    &&& r.A.n_rows == 4
    &&& r.A.n_cols == 6
    &&& r.A.row(0) == seq![(one, 1usize)]
    &&& r.A.row(1) == seq![(one, 3usize)]
    &&& r.A.row(2) == seq![(one, 1usize), (one, 4usize)]
    &&& r.A.row(3) == seq![(five, 0usize), (one, 5usize)]
    &&& r.B.row(0) == seq![(one, 1usize)]
    &&& r.B.row(1) == seq![(one, 1usize)]
    &&& r.B.row(2) == seq![(one, 0usize)]
    &&& r.B.row(3) == seq![(one, 0usize)]
    &&& r.C.row(0) == seq![(one, 3usize)]
    &&& r.C.row(1) == seq![(one, 4usize)]
    &&& r.C.row(2) == seq![(one, 5usize)]
    &&& r.C.row(3) == seq![(one, 2usize)]
}

/// The canonical element for the integer `v`.
pub open spec fn elem(v: int) -> Fp {
    Fp { val: (v % p()) as u64 }
}

/// The satisfying assignment of the cubic relation for the input `x`.
pub open spec fn cubic_z(x: int) -> Seq<Fp> {
    let v = x % p();
    seq![
        Fp { val: 1 },
        elem(v),
        elem(v * v * v + v + 5),
        elem(v * v),
        elem(v * v * v),
        elem(v * v * v + v),
    ]
}

proof fn lemma_row_one(e: (Fp, usize), z: Seq<Fp>)
    ensures
        row_sum(seq![e], z) == e.0.val * z[e.1 as int].val,
{
    assert(seq![e].drop_last() =~= Seq::<(Fp, usize)>::empty());
    assert(seq![e].last() == e);
    assert(row_sum(Seq::<(Fp, usize)>::empty(), z) == 0);
}

proof fn lemma_row_two(e0: (Fp, usize), e1: (Fp, usize), z: Seq<Fp>)
    ensures
        row_sum(seq![e0, e1], z) == e0.0.val * z[e0.1 as int].val + e1.0.val * z[e1.1 as int].val,
{
    assert(seq![e0, e1].drop_last() =~= seq![e0]);
    assert(seq![e0, e1].last() == e1);
    lemma_row_one(e0, z);
}

proof fn lemma_elem(v: int)
    ensures
        elem(v).val as int == v % p(),
        elem(v).fv() == v % p(),
{
    lemma_mod_twice(v, p());
}

/// `(a - b) % p` is zero exactly when `a` and `b` are congruent.
proof fn lemma_diff_zero(a: int, b: int)
    ensures
        ((a - b) % p() == 0) == (a % p() == b % p()),
{
    lemma_sub_mod_noop(a, b, p());
    let d = a % p() - b % p();
    if d >= 0 {
        lemma_small_mod(d as nat, p() as nat);
    } else {
        lemma_mod_add_multiples_vanish(d, p());
        lemma_small_mod((d + p()) as nat, p() as nat);
    }
}

/// The residual rows of the cubic relation at an assignment whose first element is one.
proof fn lemma_cubic_rows(r: R1CS, z: Seq<Fp>)
    requires
        is_cubic(r),
        z.len() == 6,
        z[0] == (Fp { val: 1 }),
    ensures
        scalar_of(z) == 1,
        r.residual_spec(z, 1)[0] == (z[1].fv() * z[1].fv() - z[3].fv()) % p(),
        r.residual_spec(z, 1)[1] == (z[3].fv() * z[1].fv() - z[4].fv()) % p(),
        r.residual_spec(z, 1)[2] == ((z[1].val as int + z[4].val as int) % p() - z[5].fv()) % p(),
        r.residual_spec(z, 1)[3] == ((5 + z[5].val as int) % p() - z[2].fv()) % p(),
{
    let one = Fp { val: 1 };
    let five = Fp { val: 5 };
    lemma_small_mod(1, p() as nat);
    lemma_row_one((one, 1usize), z);
    lemma_row_one((one, 3usize), z);
    lemma_row_two((one, 1usize), (one, 4usize), z);
    lemma_row_two((five, 0usize), (one, 5usize), z);
    lemma_row_one((one, 0usize), z);
    lemma_row_one((one, 4usize), z);
    lemma_row_one((one, 5usize), z);
    lemma_row_one((one, 2usize), z);
    assert(r.A.row(2) == seq![(one, 1usize), (one, 4usize)]);
    assert(row_sum(r.A.row(2), z) == 1 * z[1].val + 1 * z[4].val);
    assert(r.A.mul_spec(z)[2] == row_sum(r.A.row(2), z) % p());
    assert(r.A.mul_spec(z)[2] == (z[1].val as int + z[4].val as int) % p());
    assert(row_sum(r.B.row(2), z) == 1 * z[0].val);
    assert(r.B.mul_spec(z)[2] == row_sum(r.B.row(2), z) % p());
    assert(r.B.mul_spec(z)[2] == 1);
    assert(row_sum(r.A.row(3), z) == 5 * z[0].val + 1 * z[5].val);
    assert(r.A.mul_spec(z)[3] == row_sum(r.A.row(3), z) % p());
    assert(row_sum(r.B.row(3), z) == 1 * z[0].val);
    assert(r.B.mul_spec(z)[3] == row_sum(r.B.row(3), z) % p());
    assert(row_sum(r.A.row(0), z) == 1 * z[1].val);
    assert(r.A.mul_spec(z)[0] == row_sum(r.A.row(0), z) % p());
    assert(row_sum(r.B.row(0), z) == 1 * z[1].val);
    assert(r.B.mul_spec(z)[0] == row_sum(r.B.row(0), z) % p());
    assert(row_sum(r.A.row(1), z) == 1 * z[3].val);
    assert(r.A.mul_spec(z)[1] == row_sum(r.A.row(1), z) % p());
    assert(row_sum(r.B.row(1), z) == 1 * z[1].val);
    assert(r.B.mul_spec(z)[1] == row_sum(r.B.row(1), z) % p());
    assert(row_sum(r.C.row(0), z) == 1 * z[3].val);
    assert(r.C.mul_spec(z)[0] == row_sum(r.C.row(0), z) % p());
    assert(row_sum(r.C.row(1), z) == 1 * z[4].val);
    assert(r.C.mul_spec(z)[1] == row_sum(r.C.row(1), z) % p());
    assert(row_sum(r.C.row(2), z) == 1 * z[5].val);
    assert(r.C.mul_spec(z)[2] == row_sum(r.C.row(2), z) % p());
    assert(row_sum(r.C.row(3), z) == 1 * z[2].val);
    assert(r.C.mul_spec(z)[3] == row_sum(r.C.row(3), z) % p());
    assert(r.A.mul_spec(z)[3] == (5 + z[5].val as int) % p());
    assert(r.B.mul_spec(z)[3] == 1);
}

/// The cubic relation is satisfied by `[1, x, x^3 + x + 5, x^2, x^3, x^3 + x]`
/// for every integer `x`.
pub proof fn lemma_cubic_satisfied(r: R1CS, x: int)
    requires
        is_cubic(r),
    ensures
        r.satisfied_by(cubic_z(x)),
{
    let z = cubic_z(x);
    let v = x % p();
    lemma_cubic_rows(r, z);
    lemma_mod_twice(x, p());
    lemma_elem(v);
    lemma_elem(v * v * v + v + 5);
    lemma_elem(v * v);
    lemma_elem(v * v * v);
    lemma_elem(v * v * v + v);
    // x * x = x^2
    lemma_diff_zero(v * v, (v * v) % p());
    lemma_mod_twice(v * v, p());
    // x^2 * x = x^3
    lemma_mul_mod_noop_left(v * v, v, p());
    lemma_mod_twice(v * v * v, p());
    lemma_diff_zero(((v * v) % p()) * v, (v * v * v) % p());
    // x + x^3 = x^3 + x
    lemma_add_mod_noop(v, v * v * v, p());
    lemma_mod_twice(v, p());
    lemma_mod_twice(v + (v * v * v) % p(), p());
    lemma_mod_twice(v * v * v + v, p());
    lemma_diff_zero((v + (v * v * v) % p()) % p(), (v * v * v + v) % p());
    // 5 + x^3 + x = y
    lemma_add_mod_noop(5, v * v * v + v, p());
    lemma_small_mod(5, p() as nat);
    lemma_mod_twice(5 + (v * v * v + v) % p(), p());
    lemma_mod_twice(v * v * v + v + 5, p());
    lemma_diff_zero((5 + (v * v * v + v) % p()) % p(), (v * v * v + v + 5) % p());
    assert(scalar_of(z) == 1);
}

/// Changing any one of the coordinates `1 ..= 5` of the satisfying assignment
/// to an element of another value breaks the cubic relation.
pub proof fn lemma_cubic_single_change(r: R1CS, x: int, j: int, v: Fp)
    requires
        is_cubic(r),
        1 <= j < 6,
        v.fv() != cubic_z(x)[j].fv(),
    ensures
        !r.satisfied_by(cubic_z(x).update(j, v)),
{
    let z0 = cubic_z(x);
    let z = z0.update(j, v);
    let xv = x % p();
    lemma_mod_twice(x, p());
    lemma_elem(xv);
    lemma_elem(xv * xv * xv + xv + 5);
    lemma_elem(xv * xv);
    lemma_elem(xv * xv * xv);
    lemma_elem(xv * xv * xv + xv);
    lemma_cubic_rows(r, z);
    let vv = v.fv();
    lemma_mod_twice(v.val as int, p());
    let o3 = (xv * xv) % p();
    let o4 = (xv * xv * xv) % p();
    let o5 = (xv * xv * xv + xv) % p();
    // o5 is congruent to x + o4
    lemma_add_mod_noop(xv, xv * xv * xv, p());
    lemma_mod_twice(xv, p());
    assert(o5 == (xv + o4) % p());
    if j == 3 {
        lemma_diff_zero(xv * xv, vv);
        assert(r.residual_spec(z, 1)[0] != 0);
    } else if j == 4 {
        lemma_mul_mod_noop_left(xv * xv, xv, p());
        lemma_diff_zero(o3 * xv, vv);
        assert(r.residual_spec(z, 1)[1] != 0);
    } else if j == 5 {
        lemma_mod_twice(xv + o4, p());
        lemma_diff_zero((xv + o4) % p(), vv);
        assert(r.residual_spec(z, 1)[2] != 0);
    } else if j == 2 {
        lemma_add_mod_noop(5, xv * xv * xv + xv, p());
        lemma_small_mod(5, p() as nat);
        lemma_mod_twice(5 + o5, p());
        lemma_diff_zero((5 + o5) % p(), vv);
        assert(r.residual_spec(z, 1)[3] != 0);
    } else {
        // j == 1
        lemma_add_mod_noop(v.val as int, o4, p());
        lemma_add_mod_noop(vv, o4, p());
        lemma_mod_twice(o4, p());
        lemma_mod_twice(v.val as int + o4, p());
        lemma_diff_zero((v.val as int + o4) % p(), o5);
        lemma_diff_zero(vv + o4, xv + o4);
        lemma_diff_zero(vv, xv);
        assert((vv + o4 - (xv + o4)) == vv - xv);
        assert(r.residual_spec(z, 1)[2] != 0);
    }
}

} // verus!
