use vstd::prelude::*;

use crate::fixed::{trunc_div, ONE};

verus! {

/// A three-component vector of raw fixed-point values.
#[derive(Clone, Copy, Debug, PartialEq, Eq)]
pub struct Vec3 {
    pub x: i64,
    pub y: i64,
    pub z: i64,
}

/// A quaternion of raw fixed-point components, with `w` the scalar part.
#[derive(Clone, Copy, Debug, PartialEq, Eq)]
pub struct Quat {
    pub x: i64,
    pub y: i64,
    pub z: i64,
    pub w: i64,
}

/// A 4×4 matrix of raw fixed-point values, stored row by row (`m[4 * row + column]`).
#[derive(Clone, Copy, Debug, PartialEq, Eq)]
pub struct Mat4 {
    pub m: [i64; 16],
}

/// The product of two fixed-point values, rounded toward zero.
pub open spec fn fx_mul(a: int, b: int) -> int {
    trunc_div(a * b, ONE as int)
}

/// `x`, saturated to the range of `i64`.
pub open spec fn saturate(x: int) -> i64 {
    if x < i64::MIN {
        i64::MIN
    } else if x > i64::MAX {
        i64::MAX
    } else {
        x as i64
    }
}

/// Entry (`r`, `c`) of the product `a * b`.
pub open spec fn product_entry(a: Seq<i64>, b: Seq<i64>, r: int, c: int) -> i64 {
    saturate(
        fx_mul(a[4 * r] as int, b[c] as int) + fx_mul(a[4 * r + 1] as int, b[4 + c] as int)
            + fx_mul(a[4 * r + 2] as int, b[8 + c] as int) + fx_mul(
            a[4 * r + 3] as int,
            b[12 + c] as int,
        ),
    )
}

/// The matrix product `a * b`, each entry saturated.
pub open spec fn mat_mul(a: Seq<i64>, b: Seq<i64>) -> Seq<i64> {
    Seq::new(16, |i: int| product_entry(a, b, i / 4, i % 4))
}

/// The identity matrix.
pub open spec fn identity() -> Seq<i64> {
    Seq::new(16, |i: int| if i % 5 == 0 { ONE } else { 0i64 })
}

/// The matrix that translates by `t`.
pub open spec fn translation_matrix(t: Vec3) -> Seq<i64> {
    identity().update(3, t.x).update(7, t.y).update(11, t.z)
}

/// The matrix that scales the axes by `s`.
pub open spec fn scaling_matrix(s: Vec3) -> Seq<i64> {
    identity().update(0, s.x).update(5, s.y).update(10, s.z)
}

/// The squared norm of `q`, in raw units squared.
pub open spec fn norm_sq(q: Quat) -> int {
    q.w * q.w + q.x * q.x + q.y * q.y + q.z * q.z
}

/// `2 * v / n` as a raw fixed-point value, with `n` the squared norm.
pub open spec fn twice_over(v: int, n: int) -> int {
    trunc_div(2 * ONE * v, n)
}

/// The rotation by `q` after normalisation; the identity for the zero quaternion.
pub open spec fn rotation_matrix(q: Quat) -> Seq<i64> {
    let n = norm_sq(q);
    if n == 0 {
        identity()
    } else {
        let (x, y, z, w) = (q.x as int, q.y as int, q.z as int, q.w as int);
        seq![
            (ONE - twice_over(y * y + z * z, n)) as i64,
            twice_over(x * y - z * w, n) as i64,
            twice_over(x * z + y * w, n) as i64,
            0i64,
            twice_over(x * y + z * w, n) as i64,
            (ONE - twice_over(x * x + z * z, n)) as i64,
            twice_over(y * z - x * w, n) as i64,
            0i64,
            twice_over(x * z - y * w, n) as i64,
            twice_over(y * z + x * w, n) as i64,
            (ONE - twice_over(x * x + y * y, n)) as i64,
            0i64,
            0i64,
            0i64,
            0i64,
            ONE,
        ]
    }
}

/// Entry (`r`, `c`) of `a`.
pub open spec fn at(a: Seq<i64>, r: int, c: int) -> int {
    a[4 * r + c] as int
}

/// The cofactor at (`r`, `c`) of the upper-left 3×3 block of `a`, signed, saturated.
pub open spec fn cofactor(a: Seq<i64>, r: int, c: int) -> i64 {
    let (r1, r2, c1, c2) = ((r + 1) % 3, (r + 2) % 3, (c + 1) % 3, (c + 2) % 3);
    saturate(fx_mul(at(a, r1, c1), at(a, r2, c2)) - fx_mul(at(a, r1, c2), at(a, r2, c1)))
}

/// The determinant of the upper-left 3×3 block of `a`, saturated.
pub open spec fn det3(a: Seq<i64>) -> i64 {
    saturate(
        fx_mul(at(a, 0, 0), cofactor(a, 0, 0) as int) + fx_mul(at(a, 0, 1), cofactor(a, 0, 1) as int)
            + fx_mul(at(a, 0, 2), cofactor(a, 0, 2) as int),
    )
}

/// Entry (`r`, `c`) of the inverse of the upper-left 3×3 block: the transposed cofactor over
/// the determinant.
pub open spec fn inverse_linear(a: Seq<i64>, r: int, c: int) -> i64 {
    let n = (cofactor(a, c, r) as int) * ONE;
    let d = det3(a) as int;
    saturate(
        if d > 0 {
            trunc_div(n, d)
        } else {
            trunc_div(-n, -d)
        },
    )
}

/// Entry `r` of the translation of the inverse: minus the inverse block applied to the
/// translation column.
pub open spec fn inverse_translation(a: Seq<i64>, r: int) -> i64 {
    saturate(
        -(fx_mul(inverse_linear(a, r, 0) as int, at(a, 0, 3)) + fx_mul(
            inverse_linear(a, r, 1) as int,
            at(a, 1, 3),
        ) + fx_mul(inverse_linear(a, r, 2) as int, at(a, 2, 3))),
    )
}

/// The inverse of `a` read as an affine transform (its bottom row taken as `0 0 0 1`);
/// the identity when its linear part is singular.
#[verifier::opaque]
pub open spec fn affine_inverse(a: Seq<i64>) -> Seq<i64> {
    if det3(a) == 0 {
        identity()
    } else {
        Seq::new(
            16,
            |i: int|
                if i / 4 == 3 {
                    if i % 4 == 3 { ONE } else { 0i64 }
                } else if i % 4 == 3 {
                    inverse_translation(a, i / 4)
                } else {
                    inverse_linear(a, i / 4, i % 4)
                },
        )
    }
}

/// A quaternion whose components lie in the unit range `[-1, 1]`.
pub open spec fn quat_in_unit_range(q: Quat) -> bool {
    -ONE <= q.x <= ONE && -ONE <= q.y <= ONE && -ONE <= q.z <= ONE && -ONE <= q.w <= ONE
}

proof fn lemma_fx_mul_one(x: int)
    ensures
        fx_mul(x, ONE as int) == x,
        fx_mul(x, 0) == 0,
{
    if x >= 0 {
        vstd::arithmetic::div_mod::lemma_div_by_multiple(x, 65536);
    } else {
        vstd::arithmetic::div_mod::lemma_div_by_multiple(-x, 65536);
    }
    assert(x * 0 == 0);
}

/// Multiplying by the identity on the right leaves a matrix unchanged.
pub proof fn lemma_mul_identity(a: Seq<i64>)
    requires
        a.len() == 16,
    ensures
        mat_mul(a, identity()) == a,
{
    let id = identity();
    assert forall|i: int| 0 <= i < 16 implies #[trigger] mat_mul(a, id)[i] == a[i] by {
        let (r, c) = (i / 4, i % 4);
        lemma_fx_mul_one(a[4 * r] as int);
        lemma_fx_mul_one(a[4 * r + 1] as int);
        lemma_fx_mul_one(a[4 * r + 2] as int);
        lemma_fx_mul_one(a[4 * r + 3] as int);
        assert(id[c] == if c == 0 { ONE } else { 0 });
        assert(id[4 + c] == if c == 1 { ONE } else { 0 });
        assert(id[8 + c] == if c == 2 { ONE } else { 0 });
        assert(id[12 + c] == if c == 3 { ONE } else { 0 });
        assert(i == 4 * r + c);
    }
    assert(mat_mul(a, id) =~= a);
}

proof fn lemma_product_fits(a: i64, b: i64)
    ensures
        -0x4000_0000_0000_0000_0000_0000_0000_0000 <= (a as int) * (b as int)
            <= 0x4000_0000_0000_0000_0000_0000_0000_0000,
{
    let (x, y) = (a as int, b as int);
    assert(-0x4000_0000_0000_0000_0000_0000_0000_0000 <= x * y
        <= 0x4000_0000_0000_0000_0000_0000_0000_0000) by (nonlinear_arith)
        requires
            -0x8000_0000_0000_0000 <= x <= 0x7fff_ffff_ffff_ffff,
            -0x8000_0000_0000_0000 <= y <= 0x7fff_ffff_ffff_ffff,
    ;
}

proof fn lemma_unit_square(a: int)
    requires
        -ONE <= a <= ONE,
    ensures
        0 <= a * a <= ONE * ONE,
{
    assert(0 <= a * a <= 65536 * 65536) by (nonlinear_arith)
        requires -65536 <= a <= 65536;
}

proof fn lemma_unit_product(a: int, b: int)
    requires
        -ONE <= a <= ONE,
        -ONE <= b <= ONE,
    ensures
        -ONE * ONE <= a * b <= ONE * ONE,
{
    assert(-65536 * 65536 <= a * b <= 65536 * 65536) by (nonlinear_arith)
        requires -65536 <= a <= 65536, -65536 <= b <= 65536;
}

/// Divides `p` by the positive `d`, rounding toward zero.
fn div_toward_zero(p: i128, d: u128) -> (r: i128)
    requires
        d > 0,
        -0x7fff_ffff_ffff_ffff_ffff_ffff_ffff_ffff <= p,
    ensures
        r == trunc_div(p as int, d as int),
        p >= 0 ==> 0 <= r <= p,
        p < 0 ==> p <= r <= 0,
{
    if p >= 0 {
        ((p as u128) / d) as i128
    } else {
        -((((-p) as u128) / d) as i128)
    }
}

/// The fixed-point product of `a` and `b`, not yet saturated.
fn mul_raw(a: i64, b: i64) -> (r: i128)
    ensures
        r == fx_mul(a as int, b as int),
        -0x4000_0000_0000_0000_0000_0000_0000 <= r <= 0x4000_0000_0000_0000_0000_0000_0000,
{
    proof {
        lemma_product_fits(a, b);
    }
    let p: i128 = (a as i128) * (b as i128);
    let r = div_toward_zero(p, ONE as u128);
    proof {
        let pi = p as int;
        if pi >= 0 {
            assert(pi / 65536 <= 0x4000_0000_0000_0000_0000_0000_0000);
        } else {
            assert((-pi) / 65536 <= 0x4000_0000_0000_0000_0000_0000_0000);
        }
    }
    r
}

fn saturate_exec(x: i128) -> (r: i64)
    ensures
        r == saturate(x as int),
{
    if x < i64::MIN as i128 {
        i64::MIN
    } else if x > i64::MAX as i128 {
        i64::MAX
    } else {
        x as i64
    }
}

fn cofactor_exec(a: &[i64; 16], r: usize, c: usize) -> (x: i64)
    requires
        r < 3,
        c < 3,
    ensures
        x == cofactor(a@, r as int, c as int),
{
    let (r1, r2, c1, c2) = ((r + 1) % 3, (r + 2) % 3, (c + 1) % 3, (c + 2) % 3);
    saturate_exec(mul_raw(a[4 * r1 + c1], a[4 * r2 + c2]) - mul_raw(a[4 * r1 + c2], a[4 * r2 + c1]))
}

fn det3_exec(a: &[i64; 16]) -> (x: i64)
    ensures
        x == det3(a@),
{
    let c0 = cofactor_exec(a, 0, 0);
    let c1 = cofactor_exec(a, 0, 1);
    let c2 = cofactor_exec(a, 0, 2);
    saturate_exec(mul_raw(a[0], c0) + mul_raw(a[1], c1) + mul_raw(a[2], c2))
}

fn inverse_linear_exec(a: &[i64; 16], det: i64, r: usize, c: usize) -> (x: i64)
    requires
        r < 3,
        c < 3,
        det == det3(a@),
        det != 0,
    ensures
        x == inverse_linear(a@, r as int, c as int),
{
    let cof = cofactor_exec(a, c, r);
    let n: i128 = (cof as i128) * (ONE as i128);
    if det > 0 {
        saturate_exec(div_toward_zero(n, det as u128))
    } else {
        saturate_exec(div_toward_zero(-n, (-(det as i128)) as u128))
    }
}

impl Mat4 {
    /// The identity matrix.
    pub fn identity() -> (r: Mat4)
        ensures
            r.m@ == identity(),
    {
        let r = Mat4 {
            m: [ONE, 0, 0, 0, 0, ONE, 0, 0, 0, 0, ONE, 0, 0, 0, 0, ONE],
        };
        assert(r.m@ =~= identity());
        r
    }

    /// The matrix that translates by `t`.
    pub fn translation(t: Vec3) -> (r: Mat4)
        ensures
            r.m@ == translation_matrix(t),
    {
        let r = Mat4 {
            m: [ONE, 0, 0, t.x, 0, ONE, 0, t.y, 0, 0, ONE, t.z, 0, 0, 0, ONE],
        };
        assert(r.m@ =~= translation_matrix(t));
        r
    }

    /// The matrix that scales the axes by `s`.
    pub fn scaling(s: Vec3) -> (r: Mat4)
        ensures
            r.m@ == scaling_matrix(s),
    {
        let r = Mat4 {
            m: [s.x, 0, 0, 0, 0, s.y, 0, 0, 0, 0, s.z, 0, 0, 0, 0, ONE],
        };
        assert(r.m@ =~= scaling_matrix(s));
        r
    }

    /// The rotation by `q` after normalisation (the identity for the zero quaternion).
    pub fn rotation(q: Quat) -> (r: Mat4)
        requires
            quat_in_unit_range(q),
        ensures
            r.m@ == rotation_matrix(q),
    {
        let (x, y, z, w) = (q.x as i128, q.y as i128, q.z as i128, q.w as i128);
        proof {
            lemma_unit_square(q.x as int);
            lemma_unit_square(q.y as int);
            lemma_unit_square(q.z as int);
            lemma_unit_square(q.w as int);
            lemma_unit_product(q.x as int, q.y as int);
            lemma_unit_product(q.x as int, q.z as int);
            lemma_unit_product(q.x as int, q.w as int);
            lemma_unit_product(q.y as int, q.z as int);
            lemma_unit_product(q.y as int, q.w as int);
            lemma_unit_product(q.z as int, q.w as int);
        }
        let n: i128 = w * w + x * x + y * y + z * z;
        if n == 0 {
            let r = Mat4::identity();
            return r;
        }
        let d: u128 = n as u128;
        let t: i128 = 131072;
        let r = Mat4 {
            m: [
                (ONE as i128 - div_toward_zero(t * (y * y + z * z), d)) as i64,
                div_toward_zero(t * (x * y - z * w), d) as i64,
                div_toward_zero(t * (x * z + y * w), d) as i64,
                0,
                div_toward_zero(t * (x * y + z * w), d) as i64,
                (ONE as i128 - div_toward_zero(t * (x * x + z * z), d)) as i64,
                div_toward_zero(t * (y * z - x * w), d) as i64,
                0,
                div_toward_zero(t * (x * z - y * w), d) as i64,
                div_toward_zero(t * (y * z + x * w), d) as i64,
                (ONE as i128 - div_toward_zero(t * (x * x + y * y), d)) as i64,
                0,
                0,
                0,
                0,
                ONE,
            ],
        };
        assert(r.m@ =~= rotation_matrix(q));
        r
    }

    /// The inverse of the matrix read as an affine transform; the identity when its linear
    /// part is singular.
    pub fn affine_inverse(&self) -> (r: Mat4)
        ensures
            r.m@ == affine_inverse(self.m@),
    {
        reveal(affine_inverse);
        let a = &self.m;
        let det = det3_exec(a);
        if det == 0 {
            return Mat4::identity();
        }
        let mut out: [i64; 16] = [0; 16];
        out[15] = ONE;
        let mut i: usize = 0;
        while i < 12
            invariant
                0 <= i <= 12,
                det == det3(a@),
                det != 0,
                out@[15] == ONE,
                forall|j: int| 12 <= j < 15 ==> out@[j] == 0,
                forall|j: int|
                    0 <= j < i ==> out@[j] == affine_inverse(a@)[j],
            decreases 12 - i,
        {
            proof {
                reveal(affine_inverse);
            }
            let r = i / 4;
            let c = i % 4;
            if c == 3 {
                let l0 = inverse_linear_exec(a, det, r, 0);
                let l1 = inverse_linear_exec(a, det, r, 1);
                let l2 = inverse_linear_exec(a, det, r, 2);
                out[i] = saturate_exec(-(mul_raw(l0, a[3]) + mul_raw(l1, a[7]) + mul_raw(l2, a[11])));
            } else {
                out[i] = inverse_linear_exec(a, det, r, c);
            }
            i += 1;
        }
        let r = Mat4 { m: out };
        assert(r.m@ =~= affine_inverse(self.m@));
        r
    }

    /// The product `self * other`; each entry saturates at the bounds of `i64`.
    pub fn mul(&self, other: &Mat4) -> (r: Mat4)
        ensures
            r.m@ == mat_mul(self.m@, other.m@),
    {
        let a = &self.m;
        let b = &other.m;
        let mut out: [i64; 16] = [0; 16];
        let mut i: usize = 0;
        while i < 16
            invariant
                0 <= i <= 16,
                forall|j: int| 0 <= j < i ==> out@[j] == product_entry(a@, b@, j / 4, j % 4),
            decreases 16 - i,
        {
            let r: usize = i / 4;
            let c: usize = i % 4;
            let s: i128 = mul_raw(a[4 * r], b[c]) + mul_raw(a[4 * r + 1], b[4 + c]) + mul_raw(
                a[4 * r + 2],
                b[8 + c],
            ) + mul_raw(a[4 * r + 3], b[12 + c]);
            out[i] = saturate_exec(s);
            i += 1;
        }
        let r = Mat4 { m: out };
        assert(r.m@ =~= mat_mul(self.m@, other.m@));
        r
    }
}

} // verus!
