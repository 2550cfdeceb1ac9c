use vstd::prelude::*;

verus! {

/// Raw value of `1.0` in the library's fixed-point scalar: values carry 16 fractional bits.
pub const ONE: i64 = 65536;

/// Division of `a` by a positive `d`, rounded toward zero.
pub open spec fn trunc_div(a: int, d: int) -> int {
    if a >= 0 {
        a / d
    } else {
        -((-a) / d)
    }
}

/// Linear interpolation from `a` to `b` at the fraction `num / den` of the way, rounded toward `a`.
pub open spec fn lerp(a: int, b: int, num: int, den: int) -> int {
    a + trunc_div((b - a) * num, den)
}

/// Interpolation at the fraction `0` gives the start and at the fraction `1` gives the end.
pub proof fn lemma_lerp_ends(a: int, b: int, den: int)
    requires
        den > 0,
    ensures
        lerp(a, b, 0, den) == a,
        lerp(a, b, den, den) == b,
{
    let d = b - a;
    if d >= 0 {
        vstd::arithmetic::div_mod::lemma_div_by_multiple(d, den);
    } else {
        vstd::arithmetic::div_mod::lemma_div_by_multiple(-d, den);
        assert((-d) * den == -(d * den)) by (nonlinear_arith);
    }
    assert(d * 0 == 0);
}

proof fn lemma_scaled_le(m: int, num: int, den: int)
    requires
        m >= 0,
        0 <= num <= den,
        den > 0,
    ensures
        0 <= (m * num) / den <= m,
{
    assert(m * num <= m * den) by (nonlinear_arith)
        requires m >= 0, num <= den;
    assert(0 <= m * num) by (nonlinear_arith)
        requires m >= 0, num >= 0;
    vstd::arithmetic::div_mod::lemma_div_is_ordered(m * num, m * den, den);
    assert(m * den == den * m) by (nonlinear_arith);
    vstd::arithmetic::div_mod::lemma_div_multiples_vanish(m, den);
    vstd::arithmetic::div_mod::lemma_div_pos_is_pos(m * num, den);
}

/// Interpolates between two raw fixed-point values; the result lies between them.
pub fn lerp_raw(a: i64, b: i64, num: u64, den: u64) -> (r: i64)
    requires
        den > 0,
        num <= den,
    ensures
        r == lerp(a as int, b as int, num as int, den as int),
        a <= b ==> a <= r <= b,
        b < a ==> b <= r <= a,
{
    let diff: i128 = b as i128 - a as i128;
    if diff >= 0 {
        let mag: u128 = diff as u128;
        proof {
            lemma_scaled_le(mag as int, num as int, den as int);
            assert(mag * num <= mag * den) by (nonlinear_arith)
                requires mag >= 0, num <= den;
            assert(mag * den <= u128::MAX) by (nonlinear_arith)
                requires mag < 0x1_0000_0000_0000_0000, den < 0x1_0000_0000_0000_0000;
        }
        let m: u128 = mag * (num as u128) / (den as u128);
        (a as i128 + m as i128) as i64
    } else {
        let mag: u128 = (-diff) as u128;
        proof {
            lemma_scaled_le(mag as int, num as int, den as int);
            assert(mag * num <= mag * den) by (nonlinear_arith)
                requires mag >= 0, num <= den;
            assert(mag * den <= u128::MAX) by (nonlinear_arith)
                requires mag < 0x1_0000_0000_0000_0000, den < 0x1_0000_0000_0000_0000;
        }
        let m: u128 = mag * (num as u128) / (den as u128);
        proof {
            assert((b - a) * num == -(mag * num)) by (nonlinear_arith)
                requires mag == -(b - a);
        }
        (a as i128 - m as i128) as i64
    }
}

} // verus!
