use vstd::prelude::*;
use crate::ast::{Decimal, LengthUnit};

verus! {

pub open spec fn pow10(n: nat) -> nat
    decreases n,
{
    if n == 0 { 1 } else { 10 * pow10((n - 1) as nat) }
}

/// The numerator of a decimal's value: `mantissa`, times `10^-scale` when
/// the scale is negative.
pub open spec fn dec_num(d: Decimal) -> nat {
    if d.scale < 0 { (d.mantissa as nat) * pow10((-d.scale) as nat) } else { d.mantissa as nat }
}

/// The denominator of a decimal's value: `10^scale` (1 when the scale is
/// negative).
pub open spec fn dec_den(d: Decimal) -> nat {
    if d.scale < 0 { 1 } else { pow10(d.scale as nat) }
}

/// A length unit's size in millimetres, as a fraction `(numerator,
/// denominator)`: 1, 10, 1000 and 25.4.
pub open spec fn mm_per_unit(u: LengthUnit) -> (nat, nat) {
    match u {
        LengthUnit::Mm => (1, 1),
        LengthUnit::Cm => (10, 1),
        LengthUnit::M => (1000, 1),
        LengthUnit::In => (254, 10),
    }
}

/// `r` stands for `v` times the size of unit `u` in millimetres.
pub open spec fn scaled_to_mm(v: Decimal, u: LengthUnit, r: Decimal) -> bool {
    dec_num(r) * dec_den(v) * mm_per_unit(u).1 == dec_num(v) * mm_per_unit(u).0 * dec_den(r)
}

proof fn lemma_pow10_positive(n: nat)
    ensures
        pow10(n) >= 1,
    decreases n,
{
    if n > 0 {
        lemma_pow10_positive((n - 1) as nat);
    }
}

/// Converts a length literal to millimetres exactly: `None` only where
/// the result does not fit a decimal of this size.
pub fn length_to_mm(v: Decimal, u: LengthUnit) -> (r: Option<Decimal>)
    ensures
        match r {
            Some(d) => scaled_to_mm(v, u, d),
            None => v.mantissa * mm_per_unit(u).0 > u64::MAX || (u == LengthUnit::In && v.scale
                == i32::MAX),
        },
{
    match u {
        LengthUnit::Mm => {
            proof {
                let (n, d) = (dec_num(v), dec_den(v));
                assert(n * d * 1 == n * 1 * d) by (nonlinear_arith);
            }
            Some(v)
        },
        LengthUnit::Cm => {
            if v.mantissa <= u64::MAX / 10 {
                let r = Decimal { mantissa: v.mantissa * 10, scale: v.scale };
                proof {
                    let p = if v.scale < 0 { pow10((-v.scale) as nat) } else { 1 };
                    let d = dec_den(v);
                    assert(dec_num(r) == v.mantissa * 10 * p);
                    assert(dec_num(v) == v.mantissa * p);
                    assert(v.mantissa * 10 * p * d * 1 == v.mantissa * p * 10 * d) by (nonlinear_arith);
                }
                Some(r)
            } else {
                None
            }
        },
        LengthUnit::M => {
            if v.mantissa <= u64::MAX / 1000 {
                let r = Decimal { mantissa: v.mantissa * 1000, scale: v.scale };
                proof {
                    let p = if v.scale < 0 { pow10((-v.scale) as nat) } else { 1 };
                    let d = dec_den(v);
                    assert(dec_num(r) == v.mantissa * 1000 * p);
                    assert(dec_num(v) == v.mantissa * p);
                    assert(v.mantissa * 1000 * p * d * 1 == v.mantissa * p * 1000 * d) by (nonlinear_arith);
                }
                Some(r)
            } else {
                None
            }
        },
        LengthUnit::In => {
            if v.mantissa <= u64::MAX / 254 && v.scale < i32::MAX {
                let r = Decimal { mantissa: v.mantissa * 254, scale: v.scale + 1 };
                proof {
                    let m = v.mantissa as nat;
                    if v.scale >= 0 {
                        let q = pow10(v.scale as nat);
                        assert(pow10(r.scale as nat) == 10 * q);
                        assert(m * 254 * q * 10 == m * 254 * (10 * q)) by (nonlinear_arith);
                    } else {
                        let n = (-v.scale) as nat;
                        if r.scale < 0 {
                            let q = pow10((n - 1) as nat);
                            assert(pow10(n) == 10 * q);
                            assert(m * 254 * q * 1 * 10 == m * (10 * q) * 254 * 1) by (nonlinear_arith);
                        } else {
                            assert(n == 1);
                            assert(pow10(1) == 10 * pow10(0));
                            assert(m * 254 * 1 * 10 == m * 10 * 254 * 1) by (nonlinear_arith);
                        }
                    }
                }
                Some(r)
            } else {
                None
            }
        },
    }
}

/// Unit conversion of lengths: for every literal `v u` whose result fits,
/// the value in millimetres is `v` times 1, 10, 1000 or 25.4 for `mm`,
/// `cm`, `m` and `in`, compared as fractions `dec_num / dec_den`.
pub proof fn lemma_length_factor(v: Decimal, u: LengthUnit, r: Decimal)
    requires
        scaled_to_mm(v, u, r),
    ensures
        u == LengthUnit::Mm ==> dec_num(r) * dec_den(v) == dec_num(v) * dec_den(r),
        u == LengthUnit::Cm ==> dec_num(r) * dec_den(v) == 10 * dec_num(v) * dec_den(r),
        u == LengthUnit::M ==> dec_num(r) * dec_den(v) == 1000 * dec_num(v) * dec_den(r),
        u == LengthUnit::In ==> 10 * dec_num(r) * dec_den(v) == 254 * dec_num(v) * dec_den(r),
{
    let (a, b, c, d) = (dec_num(r), dec_den(v), dec_num(v), dec_den(r));
    assert(a * b * 1 == a * b) by (nonlinear_arith);
    assert(c * 1 * d == c * d) by (nonlinear_arith);
    assert(c * 10 * d == 10 * c * d) by (nonlinear_arith);
    assert(c * 1000 * d == 1000 * c * d) by (nonlinear_arith);
    assert(a * b * 10 == 10 * a * b) by (nonlinear_arith);
    assert(c * 254 * d == 254 * c * d) by (nonlinear_arith);
}

} // verus!
