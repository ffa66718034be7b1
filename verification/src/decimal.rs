//! Adapter for the arbitrary-precision decimal type that carries every
//! quantity's numeric value.
//!
//! A `rust_decimal::Decimal` holds a sign, a 96-bit integer mantissa and a
//! scale in 0..=28; its numeric value is `(-1)^sign * mantissa / 10^scale`.
//! The three uninterpreted projections below name those constituents, and
//! every operation the library needs is a small trusted wrapper whose
//! contract states, over the projections, what the crate's source shows.

use vstd::arithmetic::div_mod::{lemma_div_by_multiple, lemma_div_nonincreasing};
use vstd::math::abs;
use vstd::prelude::*;

use core::cmp::Ordering;

verus! {

#[verifier::external_type_specification]
#[verifier::external_body]
pub struct ExDecimal(rust_decimal::Decimal);

/// The magnitude of the decimal's 96-bit integer mantissa.
pub uninterp spec fn dec_mantissa(d: rust_decimal::Decimal) -> nat;

/// The decimal's scale: the number of fractional digits, in 0..=28.
pub uninterp spec fn dec_scale(d: rust_decimal::Decimal) -> nat;

/// The decimal's sign flag.  A zero mantissa with the flag set is a
/// negative zero, which the crate prints as `-0`.
pub uninterp spec fn dec_negative(d: rust_decimal::Decimal) -> bool;

/// 10^n.
pub open spec fn pow10(n: nat) -> int
    decreases n,
{
    if n == 0 {
        1
    } else {
        10 * pow10((n - 1) as nat)
    }
}

/// One more than the largest mantissa a decimal can carry: 2^96.
pub open spec fn dec_mantissa_limit() -> int {
    79228162514264337593543950336
}

/// The mantissa, scale and sign of a decimal, gathered as one ghost value.
pub ghost struct DecView {
    pub m: nat,
    pub s: nat,
    pub neg: bool,
}

impl DecView {
    /// Every decimal the crate can construct satisfies this.
    pub open spec fn valid(self) -> bool {
        self.m < dec_mantissa_limit() && self.s <= 28
    }

    /// The value scaled by 10^28, so that every representable value is an
    /// integer: `units = (-1)^neg * m * 10^(28 - s)`.
    pub open spec fn units(self) -> int {
        (if self.neg {
            -1
        } else {
            1
        }) * self.m * pow10((28 - self.s) as nat)
    }

    /// The value truncated toward zero to an integer.
    pub open spec fn trunc(self) -> int {
        (if self.neg {
            -1
        } else {
            1
        }) * (self.m / pow10(self.s) as nat)
    }
}

pub open spec fn dview(d: rust_decimal::Decimal) -> DecView {
    DecView { m: dec_mantissa(d), s: dec_scale(d), neg: dec_negative(d) }
}

pub open spec fn dec_units(d: rust_decimal::Decimal) -> int {
    dview(d).units()
}

pub open spec fn dec_valid(d: rust_decimal::Decimal) -> bool {
    dview(d).valid()
}

/// The canonical representation of a value given in units: trailing zeros
/// stripped from the mantissa, and zero always positive with scale 0.
pub open spec fn strip_zeros(m: nat, s: nat) -> (nat, nat)
    decreases s,
{
    if s == 0 || m % 10 != 0 {
        (m, s)
    } else {
        strip_zeros(m / 10, (s - 1) as nat)
    }
}

pub open spec fn canon_of_units(u: int) -> DecView {
    if u == 0 {
        DecView { m: 0, s: 0, neg: false }
    } else {
        let (m, s) = strip_zeros(abs(u) as nat, 28);
        DecView { m, s, neg: u < 0 }
    }
}

/// What addition returns when the exact sum is representable: the operands
/// are brought to the larger scale and the mantissas added; a zero operand
/// leaves the other operand untouched.
pub open spec fn spec_add(a: DecView, b: DecView) -> DecView {
    if a.m == 0 {
        b
    } else if b.m == 0 {
        a
    } else {
        let s = if a.s >= b.s {
            a.s
        } else {
            b.s
        };
        let u = a.units() + b.units();
        DecView {
            m: (abs(u) as nat) / (pow10((28 - s) as nat) as nat),
            s,
            neg: if u == 0 {
                a.neg
            } else {
                u < 0
            },
        }
    }
}

/// What subtraction returns when the exact difference is representable.
pub open spec fn spec_sub(a: DecView, b: DecView) -> DecView {
    if a.m == 0 {
        if b.m == 0 {
            b
        } else {
            DecView { m: b.m, s: b.s, neg: !b.neg }
        }
    } else if b.m == 0 {
        a
    } else {
        let s = if a.s >= b.s {
            a.s
        } else {
            b.s
        };
        let u = a.units() - b.units();
        DecView {
            m: (abs(u) as nat) / (pow10((28 - s) as nat) as nat),
            s,
            neg: if u == 0 {
                a.neg
            } else {
                u < 0
            },
        }
    }
}

/// The exact sum or difference stays under 96 bits at the common scale.
pub open spec fn sum_fits(a: DecView, b: DecView, u: int) -> bool {
    let s = if a.s >= b.s {
        a.s
    } else {
        b.s
    };
    abs(u) < dec_mantissa_limit() * pow10((28 - s) as nat)
}

/// What multiplication returns when mantissas and scales combine without
/// reduction: mantissas multiply, scales add, signs combine.
pub open spec fn spec_mul(a: DecView, b: DecView) -> DecView {
    if a.m == 0 || b.m == 0 {
        DecView { m: 0, s: 0, neg: false }
    } else {
        DecView { m: a.m * b.m, s: a.s + b.s, neg: a.neg != b.neg }
    }
}

/// Rounding half away from zero to `dp` fractional digits, on a value whose
/// scale exceeds `dp`.  A nonzero value that rounds to zero comes out as a
/// positive zero; a zero value keeps its sign flag.
pub open spec fn spec_round_away(v: DecView, dp: nat) -> DecView {
    let k = (v.s - dp) as nat;
    let m2 = ((v.m + 5 * pow10((k - 1) as nat)) as int / pow10(k)) as nat;
    DecView {
        m: m2,
        s: dp,
        neg: if v.m != 0 && m2 == 0 {
            false
        } else {
            v.neg
        },
    }
}

pub open spec fn spec_digit_char(d: nat) -> char {
    if d == 0 {
        '0'
    } else if d == 1 {
        '1'
    } else if d == 2 {
        '2'
    } else if d == 3 {
        '3'
    } else if d == 4 {
        '4'
    } else if d == 5 {
        '5'
    } else if d == 6 {
        '6'
    } else if d == 7 {
        '7'
    } else if d == 8 {
        '8'
    } else {
        '9'
    }
}

/// The decimal digits of `m`, most significant first.
pub open spec fn spec_digits(m: nat) -> Seq<char>
    decreases m,
{
    if m < 10 {
        seq![spec_digit_char(m)]
    } else {
        spec_digits(m / 10).push(spec_digit_char(m % 10))
    }
}

/// How the decimal crate prints a value: the mantissa's digits with a point
/// inserted `s` places from the right, zero-padded on the left as needed,
/// and a leading minus when the sign flag is set (also on negative zero).
pub open spec fn spec_dec_str(v: DecView) -> Seq<char> {
    let digs = if v.m == 0 {
        Seq::<char>::empty()
    } else {
        spec_digits(v.m)
    };
    let padded = if digs.len() >= v.s {
        digs
    } else {
        Seq::new((v.s - digs.len()) as nat, |i: int| '0') + digs
    };
    let body = if v.s == 0 {
        if padded.len() == 0 {
            seq!['0']
        } else {
            padded
        }
    } else {
        let whole = padded.take(padded.len() - v.s);
        let frac = padded.skip(padded.len() - v.s);
        (if whole.len() == 0 {
            seq!['0']
        } else {
            whole
        }) + seq!['.'] + frac
    };
    if v.neg {
        seq!['-'] + body
    } else {
        body
    }
}

/// Relies on `Decimal::clone`, which copies the value bit for bit.
pub assume_specification[ <rust_decimal::Decimal as Clone>::clone ](
    d: &rust_decimal::Decimal,
) -> (r: rust_decimal::Decimal)
    ensures
        r == *d,
;

/// Relies on `Decimal::from_i128_with_scale`: builds the decimal with the
/// given mantissa magnitude, sign of `num`, and scale.  It panics outside
/// the stated ranges, which the precondition rules out.
#[verifier::external_body]
pub(crate) fn dec_new(num: i128, scale: u32) -> (r: rust_decimal::Decimal)
    requires
        scale <= 28,
        -dec_mantissa_limit() < num < dec_mantissa_limit(),
    ensures
        dec_mantissa(r) == abs(num as int),
        dec_scale(r) == scale as nat,
        dec_negative(r) == (num < 0),
        dview(r).valid(),
{
    rust_decimal::Decimal::from_i128_with_scale(num, scale)
}

/// Relies on `Decimal::neg`, which only toggles the sign flag.
#[verifier::external_body]
pub(crate) fn dec_neg(d: rust_decimal::Decimal) -> (r: rust_decimal::Decimal)
    ensures
        dec_mantissa(r) == dec_mantissa(d),
        dec_scale(r) == dec_scale(d),
        dec_negative(r) == !dec_negative(d),
{
    -d
}

/// Relies on `Decimal::cmp`, which rescales to a common scale and compares
/// the exact numeric values; it never fails.
#[verifier::external_body]
pub(crate) fn dec_cmp(a: rust_decimal::Decimal, b: rust_decimal::Decimal) -> (r: Ordering)
    requires
        dec_valid(a),
        dec_valid(b),
    ensures
        (r == Ordering::Less <==> dec_units(a) < dec_units(b)),
        (r == Ordering::Equal <==> dec_units(a) == dec_units(b)),
        (r == Ordering::Greater <==> dec_units(a) > dec_units(b)),
{
    a.cmp(&b)
}

/// Relies on `Decimal::eq`, which compares exact numeric values.
#[verifier::external_body]
pub(crate) fn dec_eq(a: rust_decimal::Decimal, b: rust_decimal::Decimal) -> (r: bool)
    requires
        dec_valid(a),
        dec_valid(b),
    ensures
        r <==> dec_units(a) == dec_units(b),
{
    a == b
}

/// Relies on `Decimal::add`: operands are brought to the larger scale and
/// the mantissas combined exactly; the precondition keeps the exact sum
/// under 96 bits at that scale, where the source shows no rounding and no
/// overflow panic.  The sign flag of an exact cancellation is left open:
/// the different internal paths resolve a zero's sign differently.
#[verifier::external_body]
pub(crate) fn dec_add(a: rust_decimal::Decimal, b: rust_decimal::Decimal) -> (r:
    rust_decimal::Decimal)
    requires
        dec_valid(a),
        dec_valid(b),
        sum_fits(dview(a), dview(b), dec_units(a) + dec_units(b)),
    ensures
        dview(r).m == spec_add(dview(a), dview(b)).m,
        dview(r).s == spec_add(dview(a), dview(b)).s,
        dec_mantissa(a) == 0 || dec_mantissa(b) == 0 || dview(r).m != 0 ==> dview(r).neg
            == spec_add(dview(a), dview(b)).neg,
        dview(r).valid(),
{
    a + b
}

/// Relies on `Decimal::sub`; the same shape as addition, with the same
/// open sign flag on exact cancellation.
#[verifier::external_body]
pub(crate) fn dec_sub(a: rust_decimal::Decimal, b: rust_decimal::Decimal) -> (r:
    rust_decimal::Decimal)
    requires
        dec_valid(a),
        dec_valid(b),
        sum_fits(dview(a), dview(b), dec_units(a) - dec_units(b)),
    ensures
        dview(r).m == spec_sub(dview(a), dview(b)).m,
        dview(r).s == spec_sub(dview(a), dview(b)).s,
        dec_mantissa(a) == 0 || dec_mantissa(b) == 0 || dview(r).m != 0 ==> dview(r).neg
            == spec_sub(dview(a), dview(b)).neg,
        dview(r).valid(),
{
    a - b
}

/// Relies on `Decimal::mul`: mantissas multiply and scales add; the
/// precondition keeps the product under 96 bits and the scale sum within
/// range, where the source shows the product is taken verbatim.
#[verifier::external_body]
pub(crate) fn dec_mul(a: rust_decimal::Decimal, b: rust_decimal::Decimal) -> (r:
    rust_decimal::Decimal)
    requires
        dec_valid(a),
        dec_valid(b),
        dec_scale(a) + dec_scale(b) <= 28,
        dec_mantissa(a) * dec_mantissa(b) < dec_mantissa_limit(),
    ensures
        dview(r) == spec_mul(dview(a), dview(b)),
        dview(r).valid(),
{
    a * b
}

/// Relies on `Decimal::div`, long division that stops exactly when the
/// remainder vanishes.  Division by zero and quotient overflow panic; the
/// preconditions rule both out by keeping the quotient's magnitude within
/// the representable range.  Whenever the exact quotient is representable
/// at some scale up to 28 the result is that quotient, and the result is
/// always a valid decimal.
#[verifier::external_body]
pub(crate) fn dec_div(a: rust_decimal::Decimal, b: rust_decimal::Decimal) -> (r:
    rust_decimal::Decimal)
    requires
        dec_valid(a),
        dec_valid(b),
        dec_mantissa(b) != 0,
        abs(dec_units(a)) <= (dec_mantissa_limit() - 1) * abs(dec_units(b)),
    ensures
        dview(r).valid(),
        (dec_units(a) * pow10(28)) % dec_units(b) == 0 && canon_of_units(
            dec_units(a) * pow10(28) / dec_units(b),
        ).valid() ==> dec_units(r) == dec_units(a) * pow10(28) / dec_units(b),
{
    a / b
}

/// Relies on `Decimal::normalize`: strips trailing zeros from the mantissa
/// and turns negative zero into zero, leaving the numeric value unchanged.
#[verifier::external_body]
pub(crate) fn dec_normalize(d: rust_decimal::Decimal) -> (r: rust_decimal::Decimal)
    requires
        dec_valid(d),
    ensures
        dview(r) == canon_of_units(dec_units(d)),
        dview(r).valid(),
{
    d.normalize()
}

/// Relies on `Decimal::round_dp_with_strategy` with the midpoint-away-from-
/// zero strategy: a value with more than `dp` fractional digits is rounded
/// half away from zero to scale `dp`, keeping its sign flag; otherwise it is
/// returned unchanged.
#[verifier::external_body]
pub(crate) fn dec_round_dp_away(d: rust_decimal::Decimal, dp: u32) -> (r: rust_decimal::Decimal)
    requires
        dec_valid(d),
    ensures
        dec_scale(d) <= dp as nat ==> dview(r) == dview(d),
        dec_scale(d) > dp as nat ==> dview(r) == spec_round_away(dview(d), dp as nat),
        dview(r).valid(),
{
    d.round_dp_with_strategy(dp, rust_decimal::RoundingStrategy::MidpointAwayFromZero)
}

/// Relies on the decimal's `Display`: the mantissa's digits with the point
/// inserted `scale` places from the right, and a minus for the sign flag.
#[verifier::external_body]
pub(crate) fn dec_to_string(d: rust_decimal::Decimal) -> (r: String)
    requires
        dec_valid(d),
    ensures
        r@ == spec_dec_str(dview(d)),
{
    format!("{}", d)
}

/// Relies on `Decimal::to_i64`: the value truncated toward zero, if that
/// fits in an `i64`.
#[verifier::external_body]
pub(crate) fn dec_to_i64(d: rust_decimal::Decimal) -> (r: Option<i64>)
    requires
        dec_valid(d),
    ensures
        r == if i64::MIN <= dview(d).trunc() <= i64::MAX {
            Some(dview(d).trunc() as i64)
        } else {
            None::<i64>
        },
{
    rust_decimal::prelude::ToPrimitive::to_i64(&d)
}

/// Relies on `Decimal::to_u64`: refused whenever the sign flag is set (also
/// on negative zero), else the value truncated toward zero if it fits.
#[verifier::external_body]
pub(crate) fn dec_to_u64(d: rust_decimal::Decimal) -> (r: Option<u64>)
    requires
        dec_valid(d),
    ensures
        r == if dec_negative(d) {
            None::<u64>
        } else if dview(d).trunc() <= u64::MAX {
            Some(dview(d).trunc() as u64)
        } else {
            None::<u64>
        },
{
    rust_decimal::prelude::ToPrimitive::to_u64(&d)
}

/// Relies on `Decimal::to_i128`, which always succeeds: the 96-bit
/// truncation fits in 128 bits.
#[verifier::external_body]
pub(crate) fn dec_to_i128(d: rust_decimal::Decimal) -> (r: Option<i128>)
    requires
        dec_valid(d),
    ensures
        r == Some(dview(d).trunc() as i128),
{
    rust_decimal::prelude::ToPrimitive::to_i128(&d)
}

/// Relies on `Decimal::to_u128`: refused whenever the sign flag is set,
/// else the truncation, which always fits.
#[verifier::external_body]
pub(crate) fn dec_to_u128(d: rust_decimal::Decimal) -> (r: Option<u128>)
    requires
        dec_valid(d),
    ensures
        r == if dec_negative(d) {
            None::<u128>
        } else {
            Some(dview(d).trunc() as u128)
        },
{
    rust_decimal::prelude::ToPrimitive::to_u128(&d)
}


pub proof fn lemma_pow10_pos(n: nat)
    ensures
        pow10(n) >= 1,
    decreases n,
{
    if n > 0 {
        lemma_pow10_pos((n - 1) as nat);
    }
}

pub proof fn lemma_pow10_adds(a: nat, b: nat)
    ensures
        pow10(a + b) == pow10(a) * pow10(b),
    decreases a,
{
    if a == 0 {
    } else {
        lemma_pow10_adds((a - 1) as nat, b);
        assert((a + b - 1) as nat == (a - 1) as nat + b);
        assert(10 * (pow10((a - 1) as nat) * pow10(b)) == (10 * pow10((a - 1) as nat)) * pow10(
            b,
        )) by (nonlinear_arith);
    }
}

/// The units of a value are a multiple of the grid of any coarser scale.
proof fn lemma_units_aligned(v: DecView, s: nat)
    requires
        v.s <= s <= 28,
    ensures
        v.units() == ((if v.neg {
            -1int
        } else {
            1int
        }) * v.m * pow10((s - v.s) as nat)) * pow10((28 - s) as nat),
{
    let sg: int = if v.neg {
        -1
    } else {
        1
    };
    lemma_pow10_adds((s - v.s) as nat, (28 - s) as nat);
    assert((28 - v.s) as nat == (s - v.s) as nat + (28 - s) as nat);
    assert(sg * v.m * (pow10((s - v.s) as nat) * pow10((28 - s) as nat)) == (sg * v.m * pow10((s
        - v.s) as nat)) * pow10((28 - s) as nat)) by (nonlinear_arith);
}

/// A signed multiple of the grid divides back to its own magnitude.
proof fn lemma_grid_multiple(w: int, p: int)
    requires
        p >= 1,
    ensures
        abs(w * p) == abs(w) * p,
        (abs(w * p) as nat) / (p as nat) == abs(w),
        w * p < 0 <==> w < 0,
        w * p == 0 <==> w == 0,
{
    assert(abs(w * p) == abs(w) * p) by (nonlinear_arith)
        requires
            p >= 1,
    ;
    assert((w * p < 0 <==> w < 0) && (w * p == 0 <==> w == 0)) by (nonlinear_arith)
        requires
            p >= 1,
    ;
    lemma_div_by_multiple(abs(w) as int, p);
}

/// Addition on representations agrees with addition on units.
pub proof fn lemma_spec_add_units(a: DecView, b: DecView)
    requires
        a.s <= 28,
        b.s <= 28,
    ensures
        spec_add(a, b).units() == a.units() + b.units(),
{
    if a.m == 0 {
        assert(a.units() == 0) by (nonlinear_arith)
            requires
                a.m == 0,
        ;
    } else if b.m == 0 {
        assert(b.units() == 0) by (nonlinear_arith)
            requires
                b.m == 0,
        ;
    } else {
        let s = if a.s >= b.s {
            a.s
        } else {
            b.s
        };
        let p = pow10((28 - s) as nat);
        lemma_pow10_pos((28 - s) as nat);
        let ma = (if a.neg {
            -1int
        } else {
            1int
        }) * a.m * pow10((s - a.s) as nat);
        let mb = (if b.neg {
            -1int
        } else {
            1int
        }) * b.m * pow10((s - b.s) as nat);
        lemma_units_aligned(a, s);
        lemma_units_aligned(b, s);
        let u = a.units() + b.units();
        assert(u == (ma + mb) * p) by (nonlinear_arith)
            requires
                a.units() == ma * p && b.units() == mb * p && u == a.units() + b.units(),
        ;
        lemma_grid_multiple(ma + mb, p);
        let r = spec_add(a, b);
        assert(r.m == abs(ma + mb));
        assert(r.units() == (if r.neg {
            -1int
        } else {
            1int
        }) * (abs(ma + mb) as int) * p);
        assert((if u < 0 {
            -1int
        } else {
            1int
        }) * (abs(ma + mb) as int) * p == (ma + mb) * p) by (nonlinear_arith)
            requires
                abs(ma + mb) == if ma + mb < 0 {
                    -(ma + mb)
                } else {
                    ma + mb
                } && (u < 0 <==> ma + mb < 0),
        ;
        if u == 0 {
            assert(ma + mb == 0);
        }
    }
}

/// Subtraction on representations agrees with subtraction on units.
pub proof fn lemma_spec_sub_units(a: DecView, b: DecView)
    requires
        a.s <= 28,
        b.s <= 28,
    ensures
        spec_sub(a, b).units() == a.units() - b.units(),
{
    if b.m == 0 {
        assert(b.units() == 0) by (nonlinear_arith)
            requires
                b.m == 0,
        ;
    } else if a.m == 0 {
        assert(a.units() == 0) by (nonlinear_arith)
            requires
                a.m == 0,
        ;
        let r = spec_sub(a, b);
        assert(r.units() == -b.units()) by (nonlinear_arith)
            requires
                r.m == b.m && r.s == b.s && r.neg == !b.neg,
        ;
    } else {
        let s = if a.s >= b.s {
            a.s
        } else {
            b.s
        };
        let p = pow10((28 - s) as nat);
        lemma_pow10_pos((28 - s) as nat);
        let ma = (if a.neg {
            -1int
        } else {
            1int
        }) * a.m * pow10((s - a.s) as nat);
        let mb = (if b.neg {
            -1int
        } else {
            1int
        }) * b.m * pow10((s - b.s) as nat);
        lemma_units_aligned(a, s);
        lemma_units_aligned(b, s);
        let u = a.units() - b.units();
        assert(u == (ma - mb) * p) by (nonlinear_arith)
            requires
                a.units() == ma * p && b.units() == mb * p && u == a.units() - b.units(),
        ;
        lemma_grid_multiple(ma - mb, p);
        let r = spec_sub(a, b);
        assert(r.m == abs(ma - mb));
        assert((if u < 0 {
            -1int
        } else {
            1int
        }) * (abs(ma - mb) as int) * p == (ma - mb) * p) by (nonlinear_arith)
            requires
                abs(ma - mb) == if ma - mb < 0 {
                    -(ma - mb)
                } else {
                    ma - mb
                } && (u < 0 <==> ma - mb < 0),
        ;
        if u == 0 {
            assert(ma - mb == 0);
        }
    }
}


/// The truncation of a valid decimal stays within the mantissa bound.
pub proof fn lemma_trunc_bound(v: DecView)
    requires
        v.valid(),
    ensures
        0 <= (v.m / pow10(v.s) as nat) <= v.m,
        -dec_mantissa_limit() < v.trunc() < dec_mantissa_limit(),
        !v.neg ==> v.trunc() == v.m / pow10(v.s) as nat,
        v.neg ==> v.trunc() == -((v.m / pow10(v.s) as nat) as int),
{
    lemma_pow10_pos(v.s);
    lemma_div_nonincreasing(v.m as int, pow10(v.s));
    let q = v.m / pow10(v.s) as nat;
    assert((1int) * q == q) by (nonlinear_arith);
    assert((-1int) * (q as int) == -(q as int)) by (nonlinear_arith);
}


/// Stripping zeros never grows the mantissa or the scale.
proof fn lemma_strip_zeros_le(m: nat, s: nat)
    ensures
        strip_zeros(m, s).0 <= m,
        strip_zeros(m, s).1 <= s,
    decreases s,
{
    if !(s == 0 || m % 10 != 0) {
        lemma_strip_zeros_le(m / 10, (s - 1) as nat)
    }
}

/// Stripping starts by removing any whole power of ten carried in the
/// mantissa.
proof fn lemma_strip_zeros_through(m: nat, s: nat, k: nat)
    ensures
        strip_zeros((m * pow10(k)) as nat, s + k) == strip_zeros(m, s),
    decreases k,
{
    if k > 0 {
        lemma_pow10_pos((k - 1) as nat);
        let w = (m * pow10((k - 1) as nat)) as nat;
        assert(m * pow10(k) == w * 10) by (nonlinear_arith)
            requires
                pow10(k) == 10 * pow10((k - 1) as nat) && w == m * pow10((k - 1) as nat),
        ;
        assert((w * 10) % 10 == 0 && (w * 10) / 10 == w) by (nonlinear_arith);
        lemma_strip_zeros_through(m, s, (k - 1) as nat);
    } else {
        assert(m * pow10(0) == m) by (nonlinear_arith)
            requires
                pow10(0) == 1,
        ;
    }
}

/// The canonical form of any representable value is itself representable.
pub proof fn lemma_canon_of_valid(v: DecView)
    requires
        v.valid(),
    ensures
        canon_of_units(v.units()).valid(),
{
    let u = v.units();
    if u != 0 {
        lemma_pow10_pos((28 - v.s) as nat);
        assert(abs(u) == v.m * pow10((28 - v.s) as nat)) by (nonlinear_arith)
            requires
                u == (if v.neg { -1int } else { 1int }) * v.m * pow10((28 - v.s) as nat)
                    && pow10((28 - v.s) as nat) >= 1,
        ;
        lemma_strip_zeros_through(v.m, v.s, (28 - v.s) as nat);
        assert(strip_zeros(abs(u) as nat, 28) == strip_zeros(v.m, v.s));
        lemma_strip_zeros_le(v.m, v.s);
    }
}

} // verus!
