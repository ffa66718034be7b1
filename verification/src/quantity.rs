use vstd::math::abs;
use vstd::prelude::*;

use core::cmp::Ordering;

use crate::decimal::{
    canon_of_units, dec_add, dec_cmp, dec_div, dec_eq, dec_mantissa, dec_mantissa_limit, dec_mul,
    dec_neg, dec_new, dec_normalize, dec_round_dp_away, dec_scale, dec_sub, dec_to_i128,
    dec_to_i64, dec_to_string, dec_to_u128, dec_to_u64, dec_units, dec_valid, dview,
    lemma_canon_of_valid, lemma_pow10_adds, lemma_pow10_pos, pow10, spec_add, spec_dec_str,
    spec_mul, spec_round_away, spec_sub, sum_fits, DecView,
};
use crate::format::Format;
use crate::scale::Scale;
use crate::utils::{scale_format_to_string, spec_suffix};

verus! {

/// A parsed quantity: a decimal value together with the scale tier and the
/// suffix format under which it was written.  It stands for the number
/// `value * base(format)^exponent(scale)`.
#[derive(Debug, Clone, Copy)]
pub struct ParsedQuantity {
    /// The actual value of the quantity.
    pub value: rust_decimal::Decimal,
    /// Scale used to indicate the base-10 exponent of the value.
    pub scale: Scale,
    /// Used to indicate the format of the suffix used.
    pub format: Format,
}

/// The ghost view of a quantity: the decimal's constituents plus the tags.
pub ghost struct QView {
    pub v: DecView,
    pub scale: Scale,
    pub format: Format,
}

/// The multiplier applied to a value when it moves `k` scale tiers toward a
/// smaller scale: exactly `base^k`, with base 1024 under binary-SI and 1000
/// under decimal-SI.
pub open spec fn spec_scale_factor(format: Format, k: nat) -> int {
    match format {
        Format::BinarySI => (
            if k == 0 { 1int }
            else if k == 1 { 1024 }
            else if k == 2 { 1048576 }
            else if k == 3 { 1073741824 }
            else if k == 4 { 1099511627776 }
            else if k == 5 { 1125899906842624 }
            else if k == 6 { 1152921504606846976 }
            else { 1180591620717411303424 }
        ),
        Format::DecimalSI => (
            if k == 0 { 1int }
            else if k == 1 { 1000 }
            else if k == 2 { 1000000 }
            else if k == 3 { 1000000000 }
            else if k == 4 { 1000000000000 }
            else if k == 5 { 1000000000000000 }
            else if k == 6 { 1000000000000000000 }
            else { 1000000000000000000000 }
        ),
    }
}

/// The multiplier that conforms a value of the other format to `target`,
/// for a value sitting at scale exponent `e`: exactly `(1000/1024)^e` when
/// moving into binary-SI and `(1024/1000)^e` when moving into decimal-SI.
/// Every entry is the exact rational written as a decimal, except
/// `(1000/1024)^5` and `(1000/1024)^6`, which need 35 and 42 fractional
/// digits: those two carry the nearest decimal at the type's maximum scale
/// of 28.
pub open spec fn spec_fmt_factor(target: Format, e: int) -> DecView {
    match target {
        Format::BinarySI => (
            if e == -1 { DecView { m: 1024nat, s: 3nat, neg: false } }
            else if e == 0 { DecView { m: 1, s: 0, neg: false } }
            else if e == 1 { DecView { m: 9765625, s: 7, neg: false } }
            else if e == 2 { DecView { m: 95367431640625, s: 14, neg: false } }
            else if e == 3 { DecView { m: 931322574615478515625, s: 21, neg: false } }
            else if e == 4 { DecView { m: 9094947017729282379150390625, s: 28, neg: false } }
            else if e == 5 { DecView { m: 8881784197001252323389053345, s: 28, neg: false } }
            else { DecView { m: 8673617379884035472059622407, s: 28, neg: false } }
        ),
        Format::DecimalSI => (
            if e == -1 { DecView { m: 9765625nat, s: 7nat, neg: false } }
            else if e == 0 { DecView { m: 1, s: 0, neg: false } }
            else if e == 1 { DecView { m: 1024, s: 3, neg: false } }
            else if e == 2 { DecView { m: 1048576, s: 6, neg: false } }
            else if e == 3 { DecView { m: 1073741824, s: 9, neg: false } }
            else if e == 4 { DecView { m: 1099511627776, s: 12, neg: false } }
            else if e == 5 { DecView { m: 1125899906842624, s: 15, neg: false } }
            else { DecView { m: 1152921504606846976, s: 18, neg: false } }
        ),
    }
}

/// What `normalize_formats` does to the right operand: nothing when the
/// formats agree, else its value is multiplied by the conversion factor for
/// its scale, the product normalized, and its format set to the left
/// operand's.
pub open spec fn spec_norm_formats(l: QView, r: QView) -> QView {
    if l.format == r.format {
        r
    } else {
        let f = spec_fmt_factor(l.format, r.scale.spec_exponent());
        QView {
            v: canon_of_units(spec_mul(r.v, f).units()),
            scale: r.scale,
            format: l.format,
        }
    }
}

/// The format conversion multiplies without reduction.
pub open spec fn spec_norm_formats_ok(l: QView, r: QView) -> bool {
    l.format == r.format || {
        let f = spec_fmt_factor(l.format, r.scale.spec_exponent());
        r.v.s + f.s <= 28 && r.v.m * f.m < dec_mantissa_limit()
    }
}

/// What `normalize_scales` does: the operand on the larger scale tier has
/// its value multiplied by the factor for the tier distance under its own
/// format, and its scale overwritten with the smaller tier; the other
/// operand is untouched.
pub open spec fn spec_norm_scales(l: QView, r: QView) -> (QView, QView) {
    let le = l.scale.spec_exponent();
    let re = r.scale.spec_exponent();
    if le == re {
        (l, r)
    } else if le < re {
        let f = DecView { m: spec_scale_factor(r.format, (re - le) as nat) as nat, s: 0, neg: false };
        (l, QView { v: spec_mul(r.v, f), scale: l.scale, format: r.format })
    } else {
        let f = DecView { m: spec_scale_factor(l.format, (le - re) as nat) as nat, s: 0, neg: false };
        (QView { v: spec_mul(l.v, f), scale: r.scale, format: l.format }, r)
    }
}

/// The scale shift multiplies without reduction.
pub open spec fn spec_norm_scales_ok(l: QView, r: QView) -> bool {
    let le = l.scale.spec_exponent();
    let re = r.scale.spec_exponent();
    if le == re {
        true
    } else if le < re {
        r.v.m * spec_scale_factor(r.format, (re - le) as nat) < dec_mantissa_limit()
    } else {
        l.v.m * spec_scale_factor(l.format, (le - re) as nat) < dec_mantissa_limit()
    }
}

/// Both normalization steps, formats first, then scales.
pub open spec fn spec_normalized(l: QView, r: QView) -> (QView, QView) {
    spec_norm_scales(l, spec_norm_formats(l, r))
}

/// Both normalization steps stay within the decimal's range.
pub open spec fn spec_combine_ok(l: QView, r: QView) -> bool {
    spec_norm_formats_ok(l, r) && spec_norm_scales_ok(l, spec_norm_formats(l, r))
}

/// After normalization the exact sum of the two values is representable.
pub open spec fn spec_sum_ok(l: QView, r: QView) -> bool {
    let (nl, nr) = spec_normalized(l, r);
    sum_fits(nl.v, nr.v, nl.v.units() + nr.v.units())
}

/// After normalization the exact difference is representable.
pub open spec fn spec_diff_ok(l: QView, r: QView) -> bool {
    let (nl, nr) = spec_normalized(l, r);
    sum_fits(nl.v, nr.v, nl.v.units() - nr.v.units())
}

/// The factor for a shift of `k` scale tiers under `format`.
fn scale_shift_factor(format: &Format, k: u32) -> (d: rust_decimal::Decimal)
    requires
        k <= 7,
    ensures
        dview(d) == (DecView {
            m: spec_scale_factor(*format, k as nat) as nat,
            s: 0,
            neg: false,
        }),
        dec_valid(d),
{
    let n: i128 = match format {
        Format::BinarySI => match k {
            0 => 1,
            1 => 1024,
            2 => 1048576,
            3 => 1073741824,
            4 => 1099511627776,
            5 => 1125899906842624,
            6 => 1152921504606846976,
            _ => 1180591620717411303424,
        },
        Format::DecimalSI => match k {
            0 => 1,
            1 => 1000,
            2 => 1000000,
            3 => 1000000000,
            4 => 1000000000000,
            5 => 1000000000000000,
            6 => 1000000000000000000,
            _ => 1000000000000000000000,
        },
    };
    dec_new(n, 0)
}

/// The factor that conforms a value at scale exponent `e` to `target`.
fn format_shift_factor(target: &Format, e: i32) -> (d: rust_decimal::Decimal)
    requires
        -1 <= e <= 6,
    ensures
        dview(d) == spec_fmt_factor(*target, e as int),
        dec_valid(d),
{
    let (n, s): (i128, u32) = match target {
        Format::BinarySI => match e {
            -1 => (1024, 3),
            0 => (1, 0),
            1 => (9765625, 7),
            2 => (95367431640625, 14),
            3 => (931322574615478515625, 21),
            4 => (9094947017729282379150390625, 28),
            5 => (8881784197001252323389053345, 28),
            _ => (8673617379884035472059622407, 28),
        },
        Format::DecimalSI => match e {
            -1 => (9765625, 7),
            0 => (1, 0),
            1 => (1024, 3),
            2 => (1048576, 6),
            3 => (1073741824, 9),
            4 => (1099511627776, 12),
            5 => (1125899906842624, 15),
            _ => (1152921504606846976, 18),
        },
    };
    dec_new(n, s)
}

/// Brings both quantities to the same format: when the formats differ, the
/// right operand is conformed to the left operand's format by multiplying
/// its value by the conversion factor for its scale.  The asymmetry is
/// deliberate: `a + b` keeps `a`'s format.
pub fn normalize_formats(lhs: &mut ParsedQuantity, rhs: &mut ParsedQuantity)
    requires
        old(lhs).wf(),
        old(rhs).wf(),
        spec_norm_formats_ok(old(lhs).qview(), old(rhs).qview()),
    ensures
        *final(lhs) == *old(lhs),
        final(rhs).qview() == spec_norm_formats(old(lhs).qview(), old(rhs).qview()),
        final(rhs).wf(),
{
    match (&lhs.format, &rhs.format) {
        (Format::BinarySI, Format::BinarySI) => {},
        (Format::BinarySI, Format::DecimalSI) => {
            let e = rhs.scale.exponent();
            let factor = format_shift_factor(&Format::BinarySI, e);
            rhs.value = dec_normalize(dec_mul(rhs.value, factor));
            rhs.format = Format::BinarySI;
        },
        (Format::DecimalSI, Format::BinarySI) => {
            let e = rhs.scale.exponent();
            let factor = format_shift_factor(&Format::DecimalSI, e);
            rhs.value = dec_normalize(dec_mul(rhs.value, factor));
            rhs.format = Format::DecimalSI;
        },
        (Format::DecimalSI, Format::DecimalSI) => {},
    }
}

/// Brings both quantities to the same scale tier: the operand on the larger
/// tier is multiplied by `base^distance` under its own format and moved to
/// the smaller tier, so the more precise scale wins.
pub fn normalize_scales(lhs: &mut ParsedQuantity, rhs: &mut ParsedQuantity)
    requires
        old(lhs).wf(),
        old(rhs).wf(),
        spec_norm_scales_ok(old(lhs).qview(), old(rhs).qview()),
    ensures
        ({
            let (nl, nr) = spec_norm_scales(old(lhs).qview(), old(rhs).qview());
            final(lhs).qview() == nl && final(rhs).qview() == nr
        }),
        final(lhs).wf(),
        final(rhs).wf(),
{
    let lhs_e = lhs.scale.exponent();
    let rhs_e = rhs.scale.exponent();
    if lhs_e < rhs_e {
        let factor = scale_shift_factor(&rhs.format, (rhs_e - lhs_e) as u32);
        rhs.value = dec_mul(rhs.value, factor);
        rhs.scale = lhs.scale;
    } else if lhs_e > rhs_e {
        let factor = scale_shift_factor(&lhs.format, (lhs_e - rhs_e) as u32);
        lhs.value = dec_mul(lhs.value, factor);
        lhs.scale = rhs.scale;
    }
}

impl ParsedQuantity {
    /// The decimal value is within the representable range.
    pub open spec fn wf(self) -> bool {
        dec_valid(self.value)
    }

    /// The ghost view of the decimal value.
    pub open spec fn vview(self) -> DecView {
        dview(self.value)
    }

    /// The ghost view of the whole quantity.
    pub open spec fn qview(self) -> QView {
        QView { v: dview(self.value), scale: self.scale, format: self.format }
    }

    /// Adds two quantities: both are normalized onto the left operand's
    /// format and the smaller scale, the values are added exactly and the
    /// sum's trailing zeros stripped.  The result carries the left
    /// operand's post-normalization scale and format.
    pub fn add(self, rhs: Self) -> (r: Self)
        requires
            self.wf(),
            rhs.wf(),
            spec_combine_ok(self.qview(), rhs.qview()),
            spec_sum_ok(self.qview(), rhs.qview()),
        ensures
            r.wf(),
            ({
                let (nl, nr) = spec_normalized(self.qview(), rhs.qview());
                r.vview() == canon_of_units(nl.v.units() + nr.v.units()) && r.scale == nl.scale
                    && r.format == nl.format
            }),
    {
        let mut lhs = self;
        let mut rhs = rhs;
        normalize_formats(&mut lhs, &mut rhs);
        normalize_scales(&mut lhs, &mut rhs);
        proof {
            crate::decimal::lemma_spec_add_units(lhs.vview(), rhs.vview());
        }
        let sum = dec_add(lhs.value, rhs.value);
        proof {
            let sv = spec_add(dview(lhs.value), dview(rhs.value));
            if dview(sum).m == 0 {
                assert(dec_units(sum) == 0) by (nonlinear_arith)
                    requires
                        dview(sum).m == 0 && dec_units(sum) == dview(sum).units(),
                ;
                assert(sv.units() == 0) by (nonlinear_arith)
                    requires
                        sv.m == 0,
                ;
            } else {
                assert(dview(sum) == sv);
            }
            assert(dec_units(sum) == sv.units());
        }
        let value = dec_normalize(sum);
        Self { value, scale: lhs.scale, format: lhs.format }
    }

    /// Subtracts `rhs` from `self` after the same normalization as `add`.
    pub fn sub(self, rhs: Self) -> (r: Self)
        requires
            self.wf(),
            rhs.wf(),
            spec_combine_ok(self.qview(), rhs.qview()),
            spec_diff_ok(self.qview(), rhs.qview()),
        ensures
            r.wf(),
            ({
                let (nl, nr) = spec_normalized(self.qview(), rhs.qview());
                r.vview() == canon_of_units(nl.v.units() - nr.v.units()) && r.scale == nl.scale
                    && r.format == nl.format
            }),
    {
        let mut lhs = self;
        let mut rhs = rhs;
        normalize_formats(&mut lhs, &mut rhs);
        normalize_scales(&mut lhs, &mut rhs);
        proof {
            crate::decimal::lemma_spec_sub_units(lhs.vview(), rhs.vview());
        }
        let diff = dec_sub(lhs.value, rhs.value);
        proof {
            let sv = spec_sub(dview(lhs.value), dview(rhs.value));
            if dview(diff).m == 0 {
                assert(dec_units(diff) == 0) by (nonlinear_arith)
                    requires
                        dview(diff).m == 0 && dec_units(diff) == dview(diff).units(),
                ;
                assert(sv.units() == 0) by (nonlinear_arith)
                    requires
                        sv.m == 0,
                ;
            } else {
                assert(dview(diff) == sv);
            }
            assert(dec_units(diff) == sv.units());
        }
        let value = dec_normalize(diff);
        Self { value, scale: lhs.scale, format: lhs.format }
    }

    /// Flips the sign of the value; scale and format are untouched.
    pub fn neg(self) -> (r: Self)
        requires
            self.wf(),
        ensures
            r.wf(),
            r.vview() == (DecView {
                m: self.vview().m,
                s: self.vview().s,
                neg: !self.vview().neg,
            }),
            r.scale == self.scale,
            r.format == self.format,
    {
        Self { value: dec_neg(self.value), scale: self.scale, format: self.format }
    }

    /// In-place addition: `self` is normalized against `rhs` as in `add`,
    /// then the values are added in place without stripping zeros.
    pub fn add_assign(&mut self, rhs: Self)
        requires
            old(self).wf(),
            rhs.wf(),
            spec_combine_ok(old(self).qview(), rhs.qview()),
            spec_sum_ok(old(self).qview(), rhs.qview()),
        ensures
            final(self).wf(),
            ({
                let (nl, nr) = spec_normalized(old(self).qview(), rhs.qview());
                &&& final(self).vview().m == spec_add(nl.v, nr.v).m
                &&& final(self).vview().s == spec_add(nl.v, nr.v).s
                &&& (nl.v.m == 0 || nr.v.m == 0 || final(self).vview().m != 0
                    ==> final(self).vview().neg == spec_add(nl.v, nr.v).neg)
                &&& final(self).scale == nl.scale
                &&& final(self).format == nl.format
            }),
    {
        let mut rhs = rhs;
        normalize_formats(self, &mut rhs);
        normalize_scales(self, &mut rhs);
        self.value = dec_add(self.value, rhs.value);
    }

    /// In-place subtraction, the analogue of `add_assign`.
    pub fn sub_assign(&mut self, rhs: Self)
        requires
            old(self).wf(),
            rhs.wf(),
            spec_combine_ok(old(self).qview(), rhs.qview()),
            spec_diff_ok(old(self).qview(), rhs.qview()),
        ensures
            final(self).wf(),
            ({
                let (nl, nr) = spec_normalized(old(self).qview(), rhs.qview());
                &&& final(self).vview().m == spec_sub(nl.v, nr.v).m
                &&& final(self).vview().s == spec_sub(nl.v, nr.v).s
                &&& (nl.v.m == 0 || nr.v.m == 0 || final(self).vview().m != 0
                    ==> final(self).vview().neg == spec_sub(nl.v, nr.v).neg)
                &&& final(self).scale == nl.scale
                &&& final(self).format == nl.format
            }),
    {
        let mut rhs = rhs;
        normalize_formats(self, &mut rhs);
        normalize_scales(self, &mut rhs);
        self.value = dec_sub(self.value, rhs.value);
    }

    /// Equality on the normalized magnitude: both operands are cloned and
    /// fully normalized (with `self` as the reference format), then the
    /// decimal values are compared.  `1Ki` equals `1024`.
    pub fn eq(&self, other: &Self) -> (r: bool)
        requires
            self.wf(),
            other.wf(),
            spec_combine_ok(self.qview(), other.qview()),
        ensures
            r == ({
                let (nl, nr) = spec_normalized(self.qview(), other.qview());
                nl.v.units() == nr.v.units()
            }),
    {
        let mut lhs = self.clone();
        let mut rhs = other.clone();
        normalize_formats(&mut lhs, &mut rhs);
        normalize_scales(&mut lhs, &mut rhs);
        dec_eq(lhs.value, rhs.value)
    }

    /// Total order on the normalized magnitude, `self` being the reference
    /// format.
    pub fn cmp(&self, other: &Self) -> (r: Ordering)
        requires
            self.wf(),
            other.wf(),
            spec_combine_ok(self.qview(), other.qview()),
        ensures
            ({
                let (nl, nr) = spec_normalized(self.qview(), other.qview());
                &&& (r == Ordering::Less <==> nl.v.units() < nr.v.units())
                &&& (r == Ordering::Equal <==> nl.v.units() == nr.v.units())
                &&& (r == Ordering::Greater <==> nl.v.units() > nr.v.units())
            }),
    {
        let mut lhs = self.clone();
        let mut rhs = other.clone();
        normalize_formats(&mut lhs, &mut rhs);
        normalize_scales(&mut lhs, &mut rhs);
        dec_cmp(lhs.value, rhs.value)
    }

    /// `cmp` wrapped in an always-present option.
    pub fn partial_cmp(&self, other: &Self) -> (r: Option<Ordering>)
        requires
            self.wf(),
            other.wf(),
            spec_combine_ok(self.qview(), other.qview()),
        ensures
            ({
                let (nl, nr) = spec_normalized(self.qview(), other.qview());
                &&& (r == Some(Ordering::Less) <==> nl.v.units() < nr.v.units())
                &&& (r == Some(Ordering::Equal) <==> nl.v.units() == nr.v.units())
                &&& (r == Some(Ordering::Greater) <==> nl.v.units() > nr.v.units())
            }),
    {
        Some(self.cmp(other))
    }

    /// Renders the quantity: the decimal value as the decimal type prints
    /// it, followed by the suffix token for the scale and format.
    pub fn to_string(&self) -> (r: String)
        requires
            self.wf(),
        ensures
            r@ == spec_dec_str(self.vview()) + spec_suffix(self.scale, self.format),
    {
        let num = dec_to_string(self.value);
        let suffix = scale_format_to_string(&self.scale, &self.format);
        num.concat(suffix.as_str())
    }
}


/// The exact integer power of the format's base, used by the byte
/// conversions (unlike the normalization factors, these are exact for both
/// bases).
pub open spec fn spec_pow_base(format: Format, e: nat) -> int {
    match format {
        Format::BinarySI => (
            if e == 0 { 1int }
            else if e == 1 { 1024 }
            else if e == 2 { 1048576 }
            else if e == 3 { 1073741824 }
            else if e == 4 { 1099511627776 }
            else if e == 5 { 1125899906842624 }
            else { 1152921504606846976 }
        ),
        Format::DecimalSI => (
            if e == 0 { 1int }
            else if e == 1 { 1000 }
            else if e == 2 { 1000000 }
            else if e == 3 { 1000000000 }
            else if e == 4 { 1000000000000 }
            else if e == 5 { 1000000000000000 }
            else { 1000000000000000000 }
        ),
    }
}

/// The value rounded half away from zero to `dp` fractional digits; a value
/// with no more than `dp` digits is untouched.
pub open spec fn spec_rounded(v: DecView, dp: nat) -> DecView {
    if v.s <= dp {
        v
    } else {
        spec_round_away(v, dp)
    }
}

/// What the byte conversion to a signed integer type with range
/// `lo..=hi` yields: refused for a milli scale, else the truncated value
/// times the base power, if both stay in range.
pub open spec fn spec_to_bytes_int(q: QView, lo: int, hi: int) -> Option<int> {
    let e = q.scale.spec_exponent();
    let t = q.v.trunc();
    if e < 0 {
        None
    } else if t < lo || t > hi {
        None
    } else {
        let val = t * spec_pow_base(q.format, e as nat);
        if val < lo || val > hi {
            None
        } else {
            Some(val)
        }
    }
}

/// The unsigned analogue: additionally refused whenever the sign flag is
/// set, also on a negative zero.
pub open spec fn spec_to_bytes_uint(q: QView, hi: int) -> Option<int> {
    let e = q.scale.spec_exponent();
    if e < 0 {
        None
    } else if q.v.neg {
        None
    } else {
        let t = q.v.trunc();
        if t > hi {
            None
        } else {
            let val = t * spec_pow_base(q.format, e as nat);
            if val > hi {
                None
            } else {
                Some(val)
            }
        }
    }
}

/// The exact base power as an executable value, for exponents 0..=6.
fn base_pow_i64(format: &Format, e: u32) -> (p: i64)
    requires
        e <= 6,
    ensures
        p as int == spec_pow_base(*format, e as nat),
        p >= 1,
{
    match format {
        Format::BinarySI => match e {
            0 => 1,
            1 => 1024,
            2 => 1048576,
            3 => 1073741824,
            4 => 1099511627776,
            5 => 1125899906842624,
            _ => 1152921504606846976,
        },
        Format::DecimalSI => match e {
            0 => 1,
            1 => 1000,
            2 => 1000000,
            3 => 1000000000,
            4 => 1000000000000,
            5 => 1000000000000000,
            _ => 1000000000000000000,
        },
    }
}

impl ParsedQuantity {
    /// Scales the value by a decimal factor; scale and format are
    /// untouched.
    pub fn mul(self, rhs: rust_decimal::Decimal) -> (r: Self)
        requires
            self.wf(),
            dec_valid(rhs),
            dec_scale(self.value) + dec_scale(rhs) <= 28,
            dec_mantissa(self.value) * dec_mantissa(rhs) < dec_mantissa_limit(),
        ensures
            r.wf(),
            r.vview() == spec_mul(self.vview(), dview(rhs)),
            r.scale == self.scale,
            r.format == self.format,
    {
        Self { value: dec_mul(self.value, rhs), scale: self.scale, format: self.format }
    }

    /// In-place form of `mul`.
    pub fn mul_assign(&mut self, rhs: rust_decimal::Decimal)
        requires
            old(self).wf(),
            dec_valid(rhs),
            dec_scale(old(self).value) + dec_scale(rhs) <= 28,
            dec_mantissa(old(self).value) * dec_mantissa(rhs) < dec_mantissa_limit(),
        ensures
            final(self).wf(),
            final(self).vview() == spec_mul(old(self).vview(), dview(rhs)),
            final(self).scale == old(self).scale,
            final(self).format == old(self).format,
    {
        self.value = dec_mul(self.value, rhs);
    }

    /// Divides the value by a decimal factor; scale and format are
    /// untouched.  Division by zero and quotient overflow are excluded by
    /// the preconditions; whenever the exact quotient is representable at
    /// some scale it is returned exactly.
    pub fn div(self, rhs: rust_decimal::Decimal) -> (r: Self)
        requires
            self.wf(),
            dec_valid(rhs),
            dec_mantissa(rhs) != 0,
            abs(dec_units(self.value)) <= (dec_mantissa_limit() - 1) * abs(dec_units(rhs)),
        ensures
            r.wf(),
            r.scale == self.scale,
            r.format == self.format,
            (dec_units(self.value) * pow10(28)) % dec_units(rhs) == 0 && canon_of_units(
                dec_units(self.value) * pow10(28) / dec_units(rhs),
            ).valid() ==> dec_units(r.value) == dec_units(self.value) * pow10(28) / dec_units(
                rhs,
            ),
    {
        Self { value: dec_div(self.value, rhs), scale: self.scale, format: self.format }
    }

    /// In-place form of `div`.
    pub fn div_assign(&mut self, rhs: rust_decimal::Decimal)
        requires
            old(self).wf(),
            dec_valid(rhs),
            dec_mantissa(rhs) != 0,
            abs(dec_units(old(self).value)) <= (dec_mantissa_limit() - 1) * abs(
                dec_units(rhs),
            ),
        ensures
            final(self).wf(),
            final(self).scale == old(self).scale,
            final(self).format == old(self).format,
            (dec_units(old(self).value) * pow10(28)) % dec_units(rhs) == 0 && canon_of_units(
                dec_units(old(self).value) * pow10(28) / dec_units(rhs),
            ).valid() ==> dec_units(final(self).value) == dec_units(old(self).value) * pow10(28)
                / dec_units(rhs),
    {
        self.value = dec_div(self.value, rhs);
    }

    /// Renders the value rounded to `precision` fractional digits, half
    /// away from zero, with trailing zeros stripped and -0 canonicalized
    /// to 0, followed by the suffix.
    pub fn to_string_with_precision(&self, precision: u32) -> (r: String)
        requires
            self.wf(),
        ensures
            r@ == spec_dec_str(canon_of_units(spec_rounded(self.vview(), precision as nat).units()))
                + spec_suffix(self.scale, self.format),
    {
        let rounded = dec_round_dp_away(self.value, precision);
        let num = dec_to_string(dec_normalize(rounded));
        let suffix = scale_format_to_string(&self.scale, &self.format);
        num.concat(suffix.as_str())
    }

    /// Returns the value of the quantity as an i128.
    pub fn to_bytes_i128(&self) -> (r: Option<i128>)
        requires
            self.wf(),
        ensures
            r == match spec_to_bytes_int(self.qview(), i128::MIN as int, i128::MAX as int) {
                Some(v) => Some(v as i128),
                None => None::<i128>,
            },
    {
        let e = self.scale.exponent();
        if e < 0 {
            return None;
        }
        proof {
            crate::decimal::lemma_trunc_bound(self.vview());
        }
        let t = match dec_to_i128(self.value) {
            Some(t) => t,
            None => {
                return None;
            },
        };
        let mult = base_pow_i64(&self.format, e as u32) as i128;
        t.checked_mul(mult)
    }

    /// Returns the value of the quantity as an i64.
    pub fn to_bytes_i64(&self) -> (r: Option<i64>)
        requires
            self.wf(),
        ensures
            r == match spec_to_bytes_int(self.qview(), i64::MIN as int, i64::MAX as int) {
                Some(v) => Some(v as i64),
                None => None::<i64>,
            },
    {
        let e = self.scale.exponent();
        if e < 0 {
            return None;
        }
        proof {
            crate::decimal::lemma_trunc_bound(self.vview());
        }
        let t = match dec_to_i64(self.value) {
            Some(t) => t,
            None => {
                return None;
            },
        };
        let mult = base_pow_i64(&self.format, e as u32);
        t.checked_mul(mult)
    }

    /// Returns the value of the quantity as an i32.
    pub fn to_bytes_i32(&self) -> (r: Option<i32>)
        requires
            self.wf(),
        ensures
            r == match spec_to_bytes_int(self.qview(), i32::MIN as int, i32::MAX as int) {
                Some(v) => Some(v as i32),
                None => None::<i32>,
            },
    {
        let e = self.scale.exponent();
        if e < 0 {
            return None;
        }
        proof {
            crate::decimal::lemma_trunc_bound(self.vview());
        }
        let t = match dec_to_i64(self.value) {
            Some(t) => t,
            None => {
                return None;
            },
        };
        if t < i32::MIN as i64 || t > i32::MAX as i64 {
            return None;
        }
        let mult = base_pow_i64(&self.format, e as u32);
        match t.checked_mul(mult) {
            Some(v) => {
                if i32::MIN as i64 <= v && v <= i32::MAX as i64 {
                    Some(v as i32)
                } else {
                    None
                }
            },
            None => None,
        }
    }

    /// Returns the value of the quantity as an i16.
    pub fn to_bytes_i16(&self) -> (r: Option<i16>)
        requires
            self.wf(),
        ensures
            r == match spec_to_bytes_int(self.qview(), i16::MIN as int, i16::MAX as int) {
                Some(v) => Some(v as i16),
                None => None::<i16>,
            },
    {
        let e = self.scale.exponent();
        if e < 0 {
            return None;
        }
        proof {
            crate::decimal::lemma_trunc_bound(self.vview());
        }
        let t = match dec_to_i64(self.value) {
            Some(t) => t,
            None => {
                return None;
            },
        };
        if t < i16::MIN as i64 || t > i16::MAX as i64 {
            return None;
        }
        let mult = base_pow_i64(&self.format, e as u32);
        match t.checked_mul(mult) {
            Some(v) => {
                if i16::MIN as i64 <= v && v <= i16::MAX as i64 {
                    Some(v as i16)
                } else {
                    None
                }
            },
            None => None,
        }
    }

    /// Returns the value of the quantity as an i8.  This only succeeds when
    /// the scale tier is `One`.
    pub fn to_bytes_i8(&self) -> (r: Option<i8>)
        requires
            self.wf(),
        ensures
            r == ({
                let t = self.vview().trunc();
                if self.scale.spec_exponent() != 0 {
                    None::<i8>
                } else if t < i8::MIN as int || t > i8::MAX as int {
                    None::<i8>
                } else {
                    Some(t as i8)
                }
            }),
    {
        let e = self.scale.exponent();
        if e != 0 {
            return None;
        }
        proof {
            crate::decimal::lemma_trunc_bound(self.vview());
        }
        let t = match dec_to_i64(self.value) {
            Some(t) => t,
            None => {
                return None;
            },
        };
        if i8::MIN as i64 <= t && t <= i8::MAX as i64 {
            Some(t as i8)
        } else {
            None
        }
    }

    /// Returns the value of the quantity as an isize.
    pub fn to_bytes_isize(&self) -> (r: Option<isize>)
        requires
            self.wf(),
        ensures
            r == match spec_to_bytes_int(self.qview(), isize::MIN as int, isize::MAX as int) {
                Some(v) => Some(v as isize),
                None => None::<isize>,
            },
    {
        let e = self.scale.exponent();
        if e < 0 {
            return None;
        }
        proof {
            crate::decimal::lemma_trunc_bound(self.vview());
        }
        let t = match dec_to_i64(self.value) {
            Some(t) => t,
            None => {
                return None;
            },
        };
        if t < isize::MIN as i64 || t > isize::MAX as i64 {
            return None;
        }
        let mult = base_pow_i64(&self.format, e as u32);
        match t.checked_mul(mult) {
            Some(v) => {
                if isize::MIN as i64 <= v && v <= isize::MAX as i64 {
                    Some(v as isize)
                } else {
                    None
                }
            },
            None => None,
        }
    }

    /// Returns the value of the quantity as a u128.
    pub fn to_bytes_u128(&self) -> (r: Option<u128>)
        requires
            self.wf(),
        ensures
            r == match spec_to_bytes_uint(self.qview(), u128::MAX as int) {
                Some(v) => Some(v as u128),
                None => None::<u128>,
            },
    {
        let e = self.scale.exponent();
        if e < 0 {
            return None;
        }
        proof {
            crate::decimal::lemma_trunc_bound(self.vview());
        }
        let t = match dec_to_u128(self.value) {
            Some(t) => t,
            None => {
                return None;
            },
        };
        let mult = base_pow_i64(&self.format, e as u32) as u128;
        t.checked_mul(mult)
    }

    /// Returns the value of the quantity as a u64.
    pub fn to_bytes_u64(&self) -> (r: Option<u64>)
        requires
            self.wf(),
        ensures
            r == match spec_to_bytes_uint(self.qview(), u64::MAX as int) {
                Some(v) => Some(v as u64),
                None => None::<u64>,
            },
    {
        let e = self.scale.exponent();
        if e < 0 {
            return None;
        }
        proof {
            crate::decimal::lemma_trunc_bound(self.vview());
        }
        let t = match dec_to_u64(self.value) {
            Some(t) => t,
            None => {
                return None;
            },
        };
        let mult = base_pow_i64(&self.format, e as u32) as u64;
        t.checked_mul(mult)
    }

    /// Returns the value of the quantity as a u32.
    pub fn to_bytes_u32(&self) -> (r: Option<u32>)
        requires
            self.wf(),
        ensures
            r == match spec_to_bytes_uint(self.qview(), u32::MAX as int) {
                Some(v) => Some(v as u32),
                None => None::<u32>,
            },
    {
        let e = self.scale.exponent();
        if e < 0 {
            return None;
        }
        proof {
            crate::decimal::lemma_trunc_bound(self.vview());
        }
        let t = match dec_to_u64(self.value) {
            Some(t) => t,
            None => {
                return None;
            },
        };
        if t > u32::MAX as u64 {
            return None;
        }
        let mult = base_pow_i64(&self.format, e as u32) as u64;
        match t.checked_mul(mult) {
            Some(v) => {
                if v <= u32::MAX as u64 {
                    Some(v as u32)
                } else {
                    None
                }
            },
            None => None,
        }
    }

    /// Returns the value of the quantity as a u16.
    pub fn to_bytes_u16(&self) -> (r: Option<u16>)
        requires
            self.wf(),
        ensures
            r == match spec_to_bytes_uint(self.qview(), u16::MAX as int) {
                Some(v) => Some(v as u16),
                None => None::<u16>,
            },
    {
        let e = self.scale.exponent();
        if e < 0 {
            return None;
        }
        proof {
            crate::decimal::lemma_trunc_bound(self.vview());
        }
        let t = match dec_to_u64(self.value) {
            Some(t) => t,
            None => {
                return None;
            },
        };
        if t > u16::MAX as u64 {
            return None;
        }
        let mult = base_pow_i64(&self.format, e as u32) as u64;
        match t.checked_mul(mult) {
            Some(v) => {
                if v <= u16::MAX as u64 {
                    Some(v as u16)
                } else {
                    None
                }
            },
            None => None,
        }
    }

    /// Returns the value of the quantity as a u8.  This only succeeds when
    /// the scale tier is `One`.
    pub fn to_bytes_u8(&self) -> (r: Option<u8>)
        requires
            self.wf(),
        ensures
            r == ({
                let t = self.vview().trunc();
                if self.scale.spec_exponent() != 0 {
                    None::<u8>
                } else if self.vview().neg {
                    None::<u8>
                } else if t > u8::MAX as int {
                    None::<u8>
                } else {
                    Some(t as u8)
                }
            }),
    {
        let e = self.scale.exponent();
        if e != 0 {
            return None;
        }
        proof {
            crate::decimal::lemma_trunc_bound(self.vview());
        }
        let t = match dec_to_u64(self.value) {
            Some(t) => t,
            None => {
                return None;
            },
        };
        if t <= u8::MAX as u64 {
            Some(t as u8)
        } else {
            None
        }
    }

    /// Returns the value of the quantity as a usize.
    pub fn to_bytes_usize(&self) -> (r: Option<usize>)
        requires
            self.wf(),
        ensures
            r == match spec_to_bytes_uint(self.qview(), usize::MAX as int) {
                Some(v) => Some(v as usize),
                None => None::<usize>,
            },
    {
        let e = self.scale.exponent();
        if e < 0 {
            return None;
        }
        proof {
            crate::decimal::lemma_trunc_bound(self.vview());
        }
        let t = match dec_to_u64(self.value) {
            Some(t) => t,
            None => {
                return None;
            },
        };
        if t > usize::MAX as u64 {
            return None;
        }
        let mult = base_pow_i64(&self.format, e as u32) as u64;
        match t.checked_mul(mult) {
            Some(v) => {
                if v <= usize::MAX as u64 {
                    Some(v as usize)
                } else {
                    None
                }
            },
            None => None,
        }
    }
}


/// Law: scaling a value by a nonzero decimal and then dividing the product
/// by the same scalar returns to the original magnitude.  Whenever the
/// product is exactly representable, the exact quotient `product / scalar`
/// is divisible, representable, and equal to the original value, so the
/// division contract pins the round trip: `(q.mul(c)).div(c)` has `q`'s
/// magnitude, scale and format, and compares equal to `q`.
pub proof fn lemma_mul_div_identity(q: DecView, c: DecView)
    requires
        q.valid(),
        c.valid(),
        c.m != 0,
        q.s + c.s <= 28,
        q.m * c.m < dec_mantissa_limit(),
    ensures
        (spec_mul(q, c).units() * pow10(28)) % c.units() == 0,
        canon_of_units(spec_mul(q, c).units() * pow10(28) / c.units()).valid(),
        spec_mul(q, c).units() * pow10(28) / c.units() == q.units(),
{
    let p = spec_mul(q, c);
    let cu = c.units();
    let qu = q.units();
    lemma_pow10_pos((28 - c.s) as nat);
    lemma_pow10_pos((28 - q.s) as nat);
    assert(cu != 0) by (nonlinear_arith)
        requires
            cu == (if c.neg {
                -1int
            } else {
                1int
            }) * c.m * pow10((28 - c.s) as nat) && c.m >= 1 && pow10((28 - c.s) as nat) >= 1,
    ;
    if q.m == 0 {
        assert(qu == 0) by (nonlinear_arith)
            requires
                qu == (if q.neg {
                    -1int
                } else {
                    1int
                }) * q.m * pow10((28 - q.s) as nat) && q.m == 0,
        ;
        assert(p.units() == 0) by (nonlinear_arith)
            requires
                p.units() == (if p.neg {
                    -1int
                } else {
                    1int
                }) * p.m * pow10((28 - p.s) as nat) && p.m == 0,
        ;
        assert((0int * pow10(28)) % cu == 0 && 0int * pow10(28) / cu == 0) by (nonlinear_arith)
            requires
                cu != 0,
        ;
    } else {
        let sq: int = if q.neg {
            -1
        } else {
            1
        };
        let sc: int = if c.neg {
            -1
        } else {
            1
        };
        let sp: int = if p.neg {
            -1
        } else {
            1
        };
        assert(sp == sq * sc) by (nonlinear_arith)
            requires
                sq == (if q.neg {
                    -1int
                } else {
                    1int
                }) && sc == (if c.neg {
                    -1int
                } else {
                    1int
                }) && sp == (if q.neg != c.neg {
                    -1int
                } else {
                    1int
                }),
        ;
        let p1 = pow10((28 - q.s) as nat);
        let p2 = pow10((28 - c.s) as nat);
        let a0 = pow10((28 - (q.s + c.s)) as nat);
        let mm: int = (q.m * c.m) as int;
        lemma_pow10_adds((28 - q.s) as nat, (28 - c.s) as nat);
        lemma_pow10_adds((28 - (q.s + c.s)) as nat, 28);
        assert((28 - q.s) as nat + (28 - c.s) as nat == (28 - (q.s + c.s)) as nat + 28nat);
        assert(p1 * p2 == a0 * pow10(28));
        assert(qu * cu == (sq * sc) * (mm * (p1 * p2))) by (nonlinear_arith)
            requires
                qu == sq * q.m * p1 && cu == sc * c.m * p2 && mm == q.m * c.m,
        ;
        assert(qu * cu == sp * (mm * (a0 * pow10(28))));
        assert(sp * (mm * (a0 * pow10(28))) == (sp * mm * a0) * pow10(28)) by (nonlinear_arith);
        assert(p.units() == sp * mm * a0);
        assert(p.units() * pow10(28) == qu * cu);
        assert((qu * cu) % cu == 0 && (qu * cu) / cu == qu) by (nonlinear_arith)
            requires
                cu != 0,
        ;
        lemma_canon_of_valid(q);
    }
}

} // verus!
