//! The round-trip law: a canonically written quantity string parses
//! successfully and renders back to exactly itself.
//!
//! Canonically written means: an optional minus, an integer part without a
//! superfluous leading zero, an optional nonempty fraction without a
//! trailing zero, and a suffix token; the mantissa must lie in the range
//! that the numeric pipeline reproduces digit for digit (an integer below
//! 2^53, or a fraction with a mantissa below 2^52 and an exact binary
//! representation), and the suffix must not begin with `E`, which the
//! grammar reads as an exponent marker after digits.

use vstd::arithmetic::div_mod::lemma_fundamental_div_mod_converse;
use vstd::prelude::*;

use crate::decimal::{
    lemma_pow10_pos, pow10, spec_dec_str, spec_digit_char, spec_digits, strip_zeros, DecView,
};
use crate::parser::{
    digit_of, digits_val, flit_scan, is_digit, lit_canon, lit_digits, lit_exp, lit_frac_len,
    lit_neg, lit_num_end, lit_pinned, lit_sign_len, outer_neg, outer_sign_len, pow5, run_end,
    spec_full_suffix, spec_malformed, spec_number_region, spec_parsed_view, spec_suffix_region,
    spec_value_pinned,
};
use crate::utils::spec_suffix;

verus! {

/// A run of digits.
pub open spec fn all_digits(s: Seq<char>, i: int, j: int) -> bool {
    forall|k: int| i <= k < j ==> is_digit(#[trigger] s[k])
}

pub open spec fn canon_sign_len(cs: Seq<char>) -> int {
    if cs.len() > 0 && cs[0] == '-' {
        1
    } else {
        0
    }
}

pub open spec fn canon_int_end(cs: Seq<char>) -> int {
    run_end(cs, canon_sign_len(cs))
}

pub open spec fn canon_has_frac(cs: Seq<char>) -> bool {
    canon_int_end(cs) < cs.len() && cs[canon_int_end(cs)] == '.'
}

/// Where the mantissa region ends.
pub open spec fn canon_mant_end(cs: Seq<char>) -> int {
    if canon_has_frac(cs) {
        run_end(cs, canon_int_end(cs) + 1)
    } else {
        canon_int_end(cs)
    }
}

pub open spec fn canon_suffix(cs: Seq<char>) -> Seq<char> {
    cs.skip(canon_mant_end(cs))
}

pub open spec fn canon_frac_len(cs: Seq<char>) -> int {
    if canon_has_frac(cs) {
        canon_mant_end(cs) - canon_int_end(cs) - 1
    } else {
        0
    }
}

/// The mantissa's significant digits as one integer.
pub open spec fn canon_mantissa(cs: Seq<char>) -> int {
    let iv = digits_val(cs, canon_sign_len(cs), canon_int_end(cs));
    if canon_has_frac(cs) {
        iv * pow10(canon_frac_len(cs) as nat) + digits_val(
            cs,
            canon_int_end(cs) + 1,
            canon_mant_end(cs),
        )
    } else {
        iv
    }
}

/// A canonically written quantity string, as described at the top of this
/// module.
pub open spec fn is_canonical_quantity(cs: Seq<char>) -> bool {
    let sl = canon_sign_len(cs);
    let b = canon_int_end(cs);
    let e = canon_mant_end(cs);
    let m = canon_mantissa(cs);
    let f = canon_frac_len(cs);
    &&& b > sl
    &&& (cs[sl] != '0' || b == sl + 1)
    &&& (canon_has_frac(cs) ==> e > b + 1 && cs[e - 1] != '0')
    &&& (if canon_has_frac(cs) {
        1 <= f <= 28 && m < 0x10000000000000 && m % pow5(f as nat) == 0
    } else {
        m < 0x20000000000000
    })
    &&& spec_full_suffix(canon_suffix(cs)) is Some
    &&& (canon_suffix(cs).len() > 0 ==> canon_suffix(cs)[0] != 'E')
}

proof fn lemma_run_end_exact(s: Seq<char>, i: int, j: int)
    requires
        0 <= i <= j <= s.len(),
        all_digits(s, i, j),
        j == s.len() || !is_digit(s[j]),
    ensures
        run_end(s, i) == j,
    decreases j - i,
{
    if i < j {
        lemma_run_end_exact(s, i + 1, j);
    }
}

proof fn lemma_digit_char_of(c: char)
    requires
        is_digit(c),
    ensures
        spec_digit_char(digit_of(c) as nat) == c,
        0 <= digit_of(c) <= 9,
{
    if c as u32 == 48 {
        assert(c == '0');
    } else if c as u32 == 49 {
        assert(c == '1');
    } else if c as u32 == 50 {
        assert(c == '2');
    } else if c as u32 == 51 {
        assert(c == '3');
    } else if c as u32 == 52 {
        assert(c == '4');
    } else if c as u32 == 53 {
        assert(c == '5');
    } else if c as u32 == 54 {
        assert(c == '6');
    } else if c as u32 == 55 {
        assert(c == '7');
    } else if c as u32 == 56 {
        assert(c == '8');
    } else {
        assert(c == '9');
    }
}

/// Digit values only depend on the digits themselves, wherever they sit.
proof fn lemma_digits_val_offset(s: Seq<char>, t: Seq<char>, i: int, j: int, o: int)
    requires
        i <= j,
        forall|k: int| i <= k < j ==> s[k] == t[k + o],
    ensures
        digits_val(s, i, j) == digits_val(t, i + o, j + o),
    decreases j - i,
{
    if i < j {
        assert forall|k: int| i <= k < j - 1 implies s[k] == t[k + o] by {
            assert(i <= k < j);
            assert(s[k] == t[k + o]);
        }
        lemma_digits_val_offset(s, t, i, j - 1, o);
        assert(s[j - 1] == t[j - 1 + o]);
        assert(digits_val(t, i + o, j + o) == digits_val(t, i + o, j + o - 1) * 10 + digit_of(
            t[j + o - 1],
        ));
    }
}

proof fn lemma_pow5_pos(n: nat)
    ensures
        pow5(n) >= 1,
    decreases n,
{
    if n > 0 {
        lemma_pow5_pos((n - 1) as nat);
    }
}

/// Left-padding a value's digits with zeros up to the width of its digit
/// run reproduces the run exactly.
proof fn lemma_digits_pad(s: Seq<char>, i: int, j: int)
    requires
        0 <= i < j <= s.len(),
        all_digits(s, i, j),
    ensures
        0 <= digits_val(s, i, j) < pow10((j - i) as nat),
        spec_digits(digits_val(s, i, j) as nat).len() <= j - i,
        Seq::new(((j - i) - spec_digits(digits_val(s, i, j) as nat).len()) as nat, |x: int| '0')
            + spec_digits(digits_val(s, i, j) as nat) =~= s.subrange(i, j),
    decreases j - i,
{
    let v = digits_val(s, i, j);
    let d = digit_of(s[j - 1]);
    lemma_digit_char_of(s[j - 1]);
    if i == j - 1 {
        reveal_with_fuel(digits_val, 2);
        reveal_with_fuel(crate::decimal::pow10, 2);
        assert(v == d);
        assert(pow10(1nat) == 10);
        assert(spec_digits(v as nat) =~= seq![s[j - 1]]);
        assert(Seq::new(0nat, |x: int| '0') + spec_digits(v as nat) =~= s.subrange(i, j));
    } else {
        lemma_digits_pad(s, i, j - 1);
        let v1 = digits_val(s, i, j - 1);
        assert(v == v1 * 10 + d);
        lemma_pow10_pos((j - 1 - i) as nat);
        assert(pow10((j - i) as nat) == 10 * pow10((j - i - 1) as nat));
        assert(v1 * 10 + d < pow10((j - i - 1) as nat) * 10) by (nonlinear_arith)
            requires
                v1 < pow10((j - i - 1) as nat) && 0 <= d <= 9,
        ;
        assert(pow10((j - i - 1) as nat) * 10 == 10 * pow10((j - i - 1) as nat)) by (nonlinear_arith);
        lemma_fundamental_div_mod_converse(v, 10, v1, d);
        assert(v / 10 == v1 && v % 10 == d);
        if v < 10 {
            assert(v1 == 0);
            assert(spec_digits(v1 as nat) =~= seq!['0']);
            // the shorter run is all zeros
            assert(Seq::new(((j - 1 - i) - 1) as nat, |x: int| '0') + seq!['0'] =~= s.subrange(
                i,
                j - 1,
            ));
            assert(spec_digits(v as nat) =~= seq![spec_digit_char(v as nat)]);
            assert forall|k: int| i <= k < j - 1 implies s[k] == '0' by {
                assert(s.subrange(i, j - 1)[k - i] == s[k]);
                if k - i < (j - 1 - i) - 1 {
                    assert((Seq::new(((j - 1 - i) - 1) as nat, |x: int| '0') + seq!['0'])[k - i]
                        == '0');
                } else {
                    assert((Seq::new(((j - 1 - i) - 1) as nat, |x: int| '0') + seq!['0'])[k - i]
                        == '0');
                }
            }
            assert(Seq::new(((j - i) - 1) as nat, |x: int| '0') + spec_digits(v as nat)
                =~= s.subrange(i, j));
        } else {
            assert(spec_digits(v as nat) == spec_digits((v / 10) as nat).push(
                spec_digit_char((v % 10) as nat),
            ));
            assert(spec_digits(v as nat) =~= spec_digits(v1 as nat).push(s[j - 1]));
            let pad1 = Seq::new(
                ((j - 1 - i) - spec_digits(v1 as nat).len()) as nat,
                |x: int| '0',
            );
            assert(pad1 + spec_digits(v1 as nat) =~= s.subrange(i, j - 1));
            assert(Seq::new(((j - i) - spec_digits(v as nat).len()) as nat, |x: int| '0')
                + spec_digits(v as nat) =~= (pad1 + spec_digits(v1 as nat)).push(s[j - 1]));
            assert((pad1 + spec_digits(v1 as nat)).push(s[j - 1]) =~= s.subrange(i, j));
        }
    }
}

/// Splitting a digit string at the point: the combined value's digits are
/// the integer digits followed by the zero-padded fraction digits.
proof fn lemma_digits_combine(v1: nat, v2: nat, k: nat)
    requires
        v1 >= 1,
        k >= 1,
        v2 < pow10(k),
    ensures
        (v1 * pow10(k) + v2) >= 10,
        spec_digits((v1 * pow10(k) + v2) as nat) =~= spec_digits(v1) + Seq::new(
            (k - spec_digits(v2).len()) as nat,
            |x: int| '0',
        ) + spec_digits(v2),
        spec_digits(v2).len() <= k,
    decreases k,
{
    lemma_pow10_pos(k);
    lemma_pow10_pos((k - 1) as nat);
    let v = v1 * pow10(k) + v2;
    assert(v1 * pow10(k) >= pow10(k)) by (nonlinear_arith)
        requires
            v1 >= 1 && pow10(k) >= 1,
    ;
    assert(pow10(k) >= 10);
    let q2 = v2 / 10;
    let d2 = v2 % 10;
    assert(v2 == q2 * 10 + d2 && d2 < 10) by {
        vstd::arithmetic::div_mod::lemma_fundamental_div_mod(v2 as int, 10);
    }
    assert(v == (v1 * pow10((k - 1) as nat) + q2) * 10 + d2) by (nonlinear_arith)
        requires
            pow10(k) == 10 * pow10((k - 1) as nat) && v == v1 * pow10(k) + v2 && v2 == q2 * 10
                + d2,
    ;
    lemma_fundamental_div_mod_converse(
        v as int,
        10,
        v1 * pow10((k - 1) as nat) + q2,
        d2 as int,
    );
    assert(v / 10 == v1 * pow10((k - 1) as nat) + q2 && v % 10 == d2);
    assert(q2 < pow10((k - 1) as nat)) by (nonlinear_arith)
        requires
            v2 < pow10(k) && pow10(k) == 10 * pow10((k - 1) as nat) && v2 == q2 * 10 + d2 && 0
                <= d2 < 10 && q2 >= 0,
    ;
    if k == 1 {
        assert(pow10(0) == 1);
        assert(q2 == 0);
        assert(v2 == d2 && v2 < 10);
        assert(spec_digits(v2) =~= seq![spec_digit_char(v2)]);
        assert(v1 * pow10(0) + q2 == v1) by (nonlinear_arith)
            requires
                pow10(0) == 1 && q2 == 0,
        ;
        assert(v / 10 == v1);
        assert(spec_digits(v as nat) == spec_digits(v1).push(spec_digit_char(v2)));
        assert(spec_digits(v as nat) =~= spec_digits(v1) + Seq::new(0nat, |x: int| '0')
            + spec_digits(v2));
    } else {
        lemma_digits_combine(v1, q2, (k - 1) as nat);
        let w = v1 * pow10((k - 1) as nat) + q2;
        assert(spec_digits(w as nat) =~= spec_digits(v1) + Seq::new(
            ((k - 1) - spec_digits(q2).len()) as nat,
            |x: int| '0',
        ) + spec_digits(q2));
        assert(spec_digits(v as nat) == spec_digits(w as nat).push(spec_digit_char(d2)));
        if v2 < 10 {
            assert(q2 == 0);
            assert(spec_digits(q2) =~= seq!['0']);
            assert(spec_digits(v2) =~= seq![spec_digit_char(v2)]);
            assert(spec_digits(v as nat) =~= spec_digits(v1) + Seq::new(
                (k - 1) as nat,
                |x: int| '0',
            ) + spec_digits(v2));
        } else {
            assert(spec_digits(v2) == spec_digits(q2).push(spec_digit_char(d2)));
            assert(spec_digits(v as nat) =~= spec_digits(v1) + Seq::new(
                (k - spec_digits(v2).len()) as nat,
                |x: int| '0',
            ) + spec_digits(v2));
        }
    }
}

/// The last digit is the value modulo ten.
proof fn lemma_digits_val_last(s: Seq<char>, i: int, j: int)
    requires
        0 <= i < j <= s.len(),
        all_digits(s, i, j),
    ensures
        digits_val(s, i, j) % 10 == digit_of(s[j - 1]),
        digits_val(s, i, j) >= 0,
{
    lemma_digits_pad(s, i, j);
    lemma_digit_char_of(s[j - 1]);
    lemma_fundamental_div_mod_converse(
        digits_val(s, i, j),
        10,
        digits_val(s, i, j - 1),
        digit_of(s[j - 1]),
    );
}

/// The render table is a right inverse of the suffix lookup.
proof fn lemma_suffix_inverse(t: Seq<char>)
    requires
        spec_full_suffix(t) is Some,
    ensures
        spec_suffix(spec_full_suffix(t)->Some_0.1, spec_full_suffix(t)->Some_0.0) =~= t,
{
    if t.len() == 0 {
    } else if t.len() == 1 {
        assert(spec_suffix(spec_full_suffix(t)->Some_0.1, spec_full_suffix(t)->Some_0.0) =~= t);
    } else {
        assert(spec_suffix(spec_full_suffix(t)->Some_0.1, spec_full_suffix(t)->Some_0.0) =~= t);
    }
}

/// Round trip: a canonically written quantity string is accepted by the
/// parser, its value is pinned exactly, and rendering the parsed quantity
/// (the decimal's digits followed by the suffix token) yields the input
/// string unchanged.
#[verifier::rlimit(100)]
pub proof fn lemma_parse_render_round_trip(cs: Seq<char>)
    requires
        is_canonical_quantity(cs),
    ensures
        cs.len() > 0,
        !spec_malformed(cs),
        spec_value_pinned(cs),
        spec_full_suffix(spec_suffix_region(cs)) is Some,
        spec_dec_str(spec_parsed_view(cs)) + spec_suffix(
            spec_full_suffix(spec_suffix_region(cs))->Some_0.1,
            spec_full_suffix(spec_suffix_region(cs))->Some_0.0,
        ) =~= cs,
{
    let sl = canon_sign_len(cs);
    let b = canon_int_end(cs);
    let e = canon_mant_end(cs);
    let suf = canon_suffix(cs);
    let has_frac = canon_has_frac(cs);
    let f = canon_frac_len(cs);
    let mv = canon_mantissa(cs);
    let rest = cs.skip(sl);
    let ml = e - sl;

    // the parser's sign agrees with the canonical sign
    assert(run_end(cs, sl) > sl ==> is_digit(cs[sl]));
    assert(is_digit(cs[sl]));
    assert(cs[0] == '+' ==> is_digit(cs[0]) && sl == 0);
    assert(outer_sign_len(cs) == sl);
    assert(rest =~= spec_number_region(cs));

    // digits of the integer part, transported to `rest`
    lemma_run_end_digits(cs, sl, b);
    assert forall|k: int| 0 <= k < b - sl implies is_digit(#[trigger] rest[k]) by {
        assert(all_digits(cs, sl, b));
        assert(is_digit(cs[k + sl]));
        assert(rest[k] == cs[k + sl]);
    }
    if has_frac {
        lemma_run_end_digits(cs, b + 1, e);
    }
    assert forall|k: int| b + 1 - sl <= k < e - sl implies is_digit(#[trigger] rest[k]) by {
        assert(rest[k] == cs[k + sl]);
    }

    // boundary characters after the digit runs
    assert(suf.len() > 0 ==> !is_digit(suf[0]) && suf[0] != '.' && suf[0] != 'e' && suf[0]
        != 'E');
    assert(e < cs.len() ==> cs[e] == suf[0]);

    // the scanner consumes exactly the mantissa
    assert(lit_sign_len(rest) == 0);
    lemma_run_end_exact(rest, 0, b - sl);
    if has_frac {
        assert(rest[b - sl] == cs[b] == '.');
        lemma_run_end_exact(rest, b - sl + 1, e - sl);
        assert(lit_num_end(rest) == e - sl);
    } else {
        assert(b - sl == ml);
        assert(lit_num_end(rest) == ml);
    }
    assert(flit_scan(rest) == ml);

    // the literal's components
    let lit = rest.take(ml);
    assert(lit.len() == ml);
    assert forall|k: int| 0 <= k < ml implies lit[k] == cs[k + sl] by {
        assert(lit[k] == rest[k]);
    }
    assert(lit_sign_len(lit) == 0);
    assert(lit_neg(lit) == false);
    assert forall|k: int| 0 <= k < b - sl implies is_digit(#[trigger] lit[k]) by {
        assert(lit[k] == cs[k + sl]);
    }
    lemma_run_end_exact(lit, 0, b - sl);
    let iv = digits_val(cs, sl, b);
    lemma_digits_val_offset(lit, cs, 0, b - sl, sl);
    assert(digits_val(lit, 0, b - sl) == iv);
    lemma_digits_pad(cs, sl, b);
    lemma_pow10_pos((b - sl) as nat);

    if has_frac {
        assert(lit[b - sl] == '.');
        assert forall|k: int| b - sl + 1 <= k < ml implies is_digit(#[trigger] lit[k]) by {
            assert(lit[k] == cs[k + sl]);
        }
        lemma_run_end_exact(lit, b - sl + 1, ml);
        let fv = digits_val(cs, b + 1, e);
        lemma_digits_val_offset(lit, cs, b - sl + 1, ml, sl);
        assert(digits_val(lit, b - sl + 1, ml) == fv);
        assert(lit_frac_len(lit) == f);
        assert(lit_num_end(lit) == ml);
        assert(lit_exp(lit) == 0);
        assert(lit_digits(lit) == iv * pow10(f as nat) + fv);
        assert(lit_digits(lit) == mv);
        lemma_digits_pad(cs, b + 1, e);
        lemma_digits_val_last(cs, b + 1, e);
        assert(digit_of(cs[e - 1]) != 0) by {
            if digit_of(cs[e - 1]) == 0 {
                lemma_digit_char_of(cs[e - 1]);
                assert(cs[e - 1] == '0');
            }
        }
        assert(mv % 10 == fv % 10) by {
            lemma_mod_of_combined(iv, fv, f as nat);
        }
        assert(mv % 10 != 0);
        assert(mv != 0);
        lemma_pow5_pos(f as nat);
        lemma_pow10_pos(f as nat);
        assert(mv >= 0) by (nonlinear_arith)
            requires
                iv >= 0 && fv >= 0 && pow10(f as nat) >= 1 && mv == iv * pow10(f as nat) + fv,
        ;
        // no stripping happens
        assert(strip_zeros(mv as nat, f as nat) == (mv as nat, f as nat));
        assert(lit_canon(lit) == DecView { m: mv as nat, s: f as nat, neg: false });
        assert(lit_pinned(lit));
    } else {
        assert(lit_num_end(lit) == ml);
        assert(lit_exp(lit) == 0);
        assert(lit_frac_len(lit) == 0);
        assert(lit_digits(lit) == iv);
        assert(mv == iv);
        if mv == 0 {
            assert(lit_canon(lit) == DecView { m: 0nat, s: 0nat, neg: false });
        } else {
            assert(pow10(0) == 1);
            assert(mv * pow10(0) == mv) by (nonlinear_arith)
                requires
                    pow10(0) == 1,
            ;
            assert(lit_canon(lit) == DecView { m: mv as nat, s: 0nat, neg: false });
        }
        assert(lit_pinned(lit));
    }

    // the parse outcome
    assert(spec_value_pinned(cs));
    assert(spec_suffix_region(cs) =~= suf);
    assert(!spec_malformed(cs));
    let view = spec_parsed_view(cs);
    let base = lit_canon(lit);
    assert(view == if outer_neg(cs) {
        DecView { m: base.m, s: base.s, neg: !base.neg }
    } else {
        base
    });
    assert(view.m == base.m && view.s == base.s);
    assert(outer_neg(cs) <==> sl == 1);

    // the rendered mantissa equals the written mantissa
    let body = spec_dec_str(view);
    lemma_render_matches(cs, view);
    assert(body =~= cs.subrange(0, e));

    // and the suffix token renders back to the written suffix
    lemma_suffix_inverse(suf);
    assert(spec_suffix(
        spec_full_suffix(suf)->Some_0.1,
        spec_full_suffix(suf)->Some_0.0,
    ) =~= suf);
    assert(body + suf =~= cs);
}

/// Digit runs produced by `run_end` really are digits.
proof fn lemma_run_end_digits(s: Seq<char>, i: int, j: int)
    requires
        0 <= i <= s.len(),
        j == run_end(s, i),
    ensures
        i <= j <= s.len(),
        all_digits(s, i, j),
    decreases s.len() - i,
{
    if i < s.len() && is_digit(s[i]) {
        lemma_run_end_digits(s, i + 1, run_end(s, i + 1));
        assert forall|k: int| i <= k < j implies is_digit(#[trigger] s[k]) by {
            if k > i {
                assert(all_digits(s, i + 1, j));
            }
        }
    }
}

/// The combined mantissa has the fraction's last digit.
proof fn lemma_mod_of_combined(iv: int, fv: int, k: nat)
    requires
        iv >= 0,
        fv >= 0,
        k >= 1,
    ensures
        (iv * pow10(k) + fv) % 10 == fv % 10,
{
    lemma_pow10_pos((k - 1) as nat);
    let q = fv / 10;
    let r = fv % 10;
    vstd::arithmetic::div_mod::lemma_fundamental_div_mod(fv, 10);
    assert(iv * pow10(k) + fv == (iv * pow10((k - 1) as nat) + q) * 10 + r) by (nonlinear_arith)
        requires
            pow10(k) == 10 * pow10((k - 1) as nat) && fv == q * 10 + r,
    ;
    assert(iv * pow10((k - 1) as nat) >= 0) by (nonlinear_arith)
        requires
            iv >= 0 && pow10((k - 1) as nat) >= 1,
    ;
    vstd::arithmetic::div_mod::lemma_fundamental_div_mod_converse_mod(
        iv * pow10(k) + fv,
        10,
        iv * pow10((k - 1) as nat) + q,
        r,
    );
}

/// The decimal's printed form equals the canonical mantissa text with its
/// sign.
proof fn lemma_render_matches(cs: Seq<char>, view: DecView)
    requires
        is_canonical_quantity(cs),
        view.m == canon_mantissa(cs),
        view.s == canon_frac_len(cs),
        view.neg == (canon_sign_len(cs) == 1),
        canon_has_frac(cs) ==> view.m > 0,
    ensures
        spec_dec_str(view) =~= cs.subrange(0, canon_mant_end(cs)),
{
    let sl = canon_sign_len(cs);
    let b = canon_int_end(cs);
    let e = canon_mant_end(cs);
    let f = canon_frac_len(cs);
    let iv = digits_val(cs, sl, b);
    lemma_run_end_digits(cs, sl, b);
    lemma_digits_pad(cs, sl, b);
    let idigs = spec_digits(iv as nat);
    let ipad = Seq::new(((b - sl) - idigs.len()) as nat, |x: int| '0');
    assert(ipad + idigs =~= cs.subrange(sl, b));
    // a leading zero only happens for the single digit "0"
    assert(iv > 0 ==> idigs =~= cs.subrange(sl, b)) by {
        if iv > 0 && idigs.len() < b - sl {
            assert((ipad + idigs)[0] == '0');
            assert(cs[sl] == '0');
            assert(b == sl + 1);
            assert(idigs.len() >= 1);
        }
    }
    if !canon_has_frac(cs) {
        assert(view.s == 0);
        if view.m == 0 {
            assert(iv == 0);
            assert(b == sl + 1 && cs[sl] == '0') by {
                if cs[sl] != '0' {
                    lemma_digits_pos(cs, sl, b);
                }
            }
            assert(spec_dec_str(view) =~= (if view.neg {
                seq!['-', '0']
            } else {
                seq!['0']
            }));
            assert(cs.subrange(sl, e) =~= seq!['0']);
        } else {
            assert(spec_digits(view.m).len() >= view.s);
            assert(spec_dec_str(view) =~= (if view.neg {
                seq!['-'] + idigs
            } else {
                idigs
            }));
        }
    } else {
        let fv = digits_val(cs, b + 1, e);
        lemma_run_end_digits(cs, b + 1, e);
        lemma_digits_pad(cs, b + 1, e);
        let fdigs = spec_digits(fv as nat);
        let fpad = Seq::new((f - fdigs.len()) as nat, |x: int| '0');
        assert(fpad + fdigs =~= cs.subrange(b + 1, e));
        let digs = spec_digits(view.m);
        if iv > 0 {
            lemma_digits_combine(iv as nat, fv as nat, f as nat);
            assert(digs =~= idigs + fpad + fdigs);
            assert(digs.len() == idigs.len() + f);
            assert(digs.len() >= view.s);
            let padded = digs;
            assert(spec_dec_str(view) =~= (if view.neg {
                seq!['-']
            } else {
                Seq::<char>::empty()
            }) + padded.take(padded.len() - f) + seq!['.'] + padded.skip(padded.len() - f));
            assert(padded.take(padded.len() - f) =~= idigs);
            assert(padded.skip(padded.len() - f) =~= fpad + fdigs);
        } else {
            // integer part is the single digit 0
            assert(b == sl + 1 && cs[sl] == '0') by {
                if cs[sl] != '0' {
                    lemma_digits_pos(cs, sl, b);
                }
            }
            assert(view.m == fv);
            assert(fdigs == digs);
            assert(digs.len() <= f);
            let padded = if digs.len() >= view.s {
                digs
            } else {
                Seq::new((view.s - digs.len()) as nat, |x: int| '0') + digs
            };
            assert(padded =~= fpad + fdigs);
            assert(padded.len() == f);
            assert(padded.take(padded.len() - f) =~= Seq::<char>::empty());
            assert(spec_dec_str(view) =~= (if view.neg {
                seq!['-']
            } else {
                Seq::<char>::empty()
            }) + seq!['0'] + seq!['.'] + padded);
            assert(cs.subrange(sl, e) =~= seq!['0'] + seq!['.'] + (fpad + fdigs));
        }
    }
    assert(cs.subrange(0, e) =~= (if sl == 1 {
        seq!['-']
    } else {
        Seq::<char>::empty()
    }) + cs.subrange(sl, e));
}

/// A digit run that does not start with zero has a positive value.
proof fn lemma_digits_pos(s: Seq<char>, i: int, j: int)
    requires
        0 <= i < j <= s.len(),
        all_digits(s, i, j),
        s[i] != '0',
    ensures
        digits_val(s, i, j) >= 1,
    decreases j - i,
{
    lemma_digit_char_of(s[i]);
    reveal_with_fuel(digits_val, 2);
    if i == j - 1 {
        assert(digit_of(s[i]) >= 1) by {
            if digit_of(s[i]) == 0 {
                assert(s[i] == '0');
            }
        }
    } else {
        lemma_digits_pos(s, i, j - 1);
        lemma_digit_char_of(s[j - 1]);
        assert(digits_val(s, i, j) == digits_val(s, i, j - 1) * 10 + digit_of(s[j - 1]));
        assert(digits_val(s, i, j - 1) * 10 >= 10) by (nonlinear_arith)
            requires
                digits_val(s, i, j - 1) >= 1,
        ;
    }
}

} // verus!
