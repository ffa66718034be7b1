//! The quantity-string parser.
//!
//! A quantity string is `[sign] [number] [suffix]`, where the optional sign
//! is `+` or `-`, the number is a floating-point literal consumed by the
//! supplied numeric-literal parser (defaulting to zero when absent), and
//! the suffix is one of the thirteen tokens of the suffix table or empty.
//! After the three parts the input must be exhausted.  The grammar of the
//! number, and exactly which literals the decimal conversion reproduces
//! digit for digit, are written out below as specification functions; the
//! one trusted function is `number_prefix`, which runs the outside
//! numeric-literal parser and the float-to-decimal conversion.

use vstd::prelude::*;

use crate::decimal::{
    dec_neg, dec_new, dec_valid, dview, pow10, strip_zeros, DecView,
};
use crate::format::Format;
use crate::quantity::ParsedQuantity;
use crate::scale::Scale;

verus! {

/// Why a quantity string was rejected.
#[derive(Debug)]
pub enum ParseQuantityError {
    /// The string is empty.
    EmptyString,
    /// The string does not follow the quantity grammar; carries the
    /// unconsumed remainder of the input.
    ParsingFailed(String),
    /// The numeric value cannot be represented by the decimal type
    /// (for instance `nan` or `inf`).
    DecimalParsingFailed,
}

impl ParseQuantityError {
    /// A short description of the failure.
    pub fn message(&self) -> (r: String)
        ensures
            (self matches ParseQuantityError::EmptyString ==> r@ == "empty string"@),
            (self matches ParseQuantityError::ParsingFailed(_) ==> r@ == "quantity parsing failed"@),
            (self matches ParseQuantityError::DecimalParsingFailed ==> r@
                == "decimal parsing failed"@),
    {
        match self {
            ParseQuantityError::EmptyString => "empty string".to_owned(),
            ParseQuantityError::ParsingFailed(_) => "quantity parsing failed".to_owned(),
            ParseQuantityError::DecimalParsingFailed => "decimal parsing failed".to_owned(),
        }
    }
}

/// What the numeric-literal parser found at the start of the input.
enum NumberPrefix {
    /// No numeric literal starts here.
    NoNumber,
    /// A literal started but is malformed beyond repair (an exponent
    /// marker without digits); the whole parse must fail.
    Invalid,
    /// A literal of the given length was consumed but its value has no
    /// decimal representation (`nan`, `inf`, or out of range).
    NotDecimal(usize),
    /// A literal of the given length was consumed and converted.
    Number(usize, rust_decimal::Decimal),
}

pub open spec fn is_digit(c: char) -> bool {
    48 <= c as u32 <= 57
}

pub open spec fn digit_of(c: char) -> int {
    c as u32 - 48
}

/// The first position at or after `i` that does not hold a digit.
pub open spec fn run_end(s: Seq<char>, i: int) -> int
    decreases s.len() - i when 0 <= i <= s.len()
{
    if i < s.len() && is_digit(s[i]) {
        run_end(s, i + 1)
    } else {
        i
    }
}

/// The value of the digits `s[i..j]`.
pub open spec fn digits_val(s: Seq<char>, i: int, j: int) -> int
    decreases j - i,
{
    if i >= j {
        0
    } else {
        digits_val(s, i, j - 1) * 10 + digit_of(s[j - 1])
    }
}

pub open spec fn lit_sign_len(s: Seq<char>) -> int {
    if s.len() > 0 && (s[0] == '+' || s[0] == '-') {
        1
    } else {
        0
    }
}

pub open spec fn lit_neg(s: Seq<char>) -> bool {
    s.len() > 0 && s[0] == '-'
}

/// Where the digits-and-dot part of a literal ends, or -1 when the input
/// does not start with one: after the optional sign either at least one
/// digit (with an optional dot and more digits), or a dot followed by at
/// least one digit.
pub open spec fn lit_num_end(s: Seq<char>) -> int {
    let a = lit_sign_len(s);
    if a < s.len() && is_digit(s[a]) {
        let b = run_end(s, a);
        if b < s.len() && s[b] == '.' {
            run_end(s, b + 1)
        } else {
            b
        }
    } else if a + 1 < s.len() && s[a] == '.' && is_digit(s[a + 1]) {
        run_end(s, a + 1)
    } else {
        -1
    }
}

/// What the numeric-literal grammar does on `s`: a match length when a
/// literal starts the input; -1 when none does; -2 when a literal is
/// followed by an exponent marker without digits, which fails the whole
/// parse rather than backtracking.
pub open spec fn flit_scan(s: Seq<char>) -> int {
    let b = lit_num_end(s);
    if b < 0 {
        -1
    } else if b < s.len() && (s[b] == 'e' || s[b] == 'E') {
        let j = if b + 1 < s.len() && (s[b + 1] == '+' || s[b + 1] == '-') {
            b + 2
        } else {
            b + 1
        };
        if j < s.len() && is_digit(s[j]) {
            run_end(s, j)
        } else {
            -2
        }
    } else {
        b
    }
}

/// The input starts with `nan`, in any casing.
pub open spec fn is_nan_prefix(s: Seq<char>) -> bool {
    s.len() >= 3 && (s[0] == 'n' || s[0] == 'N') && (s[1] == 'a' || s[1] == 'A') && (s[2] == 'n'
        || s[2] == 'N')
}

/// The input starts with `inf`, in any casing.
pub open spec fn is_inf_prefix(s: Seq<char>) -> bool {
    s.len() >= 3 && (s[0] == 'i' || s[0] == 'I') && (s[1] == 'n' || s[1] == 'N') && (s[2] == 'f'
        || s[2] == 'F')
}

/// The significant digits of a matched literal, as one integer: the digits
/// before the dot followed by the digits after it.
pub open spec fn lit_digits(s: Seq<char>) -> int {
    let a = lit_sign_len(s);
    if a < s.len() && is_digit(s[a]) {
        let b = run_end(s, a);
        if b < s.len() && s[b] == '.' {
            let c = run_end(s, b + 1);
            digits_val(s, a, b) * pow10((c - b - 1) as nat) + digits_val(s, b + 1, c)
        } else {
            digits_val(s, a, b)
        }
    } else {
        let c = run_end(s, a + 1);
        digits_val(s, a + 1, c)
    }
}

/// The number of digits after the dot in a matched literal.
pub open spec fn lit_frac_len(s: Seq<char>) -> int {
    let a = lit_sign_len(s);
    if a < s.len() && is_digit(s[a]) {
        let b = run_end(s, a);
        if b < s.len() && s[b] == '.' {
            run_end(s, b + 1) - b - 1
        } else {
            0
        }
    } else {
        run_end(s, a + 1) - a - 1
    }
}

/// The value of the exponent part of a matched literal, 0 when absent.
pub open spec fn lit_exp(s: Seq<char>) -> int {
    let b = lit_num_end(s);
    if 0 <= b < s.len() && (s[b] == 'e' || s[b] == 'E') {
        if b + 1 < s.len() && s[b + 1] == '-' {
            -digits_val(s, b + 2, run_end(s, b + 2))
        } else if b + 1 < s.len() && s[b + 1] == '+' {
            digits_val(s, b + 2, run_end(s, b + 2))
        } else {
            digits_val(s, b + 1, run_end(s, b + 1))
        }
    } else {
        0
    }
}

/// The canonical decimal representation of a matched literal's value
/// `digits * 10^(exp - frac)`: zero collapses to scale 0, an integer value
/// keeps scale 0, and a fractional value has its trailing zeros stripped.
pub open spec fn lit_canon(s: Seq<char>) -> DecView {
    let d = lit_digits(s) as nat;
    let k = lit_exp(s) - lit_frac_len(s);
    if d == 0 {
        DecView { m: 0, s: 0, neg: lit_neg(s) }
    } else if k >= 0 {
        DecView { m: (d * pow10(k as nat)) as nat, s: 0, neg: lit_neg(s) }
    } else {
        let (m, sc) = strip_zeros(d, (-k) as nat);
        DecView { m, s: sc, neg: lit_neg(s) }
    }
}

pub open spec fn pow5(n: nat) -> int
    decreases n,
{
    if n == 0 {
        1
    } else {
        5 * pow5((n - 1) as nat)
    }
}

/// The literals whose decimal conversion is exact, digit for digit: the
/// round trip through the binary floating-point parser reproduces exactly
/// the integers below 2^53 and the fractions whose canonical mantissa is
/// below 2^52 and divisible by 5^scale (the values with an exact binary
/// representation; the conversion then only drops padding zeros).
pub open spec fn lit_pinned(s: Seq<char>) -> bool {
    let c = lit_canon(s);
    c.m == 0 || (c.s == 0 && c.m < 0x20000000000000) || (1 <= c.s <= 28 && c.m < 0x10000000000000
        && c.m % (pow5(c.s) as nat) == 0)
}

/// The decimal that the numeric pipeline produces for a matched literal.
/// The literal parser and the float-to-decimal conversion are pure
/// functions of the consumed text, so the outcome carries a name: `None`
/// when the value has no decimal representation (`nan`, `inf`, out of
/// range), else the representation produced.  Naming it lets callers
/// relate two parses of equal text even where the digits are not pinned.
pub uninterp spec fn lit_decimal(lit: Seq<char>) -> Option<DecView>;

/// Relies on the numeric-literal parser (`nom::number::complete::double`,
/// which recognizes `[+-]? (digits [. digits?] | . digits) ([eE] [+-]?
/// digits)?` or `nan`/`inf` case-insensitively and converts through the
/// platform's float parsing) and on `Decimal::from_f64`, which turns the
/// float back into a decimal, stripping the excess bits of precision.  The
/// consumed prefix is pure ASCII, so its byte and character lengths agree.
/// For a literal in `lit_pinned` the two conversions compose to the
/// identity on the canonical representation; every matched literal's
/// outcome is `lit_decimal` of the consumed text, both conversions being
/// deterministic.
#[verifier::external_body]
fn number_prefix(s: &str) -> (r: NumberPrefix)
    ensures
        r is Invalid <==> flit_scan(s@) == -2,
        r is NoNumber <==> (flit_scan(s@) == -1 && !is_nan_prefix(s@) && !is_inf_prefix(s@)),
        flit_scan(s@) == -1 && (is_nan_prefix(s@) || is_inf_prefix(s@)) ==> r
            == NumberPrefix::NotDecimal(3usize),
        flit_scan(s@) >= 0 ==> (r is Number || r is NotDecimal),
        r is Number ==> (flit_scan(s@) >= 0 && r->Number_0 as int == flit_scan(s@)
            && r->Number_0 <= s@.len() && dec_valid(r->Number_1)),
        flit_scan(s@) >= 0 && r is NotDecimal ==> r == NumberPrefix::NotDecimal(
            flit_scan(s@) as usize,
        ),
        flit_scan(s@) >= 0 && lit_pinned(s@.take(flit_scan(s@))) ==> (r is Number && dview(
            r->Number_1,
        ) == lit_canon(s@.take(flit_scan(s@)))),
        flit_scan(s@) >= 0 ==> (r is Number <==> lit_decimal(s@.take(flit_scan(s@))) is Some),
        r is Number ==> lit_decimal(s@.take(flit_scan(s@))) == Some(dview(r->Number_1)),
{
    match nom::number::complete::double::<&str, nom::error::Error<&str>>(s) {
        Ok((rest, v)) => {
            let n = s.len() - rest.len();
            match rust_decimal::prelude::FromPrimitive::from_f64(v) {
                Some(d) => NumberPrefix::Number(n, d),
                None => NumberPrefix::NotDecimal(n),
            }
        },
        Err(nom::Err::Error(_)) => NumberPrefix::NoNumber,
        Err(_) => NumberPrefix::Invalid,
    }
}


proof fn lemma_run_end_bounds(s: Seq<char>, i: int)
    requires
        0 <= i <= s.len(),
    ensures
        i <= run_end(s, i) <= s.len(),
    decreases s.len() - i,
{
    if i < s.len() && is_digit(s[i]) {
        lemma_run_end_bounds(s, i + 1);
    }
}

/// The literal scanner never claims more characters than the input holds.
proof fn lemma_flit_scan_le(s: Seq<char>)
    ensures
        -2 <= flit_scan(s) <= s.len(),
{
    let a = lit_sign_len(s);
    if a < s.len() && is_digit(s[a]) {
        lemma_run_end_bounds(s, a);
        let b = run_end(s, a);
        if b < s.len() && s[b] == '.' {
            lemma_run_end_bounds(s, b + 1);
        }
    } else if a + 1 < s.len() && s[a] == '.' && is_digit(s[a + 1]) {
        lemma_run_end_bounds(s, a + 1);
    }
    let b = lit_num_end(s);
    if 0 <= b < s.len() && (s[b] == 'e' || s[b] == 'E') {
        let j = if b + 1 < s.len() && (s[b + 1] == '+' || s[b + 1] == '-') {
            b + 2
        } else {
            b + 1
        };
        if j < s.len() && is_digit(s[j]) {
            lemma_run_end_bounds(s, j);
        }
    }
}

/// The (format, scale) pair that a complete suffix region denotes: the
/// empty region is a bare number, and otherwise the region must be exactly
/// one of the thirteen tokens.
pub open spec fn spec_full_suffix(t: Seq<char>) -> Option<(Format, Scale)> {
    if t.len() == 0 {
        Some((Format::DecimalSI, Scale::One))
    } else if t.len() == 1 {
        if t[0] == 'm' {
            Some((Format::DecimalSI, Scale::Milli))
        } else if t[0] == 'k' {
            Some((Format::DecimalSI, Scale::Kilo))
        } else if t[0] == 'M' {
            Some((Format::DecimalSI, Scale::Mega))
        } else if t[0] == 'G' {
            Some((Format::DecimalSI, Scale::Giga))
        } else if t[0] == 'T' {
            Some((Format::DecimalSI, Scale::Tera))
        } else if t[0] == 'P' {
            Some((Format::DecimalSI, Scale::Peta))
        } else if t[0] == 'E' {
            Some((Format::DecimalSI, Scale::Exa))
        } else {
            None
        }
    } else if t.len() == 2 && t[1] == 'i' {
        if t[0] == 'K' {
            Some((Format::BinarySI, Scale::Kilo))
        } else if t[0] == 'M' {
            Some((Format::BinarySI, Scale::Mega))
        } else if t[0] == 'G' {
            Some((Format::BinarySI, Scale::Giga))
        } else if t[0] == 'T' {
            Some((Format::BinarySI, Scale::Tera))
        } else if t[0] == 'P' {
            Some((Format::BinarySI, Scale::Peta))
        } else if t[0] == 'E' {
            Some((Format::BinarySI, Scale::Exa))
        } else {
            None
        }
    } else {
        None
    }
}

/// Matches the whole suffix region against the suffix table.
fn parse_suffix_full(t: &str) -> (r: Option<(Format, Scale)>)
    ensures
        r == spec_full_suffix(t@),
{
    let n = t.unicode_len();
    if n == 0 {
        Some((Format::DecimalSI, Scale::One))
    } else if n == 1 {
        let c = t.get_char(0);
        if c == 'm' {
            Some((Format::DecimalSI, Scale::Milli))
        } else if c == 'k' {
            Some((Format::DecimalSI, Scale::Kilo))
        } else if c == 'M' {
            Some((Format::DecimalSI, Scale::Mega))
        } else if c == 'G' {
            Some((Format::DecimalSI, Scale::Giga))
        } else if c == 'T' {
            Some((Format::DecimalSI, Scale::Tera))
        } else if c == 'P' {
            Some((Format::DecimalSI, Scale::Peta))
        } else if c == 'E' {
            Some((Format::DecimalSI, Scale::Exa))
        } else {
            None
        }
    } else if n == 2 {
        let c0 = t.get_char(0);
        let c1 = t.get_char(1);
        if c1 != 'i' {
            None
        } else if c0 == 'K' {
            Some((Format::BinarySI, Scale::Kilo))
        } else if c0 == 'M' {
            Some((Format::BinarySI, Scale::Mega))
        } else if c0 == 'G' {
            Some((Format::BinarySI, Scale::Giga))
        } else if c0 == 'T' {
            Some((Format::BinarySI, Scale::Tera))
        } else if c0 == 'P' {
            Some((Format::BinarySI, Scale::Peta))
        } else if c0 == 'E' {
            Some((Format::BinarySI, Scale::Exa))
        } else {
            None
        }
    } else {
        None
    }
}

pub open spec fn outer_sign_len(cs: Seq<char>) -> int {
    if cs.len() > 0 && (cs[0] == '+' || cs[0] == '-') {
        1
    } else {
        0
    }
}

pub open spec fn outer_neg(cs: Seq<char>) -> bool {
    cs.len() > 0 && cs[0] == '-'
}

/// The number region of the input, after the outer sign.
pub open spec fn spec_number_region(cs: Seq<char>) -> Seq<char> {
    cs.skip(outer_sign_len(cs))
}

/// How many characters of the number region the number parse consumes.
pub open spec fn spec_number_len(cs: Seq<char>) -> int {
    let rest = spec_number_region(cs);
    let sc = flit_scan(rest);
    if sc >= 0 {
        sc
    } else if is_nan_prefix(rest) || is_inf_prefix(rest) {
        3
    } else {
        0
    }
}

/// The suffix region: whatever follows the sign and the number.
pub open spec fn spec_suffix_region(cs: Seq<char>) -> Seq<char> {
    spec_number_region(cs).skip(spec_number_len(cs))
}

/// The decimal a successful parse carries, as a function of the input
/// alone: the named conversion of the matched literal (zero when no
/// literal starts the region), with the outer sign applied on top; `None`
/// when the number has no decimal representation.
pub open spec fn spec_parsed_decimal(cs: Seq<char>) -> Option<DecView> {
    let rest = spec_number_region(cs);
    let sc = flit_scan(rest);
    let base = if sc >= 0 {
        lit_decimal(rest.take(sc))
    } else if is_nan_prefix(rest) || is_inf_prefix(rest) {
        None
    } else {
        Some(DecView { m: 0, s: 0, neg: false })
    };
    match base {
        Some(v) => Some(
            if outer_neg(cs) {
                DecView { m: v.m, s: v.s, neg: !v.neg }
            } else {
                v
            },
        ),
        None => None,
    }
}

/// The remainder that a grammar failure reports: the number region when
/// the literal itself is malformed, else the unmatched suffix region.
pub open spec fn spec_fail_remainder(cs: Seq<char>) -> Seq<char> {
    if flit_scan(spec_number_region(cs)) == -2 {
        spec_number_region(cs)
    } else {
        spec_suffix_region(cs)
    }
}

/// The input breaks the grammar: either a dangling exponent marker, or a
/// suffix region that is not a suffix token.
pub open spec fn spec_malformed(cs: Seq<char>) -> bool {
    if flit_scan(spec_number_region(cs)) == -2 {
        true
    } else {
        spec_full_suffix(spec_suffix_region(cs)) is None
    }
}

/// The parse result is pinned exactly: either the number region holds a
/// literal whose decimal conversion is exact, or it holds no number at all
/// and the value defaults to zero.
pub open spec fn spec_value_pinned(cs: Seq<char>) -> bool {
    let rest = spec_number_region(cs);
    let sc = flit_scan(rest);
    if sc >= 0 {
        lit_pinned(rest.take(sc))
    } else {
        !is_nan_prefix(rest) && !is_inf_prefix(rest)
    }
}

/// The decimal the parse produces on a pinned input: the literal's
/// canonical representation (or zero), with the sign flipped once more
/// when the outer sign is `-`.
pub open spec fn spec_parsed_view(cs: Seq<char>) -> DecView {
    let rest = spec_number_region(cs);
    let sc = flit_scan(rest);
    let base = if sc >= 0 {
        lit_canon(rest.take(sc))
    } else {
        DecView { m: 0, s: 0, neg: false }
    };
    if outer_neg(cs) {
        DecView { m: base.m, s: base.s, neg: !base.neg }
    } else {
        base
    }
}

/// Parses a quantity string into a quantity.
///
/// The empty string is `EmptyString`; a grammar violation (trailing
/// characters, an unknown suffix, a second dot) is `ParsingFailed` with
/// the unconsumed remainder; a number with no decimal representation
/// (`nan`, `inf`, out of range) is `DecimalParsingFailed`.  A string of
/// sign and suffix alone parses as zero, and a bare number defaults to
/// `DecimalSI`/`One`, which also covers scientific notation.
pub fn parse_quantity_string(input: &str) -> (r: Result<ParsedQuantity, ParseQuantityError>)
    ensures
        input@.len() == 0 <==> r == Err::<ParsedQuantity, _>(ParseQuantityError::EmptyString),
        input@.len() > 0 ==> ((r matches Err(e) && e is ParsingFailed) <==> spec_malformed(
            input@,
        )),
        input@.len() > 0 && !spec_malformed(input@) && spec_value_pinned(input@) ==> (r matches Ok(
            q,
        ) && q.vview() == spec_parsed_view(input@) && Some((q.format, q.scale))
            == spec_full_suffix(spec_suffix_region(input@))),
        input@.len() > 0 && !spec_malformed(input@) && flit_scan(spec_number_region(input@)) == -1
            && (is_nan_prefix(spec_number_region(input@)) || is_inf_prefix(
            spec_number_region(input@),
        )) ==> r == Err::<ParsedQuantity, _>(ParseQuantityError::DecimalParsingFailed),
        r matches Ok(q) ==> q.wf() && input@.len() > 0 && !spec_malformed(input@) && Some(
            (q.format, q.scale),
        ) == spec_full_suffix(spec_suffix_region(input@)),
        r matches Err(e) && e is DecimalParsingFailed ==> input@.len() > 0 && !spec_malformed(
            input@,
        ) && !spec_value_pinned(input@),
        input@.len() > 0 && !spec_malformed(input@) ==> (r is Ok <==> spec_parsed_decimal(input@)
            is Some),
        r matches Ok(q) ==> Some(q.vview()) == spec_parsed_decimal(input@),
        r matches Err(ParseQuantityError::ParsingFailed(rem)) ==> rem@ == spec_fail_remainder(
            input@,
        ),
{
    let total = input.unicode_len();
    if total == 0 {
        return Err(ParseQuantityError::EmptyString);
    }
    let first = input.get_char(0);
    let slen: usize = if first == '+' || first == '-' {
        1
    } else {
        0
    };
    let positive = first != '-';
    let rest = input.substring_char(slen, total);
    let rest_len = total - slen;
    proof {
        assert(rest@ =~= spec_number_region(input@));
        lemma_flit_scan_le(rest@);
    }
    match number_prefix(rest) {
        NumberPrefix::Invalid => {
            proof {
                assert(rest@ =~= spec_fail_remainder(input@));
            }
            Err(ParseQuantityError::ParsingFailed(rest.to_owned()))
        },
        NumberPrefix::NoNumber => {
            proof {
                assert(spec_suffix_region(input@) =~= rest@);
            }
            match parse_suffix_full(rest) {
                None => {
                    proof {
                        assert(rest@ =~= spec_fail_remainder(input@));
                    }
                    Err(ParseQuantityError::ParsingFailed(rest.to_owned()))
                },
                Some((format, scale)) => {
                    let zero = dec_new(0, 0);
                    let value = if positive {
                        zero
                    } else {
                        dec_neg(zero)
                    };
                    Ok(ParsedQuantity { value, scale, format })
                },
            }
        },
        NumberPrefix::NotDecimal(n) => {
            let rem = rest.substring_char(n, rest_len);
            proof {
                assert(rem@ =~= spec_suffix_region(input@));
            }
            match parse_suffix_full(rem) {
                None => {
                    proof {
                        assert(rem@ =~= spec_fail_remainder(input@));
                    }
                    Err(ParseQuantityError::ParsingFailed(rem.to_owned()))
                },
                Some(_) => Err(ParseQuantityError::DecimalParsingFailed),
            }
        },
        NumberPrefix::Number(n, d) => {
            let rem = rest.substring_char(n, rest_len);
            proof {
                assert(rem@ =~= spec_suffix_region(input@));
            }
            match parse_suffix_full(rem) {
                None => {
                    proof {
                        assert(rem@ =~= spec_fail_remainder(input@));
                    }
                    Err(ParseQuantityError::ParsingFailed(rem.to_owned()))
                },
                Some((format, scale)) => {
                    let value = if positive {
                        d
                    } else {
                        dec_neg(d)
                    };
                    Ok(ParsedQuantity { value, scale, format })
                },
            }
        },
    }
}

} // verus!
