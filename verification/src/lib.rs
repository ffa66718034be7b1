//! Parsing, normalization and exact-decimal arithmetic for Kubernetes-style
//! resource quantity strings such as `1Ki`, `500m`, `12M` or `1.5Gi`.
//!
//! A quantity is a decimal value together with a magnitude suffix that is
//! either binary-SI (powers of 1024: `Ki`..`Ei`) or decimal-SI (powers of
//! 1000: `m`, `k`, `M`, .., `E`) or absent.  [`ParsedQuantity`] carries the
//! value as an arbitrary-precision decimal together with its [`Scale`] and
//! [`Format`]; the parser turns a string into such a value and the arithmetic
//! engine combines values across scales and formats.

mod decimal;
mod format;
mod parser;
mod quantity;
mod round_trip;
mod scale;
mod utils;

pub use decimal::{
    canon_of_units, dec_mantissa, dec_mantissa_limit, dec_negative, dec_scale, dec_units,
    dec_valid, dview, lemma_canon_of_valid, pow10, spec_add, spec_dec_str, spec_digit_char,
    spec_digits, spec_mul, spec_round_away, spec_sub, strip_zeros, sum_fits, DecView,
};
pub use format::Format;
pub use parser::{
    digit_of, digits_val, flit_scan, is_digit, is_inf_prefix, is_nan_prefix, lit_canon,
    lit_decimal, lit_digits, lit_exp, lit_frac_len, lit_neg, lit_num_end, lit_pinned,
    lit_sign_len, outer_neg, outer_sign_len, parse_quantity_string, pow5, run_end,
    spec_fail_remainder, spec_full_suffix, spec_malformed, spec_number_len, spec_number_region,
    spec_parsed_decimal, spec_parsed_view, spec_suffix_region, spec_value_pinned,
    ParseQuantityError,
};
pub use quantity::{
    lemma_mul_div_identity, spec_combine_ok, spec_diff_ok, spec_fmt_factor, spec_norm_formats,
    spec_norm_formats_ok, spec_norm_scales, spec_norm_scales_ok, spec_normalized, spec_pow_base,
    spec_rounded, spec_scale_factor, spec_sum_ok, spec_to_bytes_int, spec_to_bytes_uint,
    ParsedQuantity, QView,
};
pub use round_trip::{
    all_digits, canon_frac_len, canon_has_frac, canon_int_end, canon_mant_end, canon_mantissa,
    canon_sign_len, canon_suffix, is_canonical_quantity, lemma_parse_render_round_trip,
};
pub use scale::Scale;
pub use utils::{scale_format_to_string, spec_suffix};
