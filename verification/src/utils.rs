use vstd::prelude::*;

use crate::format::Format;
use crate::scale::Scale;

verus! {

/// The suffix token that a (scale, format) pair renders as.  `Milli`
/// under `BinarySI` has no token of its own (no binary milli suffix
/// exists); it renders empty like `One`.
pub open spec fn spec_suffix(scale: Scale, format: Format) -> Seq<char> {
    match format {
        Format::BinarySI => match scale {
            Scale::Milli => Seq::<char>::empty(),
            Scale::One => Seq::<char>::empty(),
            Scale::Kilo => seq!['K', 'i'],
            Scale::Mega => seq!['M', 'i'],
            Scale::Giga => seq!['G', 'i'],
            Scale::Tera => seq!['T', 'i'],
            Scale::Peta => seq!['P', 'i'],
            Scale::Exa => seq!['E', 'i'],
        },
        Format::DecimalSI => match scale {
            Scale::Milli => seq!['m'],
            Scale::One => Seq::<char>::empty(),
            Scale::Kilo => seq!['k'],
            Scale::Mega => seq!['M'],
            Scale::Giga => seq!['G'],
            Scale::Tera => seq!['T'],
            Scale::Peta => seq!['P'],
            Scale::Exa => seq!['E'],
        },
    }
}

/// Returns the string representation of the scale and format.
pub fn scale_format_to_string(scale: &Scale, format: &Format) -> (r: String)
    ensures
        r@ == spec_suffix(*scale, *format),
{
    let lit: &str = match format {
        Format::BinarySI => match scale {
            Scale::Milli => "",
            Scale::One => "",
            Scale::Kilo => "Ki",
            Scale::Mega => "Mi",
            Scale::Giga => "Gi",
            Scale::Tera => "Ti",
            Scale::Peta => "Pi",
            Scale::Exa => "Ei",
        },
        Format::DecimalSI => match scale {
            Scale::Milli => "m",
            Scale::One => "",
            Scale::Kilo => "k",
            Scale::Mega => "M",
            Scale::Giga => "G",
            Scale::Tera => "T",
            Scale::Peta => "P",
            Scale::Exa => "E",
        },
    };
    proof {
        reveal_strlit("");
        reveal_strlit("Ki");
        reveal_strlit("Mi");
        reveal_strlit("Gi");
        reveal_strlit("Ti");
        reveal_strlit("Pi");
        reveal_strlit("Ei");
        reveal_strlit("m");
        reveal_strlit("k");
        reveal_strlit("M");
        reveal_strlit("G");
        reveal_strlit("T");
        reveal_strlit("P");
        reveal_strlit("E");
    }
    let r = lit.to_owned();
    proof {
        assert(r@ =~= spec_suffix(*scale, *format));
    }
    r
}

} // verus!
