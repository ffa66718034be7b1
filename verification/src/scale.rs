use vstd::prelude::*;

verus! {

/// Scale names the base-10 magnitude tier of a quantity: the suffix `k`/`Ki`
/// sits at `Kilo`, `M`/`Mi` at `Mega`, and so on.  Whether a tier multiplies
/// by a power of 1000 or of 1024 is decided by the quantity's `Format`, not
/// by the scale itself.
#[derive(Debug, Clone, Copy, PartialEq, Eq, Structural)]
pub enum Scale {
    Milli,
    One,
    Kilo,
    Mega,
    Giga,
    Tera,
    Peta,
    Exa,
}

impl Scale {
    /// The integer exponent of the tier: `Milli` is -1, `One` is 0, `Kilo`
    /// is 1, up to `Exa` at 6.
    pub open spec fn spec_exponent(self) -> int {
        match self {
            Scale::Milli => -1,
            Scale::One => 0,
            Scale::Kilo => 1,
            Scale::Mega => 2,
            Scale::Giga => 3,
            Scale::Tera => 4,
            Scale::Peta => 5,
            Scale::Exa => 6,
        }
    }

    /// Projects the tier onto its integer exponent.
    pub fn exponent(&self) -> (e: i32)
        ensures
            e as int == self.spec_exponent(),
    {
        match self {
            Scale::Milli => -1,
            Scale::One => 0,
            Scale::Kilo => 1,
            Scale::Mega => 2,
            Scale::Giga => 3,
            Scale::Tera => 4,
            Scale::Peta => 5,
            Scale::Exa => 6,
        }
    }

    /// The inverse of `exponent`: succeeds exactly on the range -1..=6.
    pub fn try_from_exponent(value: i32) -> (r: Result<Scale, ()>)
        ensures
            -1 <= value <= 6 <==> r.is_ok(),
            r matches Ok(s) ==> s.spec_exponent() == value as int,
    {
        match value {
            -1 => Ok(Scale::Milli),
            0 => Ok(Scale::One),
            1 => Ok(Scale::Kilo),
            2 => Ok(Scale::Mega),
            3 => Ok(Scale::Giga),
            4 => Ok(Scale::Tera),
            5 => Ok(Scale::Peta),
            6 => Ok(Scale::Exa),
            _ => Err(()),
        }
    }
}

impl Default for Scale {
    fn default() -> (r: Self)
        ensures
            r == Scale::One,
    {
        Scale::One
    }
}

} // verus!
