use vstd::prelude::*;

verus! {

/// Format decides how a `Scale`'s exponent is interpreted: `BinarySI`
/// multiplies by powers of 1024 (`Ki`, `Mi`, ...), `DecimalSI` by powers of
/// 1000 (`k`, `M`, ..., and `m` for milli).
#[derive(Debug, Clone, Copy, PartialEq, Eq, Structural)]
pub enum Format {
    /// e.g. `12Mi` = 12 * 1024^2
    BinarySI,
    /// e.g. `12M` = 12 * 1000^2
    DecimalSI,
}

impl Format {
    /// The base that a scale exponent is applied to under this format.
    pub open spec fn spec_base(self) -> int {
        match self {
            Format::BinarySI => 1024,
            Format::DecimalSI => 1000,
        }
    }
}

impl Default for Format {
    fn default() -> (r: Self)
        ensures
            r == Format::BinarySI,
    {
        Format::BinarySI
    }
}

} // verus!
