use vstd::prelude::*;

verus! {

/// An exact nonnegative rational, kept as a numerator and a denominator.
///
/// The metric engines return one of these wherever the mathematical result is
/// a quotient (an average, a relative frequency, a variance).  The value is
/// `num / den`; nothing is reduced, so the two fields also tell the caller
/// which sum and which count produced the quotient.  A denominator of zero
/// encodes a division by zero in the defining formula and is left to the
/// caller to interpret, exactly as the corresponding floating-point division
/// would have been.
#[derive(Clone, Copy, PartialEq, Eq, Structural, Debug)]
pub struct Ratio {
    pub num: u128,
    pub den: u128,
}

impl Ratio {
    /// Two ratios stand for the same rational number.
    pub open spec fn same_value(self, other: Ratio) -> bool {
        self.num * other.den == other.num * self.den
    }

    pub fn new(num: u128, den: u128) -> (r: Ratio)
        ensures
            r.num == num,
            r.den == den,
    {
        Ratio { num, den }
    }
}

} // verus!
