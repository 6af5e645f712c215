//! A range-validated integer wrapper: a `Bounded<LOW, HIGH>` holds an `i64`
//! that is known to lie in `[LOW, HIGH]`, so that illegal register indices
//! are unrepresentable.

use vstd::prelude::*;

verus! {

/// Construction failed: the raw value lies outside `[LOW, HIGH]`.
#[derive(Clone, Copy, PartialEq, Eq, Debug)]
pub enum OutOfBounds {
    TooHigh,
    TooLow,
}

/// An integer validated to lie in `[LOW, HIGH]`.
#[derive(Clone, Copy, PartialEq, Eq, Debug)]
pub struct Bounded<const LOW: u64, const HIGH: u64> {
    value: i64,
}

impl<const LOW: u64, const HIGH: u64> Bounded<LOW, HIGH> {
    /// The raw integer this value wraps.
    pub closed spec fn spec_raw(self) -> int {
        self.value as int
    }

    /// Every `Bounded` value lies within its range.
    #[verifier::type_invariant]
    pub open spec fn inv(self) -> bool {
        LOW as int <= self.spec_raw() <= HIGH as int
    }

    /// The in-range value `v`, at the specification level.
    pub closed spec fn spec_make(v: int) -> Self {
        Bounded { value: v as i64 }
    }

    /// `spec_make` wraps exactly the integer it is given.
    pub proof fn lemma_spec_make(v: int)
        requires
            -0x8000_0000_0000_0000 <= v < 0x8000_0000_0000_0000,
        ensures
            Self::spec_make(v).spec_raw() == v,
    {
    }

    /// Validate `raw`: values above `HIGH` fail as `TooHigh`, values below
    /// `LOW` fail as `TooLow`, and anything in range is accepted.
    pub fn try_construct(raw: i64) -> (r: Result<Self, OutOfBounds>)
        ensures
            raw as int > HIGH as int ==> r == Result::<Self, OutOfBounds>::Err(OutOfBounds::TooHigh),
            raw as int <= HIGH as int && (raw as int) < LOW as int ==> r
                == Result::<Self, OutOfBounds>::Err(OutOfBounds::TooLow),
            LOW as int <= raw as int <= HIGH as int ==> (r matches Ok(b) && b.spec_raw() == raw
                && b.inv() && b == Self::spec_make(raw as int)),
    {
        let too_high: bool = raw >= 0 && (raw as u64) > HIGH;
        let too_low: bool = raw < 0 || (raw as u64) < LOW;
        if too_high {
            Err(OutOfBounds::TooHigh)
        } else if too_low {
            Err(OutOfBounds::TooLow)
        } else {
            Ok(Bounded { value: raw })
        }
    }

    /// Recover the raw integer; always succeeds.
    pub fn to_raw(self) -> (r: i64)
        ensures
            r == self.spec_raw(),
    {
        self.value
    }
}

} // verus!
