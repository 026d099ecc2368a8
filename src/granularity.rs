use vstd::prelude::*;

verus! {

/// The time bucket of a candle series.
#[derive(Clone, Copy, Debug, PartialEq, Eq, Structural)]
pub enum Granularity {
    /// One candle per day.
    D,
    /// One candle per week.
    W,
    /// One candle per month.
    M,
}

impl Granularity {
    /// The upstream code of the granularity.
    pub open spec fn spec_code(self) -> char {
        match self {
            Granularity::D => 'D',
            Granularity::W => 'W',
            Granularity::M => 'M',
        }
    }

    /// The one-letter code used in requests and in table names.
    pub fn code(&self) -> (r: char)
        ensures
            r == self.spec_code(),
    {
        match self {
            Granularity::D => 'D',
            Granularity::W => 'W',
            Granularity::M => 'M',
        }
    }
}

} // verus!
