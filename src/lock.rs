use vstd::prelude::*;

verus! {

/// Nanoseconds in one day.
pub const NANOS_PER_DAY: u64 = 86_400_000_000_000;

/// Nanoseconds in one (365-day) year: the unit in which interest accrues.
pub const NANOS_PER_YEAR: u64 = 365 * NANOS_PER_DAY;

/// Denominator of every rate: rates are whole percentages.
pub const PERCENT: u64 = 100;

/// How long a deposit stays locked, and the terms that come with it.
#[derive(Clone, Copy, Debug, PartialEq, Eq, Structural)]
pub enum LockPeriod {
    ThreeMonths,
    SixMonths,
    TwelveMonths,
}

impl LockPeriod {
    pub open spec fn spec_interest_rate(&self) -> u64 {
        match self {
            LockPeriod::ThreeMonths => 5,
            LockPeriod::SixMonths => 7,
            LockPeriod::TwelveMonths => 10,
        }
    }

    pub open spec fn spec_early_withdrawal_penalty(&self) -> u64 {
        match self {
            LockPeriod::ThreeMonths => 2,
            LockPeriod::SixMonths => 5,
            LockPeriod::TwelveMonths => 10,
        }
    }

    pub open spec fn spec_duration_nanos(&self) -> u64 {
        match self {
            LockPeriod::ThreeMonths => (90 * NANOS_PER_DAY) as u64,
            LockPeriod::SixMonths => (180 * NANOS_PER_DAY) as u64,
            LockPeriod::TwelveMonths => (365 * NANOS_PER_DAY) as u64,
        }
    }

    /// Annual simple interest, in percent.
    #[verifier::when_used_as_spec(spec_interest_rate)]
    pub fn interest_rate(&self) -> (r: u64)
        ensures
            r == self.spec_interest_rate(),
            r <= PERCENT,
    {
        match self {
            LockPeriod::ThreeMonths => 5,
            LockPeriod::SixMonths => 7,
            LockPeriod::TwelveMonths => 10,
        }
    }

    /// Share of a withdrawal forfeited before the lock ends, in percent.
    #[verifier::when_used_as_spec(spec_early_withdrawal_penalty)]
    pub fn early_withdrawal_penalty(&self) -> (r: u64)
        ensures
            r == self.spec_early_withdrawal_penalty(),
            r <= PERCENT,
    {
        match self {
            LockPeriod::ThreeMonths => 2,
            LockPeriod::SixMonths => 5,
            LockPeriod::TwelveMonths => 10,
        }
    }

    /// Length of the lock in nanoseconds (90, 180 or 365 days).
    #[verifier::when_used_as_spec(spec_duration_nanos)]
    pub fn duration_nanos(&self) -> (r: u64)
        ensures
            r == self.spec_duration_nanos(),
    {
        match self {
            LockPeriod::ThreeMonths => 90 * NANOS_PER_DAY,
            LockPeriod::SixMonths => 180 * NANOS_PER_DAY,
            LockPeriod::TwelveMonths => 365 * NANOS_PER_DAY,
        }
    }
}

} // verus!
