use vstd::prelude::*;
use vstd::arithmetic::div_mod::lemma_fundamental_div_mod;
use vstd::arithmetic::div_mod::lemma_fundamental_div_mod_converse_div;

use crate::lock::{LockPeriod, NANOS_PER_YEAR, PERCENT};

verus! {

/// One funding event: tokens locked at `deposit_time` under `lock_period`.
///
/// `interest_rate` and `early_withdrawal_penalty` are the period's terms,
/// copied when the deposit is made, in percent.
#[derive(Clone, Copy, Debug, PartialEq, Eq, Structural)]
pub struct TokenDeposit {
    pub amount: u64,
    pub lock_period: LockPeriod,
    pub deposit_time: u64,
    pub interest_rate: u64,
    pub early_withdrawal_penalty: u64,
}

impl TokenDeposit {
    /// A live deposit: it holds tokens and carries its period's terms.
    pub open spec fn well_formed(self) -> bool {
        &&& self.amount > 0
        &&& self.interest_rate == self.lock_period.interest_rate()
        &&& self.early_withdrawal_penalty == self.lock_period.early_withdrawal_penalty()
    }

    /// The lock has run its full duration at time `now`.
    pub open spec fn lock_expired(self, now: u64) -> bool {
        now >= self.deposit_time + self.lock_period.duration_nanos()
    }

    /// Time since the deposit was made (none if `now` reads earlier).
    pub open spec fn elapsed(self, now: u64) -> nat {
        if now >= self.deposit_time {
            (now - self.deposit_time) as nat
        } else {
            0
        }
    }

    /// What the owner receives for `drawn` tokens taken out at `now`:
    /// all of them once the lock has expired, else the part the penalty
    /// leaves, truncated.
    pub open spec fn payout(self, drawn: nat, now: u64) -> nat {
        if self.lock_expired(now) {
            drawn
        } else {
            (drawn * (PERCENT - self.early_withdrawal_penalty) / PERCENT as int) as nat
        }
    }

    /// Simple interest earned from the deposit time to `now` on the current
    /// amount: `amount * rate * elapsed / one year`, truncated.
    pub open spec fn interest(self, now: u64) -> nat {
        (self.amount * self.interest_rate * self.elapsed(now) / (PERCENT * NANOS_PER_YEAR) as int) as nat
    }

    /// The same deposit holding `amount` tokens.
    pub open spec fn with_amount(self, amount: nat) -> TokenDeposit {
        TokenDeposit { amount: amount as u64, ..self }
    }

    /// The deposit after its interest to `now` has been added to it.
    pub open spec fn accrued(self, now: u64) -> TokenDeposit {
        self.with_amount((self.amount + self.interest(now)) as nat)
    }

    /// Whether the lock has expired at `now`.
    pub fn is_lock_expired(&self, now: u64) -> (r: bool)
        ensures
            r == self.lock_expired(now),
    {
        now >= self.deposit_time && now - self.deposit_time >= self.lock_period.duration_nanos()
    }

    /// What the owner receives for `drawn` tokens taken out at `now`.
    pub fn payout_for(&self, drawn: u64, now: u64) -> (r: u64)
        requires
            self.early_withdrawal_penalty <= PERCENT,
        ensures
            r == self.payout(drawn as nat, now),
            r <= drawn,
    {
        if self.is_lock_expired(now) {
            drawn
        } else {
            let keep: u128 = (PERCENT - self.early_withdrawal_penalty) as u128;
            assert(drawn as u128 * keep <= drawn as u128 * 100) by (nonlinear_arith)
                requires keep <= 100;
            let r: u128 = (drawn as u128 * keep) / (PERCENT as u128);
            assert(r <= drawn) by (nonlinear_arith)
                requires r == (drawn as u128 * keep) / 100, keep <= 100;
            r as u64
        }
    }

    /// Interest earned from the deposit time to `now`.
    pub fn interest_at(&self, now: u64) -> (r: u128)
        requires
            self.interest_rate <= PERCENT,
        ensures
            r == self.interest(now),
    {
        let elapsed: u64 = if now >= self.deposit_time { now - self.deposit_time } else { 0 };
        let rate: u128 = self.interest_rate as u128;
        assert(self.amount as u128 * rate <= 0xffff_ffff_ffff_ffff * 100) by (nonlinear_arith)
            requires rate <= 100, self.amount <= 0xffff_ffff_ffff_ffff;
        let a: u128 = self.amount as u128 * rate;
        // Whole years and the rest keep every product within 128 bits.
        let years: u64 = elapsed / NANOS_PER_YEAR;
        let rest: u64 = elapsed % NANOS_PER_YEAR;
        assert(years <= 585);
        assert(a * years <= 0xffff_ffff_ffff_ffff * 100 * 585) by (nonlinear_arith)
            requires a <= 0xffff_ffff_ffff_ffff * 100, years <= 585;
        let whole: u128 = a * years as u128;
        let m: u128 = whole / (PERCENT as u128);
        let k: u128 = whole % (PERCENT as u128);
        assert(a * rest <= 0xffff_ffff_ffff_ffff * 100 * NANOS_PER_YEAR) by (nonlinear_arith)
            requires a <= 0xffff_ffff_ffff_ffff * 100, rest < NANOS_PER_YEAR;
        assert(k * (NANOS_PER_YEAR as u128) <= 100 * NANOS_PER_YEAR) by (nonlinear_arith)
            requires k < 100;
        let x: u128 = k * (NANOS_PER_YEAR as u128) + a * rest as u128;
        let d: u128 = (PERCENT as u128) * (NANOS_PER_YEAR as u128);
        let q: u128 = x / d;
        proof {
            let e = elapsed as int;
            let y = NANOS_PER_YEAR as int;
            lemma_fundamental_div_mod(e, y);
            lemma_fundamental_div_mod(whole as int, 100);
            lemma_fundamental_div_mod(x as int, d as int);
            assert(a * e == (m + q) * d + x % d) by (nonlinear_arith)
                requires
                    e == y * years + rest,
                    whole == a * years,
                    whole == 100 * m + k,
                    x == k * y + a * rest,
                    x == d * q + x % d,
                    d == 100 * y;
            lemma_fundamental_div_mod_converse_div(a * e, d as int, (m + q) as int, (x % d) as int);
            assert(self.elapsed(now) == e);
            assert(self.amount * self.interest_rate * e == a * e);
        }
        m + q
    }
}

/// Sum of the amounts of `ds`.
pub open spec fn deposits_total(ds: Seq<TokenDeposit>) -> nat
    decreases ds.len(),
{
    if ds.len() == 0 {
        0
    } else {
        (ds[0].amount + deposits_total(ds.skip(1))) as nat
    }
}

/// What is left of `ds` after `want` tokens are drawn from it, oldest first:
/// each deposit gives all it holds until the rest of the request is smaller;
/// emptied deposits leave the sequence.
pub open spec fn remaining_after_draw(ds: Seq<TokenDeposit>, want: nat) -> Seq<TokenDeposit>
    decreases ds.len(),
{
    if ds.len() == 0 {
        ds
    } else if want < ds[0].amount {
        seq![ds[0].with_amount((ds[0].amount - want) as nat)] + ds.skip(1)
    } else {
        remaining_after_draw(ds.skip(1), (want - ds[0].amount) as nat)
    }
}

/// What the owner receives when `want` tokens are drawn from `ds` at `now`:
/// the sum, over the deposits drawn from, of each one's payout.
pub open spec fn payout_of_draw(ds: Seq<TokenDeposit>, want: nat, now: u64) -> nat
    decreases ds.len(),
{
    if ds.len() == 0 {
        0
    } else if want < ds[0].amount {
        ds[0].payout(want, now)
    } else {
        (ds[0].payout(ds[0].amount as nat, now) + payout_of_draw(ds.skip(1), (want - ds[0].amount) as nat, now)) as nat
    }
}

/// Sum of the interest that each deposit of `ds` has earned at `now`.
pub open spec fn interest_total(ds: Seq<TokenDeposit>, now: u64) -> nat
    decreases ds.len(),
{
    if ds.len() == 0 {
        0
    } else {
        (ds[0].interest(now) + interest_total(ds.skip(1), now)) as nat
    }
}

/// Every deposit of `ds` with its interest to `now` added.
pub open spec fn accrued_deposits(ds: Seq<TokenDeposit>, now: u64) -> Seq<TokenDeposit> {
    ds.map_values(|d: TokenDeposit| d.accrued(now))
}

/// Every deposit of `ds` is live.
pub open spec fn all_well_formed(ds: Seq<TokenDeposit>) -> bool {
    forall|i: int| 0 <= i < ds.len() ==> (#[trigger] ds[i]).well_formed()
}

} // verus!
