use vstd::prelude::*;

use crate::deposit::{
    accrued_deposits, all_well_formed, deposits_total, interest_total, payout_of_draw,
    remaining_after_draw, TokenDeposit,
};
use crate::lock::PERCENT;

verus! {

/// Everything the ledger records for one user.
///
/// `deposits` is in the order they were made, oldest first.
#[derive(Clone, Debug)]
pub struct UserBalance {
    pub total_balance: u64,
    pub locked_balance: u64,
    pub available_balance: u64,
    pub deposits: Vec<TokenDeposit>,
    pub rewards_earned: u64,
}

/// The mathematical content of a [`UserBalance`].
pub struct BalanceView {
    pub total_balance: nat,
    pub locked_balance: nat,
    pub available_balance: nat,
    pub deposits: Seq<TokenDeposit>,
    pub rewards_earned: nat,
}

impl View for UserBalance {
    type V = BalanceView;

    open spec fn view(&self) -> BalanceView {
        BalanceView {
            total_balance: self.total_balance as nat,
            locked_balance: self.locked_balance as nat,
            available_balance: self.available_balance as nat,
            deposits: self.deposits@,
            rewards_earned: self.rewards_earned as nat,
        }
    }
}

impl BalanceView {
    /// The record a user has before anything is minted for them.
    pub open spec fn empty() -> BalanceView {
        BalanceView {
            total_balance: 0,
            locked_balance: 0,
            available_balance: 0,
            deposits: Seq::empty(),
            rewards_earned: 0,
        }
    }

    /// Every counter fits in a `u64`, the balances agree with each other and
    /// with the deposits, and every deposit is live.
    pub open spec fn wf(self) -> bool {
        &&& self.total_balance <= u64::MAX
        &&& self.locked_balance <= u64::MAX
        &&& self.available_balance <= u64::MAX
        &&& self.rewards_earned <= u64::MAX
        &&& self.total_balance == self.locked_balance + self.available_balance
        &&& self.total_balance == deposits_total(self.deposits)
        &&& all_well_formed(self.deposits)
    }

    /// The record after `d` is appended as its newest deposit.
    pub open spec fn after_mint(self, d: TokenDeposit) -> BalanceView {
        BalanceView {
            total_balance: self.total_balance + d.amount as nat,
            locked_balance: self.locked_balance + d.amount as nat,
            deposits: self.deposits.push(d),
            ..self
        }
    }

    /// The record after `amount` tokens are drawn from the deposits: the
    /// total and the locked balance fall by `amount` (the locked balance not
    /// below zero), and the available balance is what remains of the total.
    pub open spec fn after_burn(self, amount: nat) -> BalanceView {
        let total = (self.total_balance - amount) as nat;
        let locked = if self.locked_balance >= amount {
            (self.locked_balance - amount) as nat
        } else {
            0
        };
        BalanceView {
            total_balance: total,
            locked_balance: locked,
            available_balance: (total - locked) as nat,
            deposits: remaining_after_draw(self.deposits, amount),
            ..self
        }
    }

    /// Interest that the deposits have earned at `now`.
    pub open spec fn rewards_due(self, now: u64) -> nat {
        interest_total(self.deposits, now)
    }

    /// The interest due at `now` can be credited without a balance passing
    /// the largest `u64`.
    pub open spec fn rewards_fit(self, now: u64) -> bool {
        &&& self.total_balance + self.rewards_due(now) <= u64::MAX
        &&& self.rewards_earned + self.rewards_due(now) <= u64::MAX
    }

    /// The record after the interest due at `now` is added to each deposit,
    /// to the total, to the locked balance and to the rewards earned.
    pub open spec fn after_rewards(self, now: u64) -> BalanceView {
        let r = self.rewards_due(now);
        BalanceView {
            total_balance: self.total_balance + r,
            locked_balance: self.locked_balance + r,
            deposits: accrued_deposits(self.deposits, now),
            rewards_earned: self.rewards_earned + r,
            ..self
        }
    }
}

proof fn lemma_total_prepend(d: TokenDeposit, ds: Seq<TokenDeposit>)
    ensures
        deposits_total(seq![d] + ds) == d.amount + deposits_total(ds),
{
    let s = seq![d] + ds;
    assert(s.skip(1) =~= ds);
}

proof fn lemma_total_push(ds: Seq<TokenDeposit>, d: TokenDeposit)
    ensures
        deposits_total(ds.push(d)) == deposits_total(ds) + d.amount,
    decreases ds.len(),
{
    if ds.len() > 0 {
        assert(ds.push(d).skip(1) =~= ds.skip(1).push(d));
        assert(ds.push(d)[0] == ds[0]);
        lemma_total_push(ds.skip(1), d);
    } else {
        assert(ds.push(d).skip(1) =~= Seq::<TokenDeposit>::empty());
        assert(deposits_total(ds.push(d).skip(1)) == 0);
        assert(deposits_total(ds) == 0);
    }
}

proof fn lemma_draw_total(ds: Seq<TokenDeposit>, want: nat)
    requires
        want <= deposits_total(ds),
    ensures
        deposits_total(remaining_after_draw(ds, want)) + want == deposits_total(ds),
        all_well_formed(ds) ==> all_well_formed(remaining_after_draw(ds, want)),
    decreases ds.len(),
{
    if ds.len() > 0 {
        if want < ds[0].amount {
            let d = ds[0].with_amount((ds[0].amount - want) as nat);
            lemma_total_prepend(d, ds.skip(1));
            let r = seq![d] + ds.skip(1);
            if all_well_formed(ds) {
                assert forall|i: int| 0 <= i < r.len() implies (#[trigger] r[i]).well_formed() by {
                    if i > 0 {
                        assert(r[i] == ds[i]);
                    }
                }
            }
        } else {
            lemma_draw_total(ds.skip(1), (want - ds[0].amount) as nat);
            if all_well_formed(ds) {
                assert forall|i: int| 0 <= i < ds.skip(1).len() implies (#[trigger] ds.skip(1)[i]).well_formed() by {
                    assert(ds.skip(1)[i] == ds[i + 1]);
                }
            }
        }
    }
}

proof fn lemma_accrued_total(ds: Seq<TokenDeposit>, now: u64)
    requires
        deposits_total(ds) + interest_total(ds, now) <= u64::MAX,
    ensures
        deposits_total(accrued_deposits(ds, now)) == deposits_total(ds) + interest_total(ds, now),
        all_well_formed(ds) ==> all_well_formed(accrued_deposits(ds, now)),
    decreases ds.len(),
{
    let a = accrued_deposits(ds, now);
    if ds.len() > 0 {
        let rest = ds.skip(1);
        assert(a.skip(1) =~= accrued_deposits(rest, now));
        lemma_accrued_total(rest, now);
        assert(a[0] == ds[0].accrued(now));
        if all_well_formed(ds) {
            assert(all_well_formed(rest)) by {
                assert forall|i: int| 0 <= i < rest.len() implies (#[trigger] rest[i]).well_formed() by {
                    assert(rest[i] == ds[i + 1]);
                }
            }
            assert forall|i: int| 0 <= i < a.len() implies (#[trigger] a[i]).well_formed() by {
                if i > 0 {
                    assert(a[i] == a.skip(1)[i - 1]);
                } else {
                    assert(ds[0].well_formed());
                }
            }
        }
    } else {
        assert(deposits_total(a) == 0);
    }
}

/// Appending a live deposit whose amount the total can take keeps a record
/// well formed.
pub proof fn lemma_mint_keeps_wf(b: BalanceView, d: TokenDeposit)
    requires
        b.wf(),
        d.well_formed(),
        b.total_balance + d.amount <= u64::MAX,
    ensures
        b.after_mint(d).wf(),
{
    lemma_total_push(b.deposits, d);
    let ds = b.deposits.push(d);
    assert forall|i: int| 0 <= i < ds.len() implies (#[trigger] ds[i]).well_formed() by {
        if i < b.deposits.len() {
            assert(ds[i] == b.deposits[i]);
        }
    }
}

/// Drawing at most the total keeps a record well formed.
pub proof fn lemma_burn_keeps_wf(b: BalanceView, amount: nat)
    requires
        b.wf(),
        amount <= b.total_balance,
    ensures
        b.after_burn(amount).wf(),
{
    lemma_draw_total(b.deposits, amount);
}

/// Crediting interest that fits keeps a record well formed.
pub proof fn lemma_rewards_keep_wf(b: BalanceView, now: u64)
    requires
        b.wf(),
        b.rewards_fit(now),
    ensures
        b.after_rewards(now).wf(),
{
    lemma_accrued_total(b.deposits, now);
}

proof fn lemma_interest_total_zero(ds: Seq<TokenDeposit>, now: u64)
    requires
        forall|i: int| 0 <= i < ds.len() ==> now <= (#[trigger] ds[i]).deposit_time,
    ensures
        interest_total(ds, now) == 0,
    decreases ds.len(),
{
    if ds.len() > 0 {
        let rest = ds.skip(1);
        assert forall|i: int| 0 <= i < rest.len() implies now <= (#[trigger] rest[i]).deposit_time by {
            assert(rest[i] == ds[i + 1]);
        }
        lemma_interest_total_zero(rest, now);
        assert(ds[0].elapsed(now) == 0 || now == ds[0].deposit_time);
        assert(ds[0].elapsed(now) == 0);
        assert(ds[0].amount * ds[0].interest_rate * 0int == 0) by (nonlinear_arith);
    }
}

/// Interest needs time: where no deposit was made before `now`, nothing is
/// due at `now`, and crediting it fits in a well-formed record.
pub proof fn lemma_no_rewards_before_time_passes(b: BalanceView, now: u64)
    requires
        forall|i: int| 0 <= i < b.deposits.len() ==> now <= (#[trigger] b.deposits[i]).deposit_time,
    ensures
        b.rewards_due(now) == 0,
        b.wf() ==> b.rewards_fit(now),
{
    lemma_interest_total_zero(b.deposits, now);
}

impl UserBalance {
    /// An empty record.
    pub fn new() -> (r: UserBalance)
        ensures
            r@ == BalanceView::empty(),
    {
        let r = UserBalance {
            total_balance: 0,
            locked_balance: 0,
            available_balance: 0,
            deposits: Vec::new(),
            rewards_earned: 0,
        };
        assert(r@.deposits =~= Seq::<TokenDeposit>::empty());
        r
    }

    /// A copy of this record.
    pub fn snapshot(&self) -> (r: UserBalance)
        ensures
            r@ == self@,
    {
        let mut deposits: Vec<TokenDeposit> = Vec::new();
        let n = self.deposits.len();
        let mut i: usize = 0;
        while i < n
            invariant
                n == self.deposits.len(),
                i <= n,
                deposits@ =~= self.deposits@.take(i as int),
            decreases n - i,
        {
            deposits.push(self.deposits[i]);
            i = i + 1;
        }
        assert(deposits@ =~= self.deposits@);
        UserBalance {
            total_balance: self.total_balance,
            locked_balance: self.locked_balance,
            available_balance: self.available_balance,
            deposits,
            rewards_earned: self.rewards_earned,
        }
    }

    /// Appends `d` as the newest deposit and adds its amount to the total and
    /// to the locked balance.
    pub fn add_deposit(&mut self, d: TokenDeposit)
        requires
            old(self)@.wf(),
            d.well_formed(),
            old(self).total_balance + d.amount <= u64::MAX,
        ensures
            final(self)@ == old(self)@.after_mint(d),
            final(self)@.wf(),
    {
        proof {
            lemma_mint_keeps_wf(self@, d);
        }
        self.total_balance = self.total_balance + d.amount;
        self.locked_balance = self.locked_balance + d.amount;
        self.deposits.push(d);
        assert(self@.deposits == old(self)@.deposits.push(d));
    }

    /// Draws `amount` tokens from the deposits, oldest first, and returns what
    /// the owner receives: a deposit whose lock has expired at `now` pays in
    /// full, any other pays what its penalty leaves (truncated) of the
    /// tokens drawn from it.
    pub fn withdraw(&mut self, amount: u64, now: u64) -> (r: u64)
        requires
            old(self)@.wf(),
            amount <= old(self).total_balance,
        ensures
            final(self)@ == old(self)@.after_burn(amount as nat),
            final(self)@.wf(),
            r == payout_of_draw(old(self).deposits@, amount as nat, now),
            r <= amount,
    {
        let ghost ds = self.deposits@;
        let n = self.deposits.len();
        let mut kept: Vec<TokenDeposit> = Vec::new();
        let mut left: u64 = amount;
        let mut paid: u64 = 0;
        let mut i: usize = 0;
        assert(ds.skip(0) =~= ds);
        assert(kept@ + remaining_after_draw(ds, amount as nat) =~= remaining_after_draw(ds, amount as nat));
        while i < n
            invariant
                ds == self.deposits@,
                n == ds.len(),
                i <= n,
                all_well_formed(ds),
                left <= amount,
                paid <= amount - left,
                kept@ + remaining_after_draw(ds.skip(i as int), left as nat)
                    == remaining_after_draw(ds, amount as nat),
                paid + payout_of_draw(ds.skip(i as int), left as nat, now)
                    == payout_of_draw(ds, amount as nat, now),
            decreases n - i,
        {
            let d = self.deposits[i];
            let ghost tail = ds.skip(i as int);
            assert(tail[0] == d);
            assert(tail.skip(1) =~= ds.skip(i + 1));
            assert(d.well_formed());
            if left < d.amount {
                let p = d.payout_for(left, now);
                let reduced = TokenDeposit { amount: d.amount - left, ..d };
                assert(reduced == d.with_amount((d.amount - left) as nat));
                assert(kept@.push(reduced) + ds.skip(i + 1) =~= kept@ + (seq![reduced] + ds.skip(i + 1)));
                kept.push(reduced);
                paid = paid + p;
                left = 0;
                assert(remaining_after_draw(ds.skip(i + 1), 0) == ds.skip(i + 1)) by {
                    if ds.skip(i + 1).len() > 0 {
                        assert(ds[i + 1].well_formed());
                        assert(ds.skip(i + 1)[0] == ds[i + 1]);
                        assert(seq![ds[i + 1].with_amount(ds[i + 1].amount as nat)] + ds.skip(i + 1).skip(1) =~= ds.skip(i + 1));
                    }
                }
                assert(payout_of_draw(ds.skip(i + 1), 0, now) == 0) by {
                    if ds.skip(i + 1).len() > 0 {
                        assert(ds[i + 1].well_formed());
                        assert(ds.skip(i + 1)[0] == ds[i + 1]);
                        assert(ds[i + 1].payout(0, now) == 0);
                    }
                }
            } else {
                let p = d.payout_for(d.amount, now);
                paid = paid + p;
                left = left - d.amount;
            }
            i = i + 1;
        }
        assert(ds.skip(n as int) =~= Seq::<TokenDeposit>::empty());
        assert(kept@ =~= kept@ + ds.skip(n as int));
        proof {
            lemma_draw_total(ds, amount as nat);
        }
        self.deposits = kept;
        self.total_balance = self.total_balance - amount;
        self.locked_balance = if self.locked_balance >= amount { self.locked_balance - amount } else { 0 };
        self.available_balance = self.total_balance - self.locked_balance;
        paid
    }

    /// Credits the interest that each deposit has earned at `now`, and
    /// returns the sum credited; `None`, with nothing changed, where that
    /// sum would take a balance past the largest `u64`.
    ///
    /// Interest runs from each deposit's own `deposit_time`, which is never
    /// moved: a second call after more time has passed credits again the
    /// interval that the first call already credited, on the grown amount.
    /// This is the ledger's chosen rule; a caller that wants each interval
    /// credited once must itself keep track of when it last called.
    pub fn accrue(&mut self, now: u64) -> (r: Option<u64>)
        requires
            old(self)@.wf(),
        ensures
            old(self)@.rewards_fit(now) ==> r == Some(old(self)@.rewards_due(now) as u64)
                && final(self)@ == old(self)@.after_rewards(now),
            !old(self)@.rewards_fit(now) ==> r is None && final(self)@ == old(self)@,
            final(self)@.wf(),
    {
        let ghost ds = self.deposits@;
        let n = self.deposits.len();
        let total = self.total_balance;
        let mut grown: Vec<TokenDeposit> = Vec::new();
        let mut sum: u64 = 0;
        let mut seen: u64 = 0;
        let mut i: usize = 0;
        assert(ds.skip(0) =~= ds);
        while i < n
            invariant
                ds == self.deposits@,
                self@ == old(self)@,
                old(self)@.wf(),
                n == ds.len(),
                i <= n,
                all_well_formed(ds),
                total == deposits_total(ds),
                seen + deposits_total(ds.skip(i as int)) == total,
                sum + interest_total(ds.skip(i as int), now) == interest_total(ds, now),
                total + sum <= u64::MAX,
                grown@ =~= accrued_deposits(ds, now).take(i as int),
            decreases n - i,
        {
            let d = self.deposits[i];
            let ghost tail = ds.skip(i as int);
            assert(tail[0] == d);
            assert(tail.skip(1) =~= ds.skip(i + 1));
            assert(d.well_formed());
            let gain = d.interest_at(now);
            if gain > (u64::MAX - total - sum) as u128 {
                return None;
            }
            let g = gain as u64;
            let next = TokenDeposit { amount: d.amount + g, ..d };
            assert(next == d.accrued(now));
            grown.push(next);
            sum = sum + g;
            seen = seen + d.amount;
            i = i + 1;
        }
        if sum > u64::MAX - self.rewards_earned {
            return None;
        }
        assert(ds.skip(n as int) =~= Seq::<TokenDeposit>::empty());
        assert(grown@ =~= accrued_deposits(ds, now));
        proof {
            lemma_accrued_total(ds, now);
        }
        self.deposits = grown;
        self.total_balance = self.total_balance + sum;
        self.locked_balance = self.locked_balance + sum;
        self.rewards_earned = self.rewards_earned + sum;
        Some(sum)
    }
}

} // verus!
