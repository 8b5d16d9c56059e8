use vstd::prelude::*;

use crate::balance::{
    lemma_burn_keeps_wf, lemma_mint_keeps_wf, lemma_rewards_keep_wf, BalanceView, UserBalance,
};
use crate::deposit::{deposits_total, payout_of_draw, TokenDeposit};
use crate::bytes::{bytes_of, same_bytes};
use crate::lock::LockPeriod;

verus! {

/// Tokens minted for each thousand units of the source currency
/// (an exchange rate of 0.012).
pub const TOKENS_PER_THOUSAND: u64 = 12;

/// Why an operation was refused. A refused operation changes nothing.
#[derive(Clone, Copy, Debug, PartialEq, Eq, Structural)]
pub enum LedgerError {
    /// The amount is zero.
    InvalidAmount,
    /// The caller has no balance record.
    UserNotFound,
    /// The deposits hold fewer tokens than were asked for.
    InsufficientBalance,
    /// A balance would pass the largest `u64`.
    Overflow,
}

impl LedgerError {
    pub open spec fn spec_message(self) -> Seq<char> {
        match self {
            LedgerError::InvalidAmount => "Amount must be greater than 0"@,
            LedgerError::UserNotFound => "User balance not found"@,
            LedgerError::InsufficientBalance => "Insufficient total balance"@,
            LedgerError::Overflow => "Balance would overflow"@,
        }
    }

    /// A sentence that describes the error.
    pub fn message(&self) -> (r: String)
        ensures
            r@ == self.spec_message(),
    {
        match self {
            LedgerError::InvalidAmount => "Amount must be greater than 0".to_owned(),
            LedgerError::UserNotFound => "User balance not found".to_owned(),
            LedgerError::InsufficientBalance => "Insufficient total balance".to_owned(),
            LedgerError::Overflow => "Balance would overflow".to_owned(),
        }
    }
}

/// Outcome of a mint or a burn: a token amount, or why it was refused.
#[derive(Clone, Copy, Debug, PartialEq, Eq, Structural)]
pub enum MintResult {
    Success(u64),
    Failure(LedgerError),
}

impl MintResult {
    /// Whether the operation succeeded.
    pub fn is_ok(&self) -> (r: bool)
        ensures
            r == (*self is Success),
    {
        match self {
            MintResult::Success(_) => true,
            MintResult::Failure(_) => false,
        }
    }

    /// Whether the operation was refused.
    pub fn is_err(&self) -> (r: bool)
        ensures
            r == (*self is Failure),
    {
        !self.is_ok()
    }

    /// The token amount of a success.
    pub fn unwrap(self) -> (r: u64)
        requires
            self is Success,
        ensures
            self == MintResult::Success(r),
    {
        match self {
            MintResult::Success(t) => t,
            MintResult::Failure(_) => 0,
        }
    }

    /// The error of a refusal.
    pub fn unwrap_err(self) -> (r: LedgerError)
        requires
            self is Failure,
        ensures
            self == MintResult::Failure(r),
    {
        match self {
            MintResult::Failure(e) => e,
            MintResult::Success(_) => LedgerError::InvalidAmount,
        }
    }
}

/// The balance record of each user, keyed by the user's identity bytes.
pub type LedgerView = Map<Seq<u8>, BalanceView>;

/// Every record of `m` is well formed.
pub open spec fn records_consistent(m: LedgerView) -> bool {
    forall|who: Seq<u8>| #[trigger] m.contains_key(who) ==> m[who].wf()
}

/// The record of `who`, or an empty one where there is none yet.
pub open spec fn record_of(m: LedgerView, who: Seq<u8>) -> BalanceView {
    if m.contains_key(who) {
        m[who]
    } else {
        BalanceView::empty()
    }
}

/// Tokens for `amount` units of the source currency, truncated.
pub open spec fn tokens_for_amount(amount: nat) -> nat {
    (amount * TOKENS_PER_THOUSAND / 1000) as nat
}

/// The deposit that minting `amount` units under `period` at `now` makes.
pub open spec fn minted_deposit(amount: u64, period: LockPeriod, now: u64) -> TokenDeposit {
    TokenDeposit {
        amount: tokens_for_amount(amount as nat) as u64,
        lock_period: period,
        deposit_time: now,
        interest_rate: period.interest_rate(),
        early_withdrawal_penalty: period.early_withdrawal_penalty(),
    }
}

pub open spec fn mint_error(m: LedgerView, who: Seq<u8>, amount: u64) -> Option<LedgerError> {
    if amount == 0 {
        Some(LedgerError::InvalidAmount)
    } else if record_of(m, who).total_balance + tokens_for_amount(amount as nat) > u64::MAX {
        Some(LedgerError::Overflow)
    } else {
        None
    }
}

/// What minting `amount` units for `who` returns.
pub open spec fn mint_result(m: LedgerView, who: Seq<u8>, amount: u64) -> MintResult {
    match mint_error(m, who, amount) {
        Some(e) => MintResult::Failure(e),
        None => MintResult::Success(tokens_for_amount(amount as nat) as u64),
    }
}

/// The record of `who` after minting `amount` units under `period` at `now`:
/// the new deposit is appended where it holds tokens; an amount too small to
/// mint any token leaves the record as it was (an empty one where there was
/// none).
pub open spec fn minted_record(
    m: LedgerView,
    who: Seq<u8>,
    now: u64,
    amount: u64,
    period: LockPeriod,
) -> BalanceView {
    if tokens_for_amount(amount as nat) == 0 {
        record_of(m, who)
    } else {
        record_of(m, who).after_mint(minted_deposit(amount, period, now))
    }
}

/// The ledger after minting `amount` units for `who` under `period` at `now`;
/// a successful mint always leaves `who` with a record.
pub open spec fn ledger_after_mint(
    m: LedgerView,
    who: Seq<u8>,
    now: u64,
    amount: u64,
    period: LockPeriod,
) -> LedgerView {
    match mint_error(m, who, amount) {
        Some(_) => m,
        None => m.insert(who, minted_record(m, who, now, amount, period)),
    }
}

pub open spec fn burn_error(m: LedgerView, who: Seq<u8>, amount: u64) -> Option<LedgerError> {
    if amount == 0 {
        Some(LedgerError::InvalidAmount)
    } else if !m.contains_key(who) {
        Some(LedgerError::UserNotFound)
    } else if amount > m[who].total_balance {
        Some(LedgerError::InsufficientBalance)
    } else {
        None
    }
}

/// What burning `amount` tokens of `who` at `now` returns: the tokens the
/// owner receives after penalties.
pub open spec fn burn_result(m: LedgerView, who: Seq<u8>, now: u64, amount: u64) -> MintResult {
    match burn_error(m, who, amount) {
        Some(e) => MintResult::Failure(e),
        None => MintResult::Success(payout_of_draw(m[who].deposits, amount as nat, now) as u64),
    }
}

/// The ledger after burning `amount` tokens of `who`.
pub open spec fn ledger_after_burn(m: LedgerView, who: Seq<u8>, amount: u64) -> LedgerView {
    match burn_error(m, who, amount) {
        Some(_) => m,
        None => m.insert(who, m[who].after_burn(amount as nat)),
    }
}

pub open spec fn rewards_error(m: LedgerView, who: Seq<u8>, now: u64) -> Option<LedgerError> {
    if !m.contains_key(who) {
        Some(LedgerError::UserNotFound)
    } else if !m[who].rewards_fit(now) {
        Some(LedgerError::Overflow)
    } else {
        None
    }
}

/// What crediting the interest of `who` at `now` returns: the sum credited.
pub open spec fn rewards_result(m: LedgerView, who: Seq<u8>, now: u64) -> Result<u64, LedgerError> {
    match rewards_error(m, who, now) {
        Some(e) => Err(e),
        None => Ok(m[who].rewards_due(now) as u64),
    }
}

/// The ledger after crediting the interest of `who` at `now`.
pub open spec fn ledger_after_rewards(m: LedgerView, who: Seq<u8>, now: u64) -> LedgerView {
    match rewards_error(m, who, now) {
        Some(_) => m,
        None => m.insert(who, m[who].after_rewards(now)),
    }
}

/// What a balance query for `who` returns.
pub open spec fn balance_query(m: LedgerView, who: Seq<u8>) -> Result<BalanceView, LedgerError> {
    if m.contains_key(who) {
        Ok(m[who])
    } else {
        Err(LedgerError::UserNotFound)
    }
}

struct Account {
    owner: Vec<u8>,
    balance: UserBalance,
}

/// The store of every user's balance record.
pub struct Ledger {
    accounts: Vec<Account>,
}

spec fn holds_owner(s: Seq<Account>, who: Seq<u8>) -> bool {
    exists|i: int| 0 <= i < s.len() && (#[trigger] s[i]).owner@ == who
}

spec fn owner_index(s: Seq<Account>, who: Seq<u8>) -> int {
    choose|i: int| 0 <= i < s.len() && (#[trigger] s[i]).owner@ == who
}

spec fn accounts_view(s: Seq<Account>) -> LedgerView {
    Map::new(|who: Seq<u8>| holds_owner(s, who), |who: Seq<u8>| s[owner_index(s, who)].balance@)
}

spec fn owners_distinct(s: Seq<Account>) -> bool {
    forall|i: int, j: int|
        0 <= i < s.len() && 0 <= j < s.len() && i != j ==> (#[trigger] s[i]).owner@ != (#[trigger] s[j]).owner@
}

spec fn accounts_wf(s: Seq<Account>) -> bool {
    &&& owners_distinct(s)
    &&& forall|i: int| 0 <= i < s.len() ==> (#[trigger] s[i]).balance@.wf()
}

proof fn lemma_account_at(s: Seq<Account>, i: int)
    requires
        owners_distinct(s),
        0 <= i < s.len(),
    ensures
        accounts_view(s).contains_key(s[i].owner@),
        accounts_view(s)[s[i].owner@] == s[i].balance@,
{
    let who = s[i].owner@;
    assert(holds_owner(s, who));
    let j = owner_index(s, who);
    assert(s[j].owner@ == who);
}

proof fn lemma_consistent(s: Seq<Account>)
    requires
        accounts_wf(s),
    ensures
        records_consistent(accounts_view(s)),
{
    assert forall|who: Seq<u8>| #[trigger] accounts_view(s).contains_key(who) implies accounts_view(s)[who].wf() by {
        let j = owner_index(s, who);
        assert(s[j].balance@.wf());
    }
}

proof fn lemma_account_replaced(s: Seq<Account>, i: int, a: Account)
    requires
        accounts_wf(s),
        0 <= i < s.len(),
        a.owner@ == s[i].owner@,
        a.balance@.wf(),
    ensures
        accounts_wf(s.update(i, a)),
        accounts_view(s.update(i, a)) == accounts_view(s).insert(a.owner@, a.balance@),
{
    let t = s.update(i, a);
    assert forall|j: int| 0 <= j < t.len() implies (#[trigger] t[j]).balance@.wf() by {
        if j != i {
            assert(t[j] == s[j]);
        }
    }
    assert forall|j: int, k: int| 0 <= j < t.len() && 0 <= k < t.len() && j != k
        implies (#[trigger] t[j]).owner@ != (#[trigger] t[k]).owner@ by {
        assert(s[j].owner@ != s[k].owner@);
    }
    let m = accounts_view(s).insert(a.owner@, a.balance@);
    assert forall|who: Seq<u8>| #[trigger] m.contains_key(who) == holds_owner(t, who) by {
        if holds_owner(s, who) {
            let j = owner_index(s, who);
            assert(t[j].owner@ == who);
        }
        if holds_owner(t, who) {
            let j = owner_index(t, who);
            assert(s[j].owner@ == who);
        }
    }
    assert forall|who: Seq<u8>| #[trigger] m.contains_key(who) implies accounts_view(t)[who] == m[who] by {
        let j = owner_index(t, who);
        lemma_account_at(t, j);
        if who != a.owner@ {
            lemma_account_at(s, j);
        } else {
            lemma_account_at(t, i);
        }
    }
    assert(accounts_view(t) =~= m);
}

proof fn lemma_account_added(s: Seq<Account>, a: Account)
    requires
        accounts_wf(s),
        !accounts_view(s).contains_key(a.owner@),
        a.balance@.wf(),
    ensures
        accounts_wf(s.push(a)),
        accounts_view(s.push(a)) == accounts_view(s).insert(a.owner@, a.balance@),
{
    let t = s.push(a);
    let n = s.len() as int;
    assert forall|j: int| 0 <= j < t.len() implies (#[trigger] t[j]).balance@.wf() by {
        if j < n {
            assert(t[j] == s[j]);
        }
    }
    assert forall|j: int, k: int| 0 <= j < t.len() && 0 <= k < t.len() && j != k
        implies (#[trigger] t[j]).owner@ != (#[trigger] t[k]).owner@ by {
        if j < n && k < n {
            assert(s[j].owner@ != s[k].owner@);
        } else if j < n {
            assert(holds_owner(s, s[j].owner@));
        } else {
            assert(holds_owner(s, s[k].owner@));
        }
    }
    let m = accounts_view(s).insert(a.owner@, a.balance@);
    assert forall|who: Seq<u8>| #[trigger] m.contains_key(who) == holds_owner(t, who) by {
        if holds_owner(s, who) {
            let j = owner_index(s, who);
            assert(t[j].owner@ == who);
        }
        if who == a.owner@ {
            assert(t[n].owner@ == who);
        }
        if holds_owner(t, who) && who != a.owner@ {
            let j = owner_index(t, who);
            assert(s[j].owner@ == who);
        }
    }
    assert forall|who: Seq<u8>| #[trigger] m.contains_key(who) implies accounts_view(t)[who] == m[who] by {
        let j = owner_index(t, who);
        lemma_account_at(t, j);
        if who != a.owner@ {
            lemma_account_at(s, j);
        } else {
            lemma_account_at(t, n);
        }
    }
    assert(accounts_view(t) =~= m);
}

impl View for Ledger {
    type V = LedgerView;

    closed spec fn view(&self) -> LedgerView {
        accounts_view(self.accounts@)
    }
}

impl Ledger {
    #[verifier::type_invariant]
    spec fn inv(self) -> bool {
        accounts_wf(self.accounts@)
    }

    /// A ledger with no records.
    pub fn new() -> (r: Ledger)
        ensures
            r@ == LedgerView::empty(),
            records_consistent(r@),
    {
        let r = Ledger { accounts: Vec::new() };
        assert(r@ =~= LedgerView::empty());
        r
    }
}

/// Where the record of `who` stands in `accounts`, if it has one.
fn find_account(accounts: &Vec<Account>, who: &[u8]) -> (r: Option<usize>)
    requires
        owners_distinct(accounts@),
    ensures
        r matches Some(i) ==> i < accounts@.len() && accounts@[i as int].owner@ == who@,
        r is None ==> !accounts_view(accounts@).contains_key(who@),
{
    let mut i: usize = 0;
    while i < accounts.len()
        invariant
            i <= accounts@.len(),
            forall|j: int| 0 <= j < i ==> (#[trigger] accounts@[j]).owner@ != who@,
        decreases accounts@.len() - i,
    {
        if same_bytes(accounts[i].owner.as_slice(), who) {
            return Some(i);
        }
        i = i + 1;
    }
    proof {
        if holds_owner(accounts@, who@) {
            let j = owner_index(accounts@, who@);
            assert(accounts@[j].owner@ == who@);
        }
    }
    None
}

/// Withdraws `token_amount` tokens for `caller` at `now`, drawing on the
/// deposits oldest first, and returns what the caller receives after
/// penalties. Refused, with nothing changed, where the amount is zero, the
/// caller has no record, or the deposits hold fewer tokens than asked for.
pub fn burn_tokens(ledger: &mut Ledger, caller: &[u8], now: u64, token_amount: u64) -> (r: MintResult)
    ensures
        r == burn_result(old(ledger)@, caller@, now, token_amount),
        final(ledger)@ == ledger_after_burn(old(ledger)@, caller@, token_amount),
        records_consistent(final(ledger)@),
{
    proof {
        use_type_invariant(&*ledger);
        lemma_consistent(ledger.accounts@);
    }
    if token_amount == 0 {
        return MintResult::Failure(LedgerError::InvalidAmount);
    }
    let i = match find_account(&ledger.accounts, caller) {
        Some(i) => i,
        None => return MintResult::Failure(LedgerError::UserNotFound),
    };
    proof {
        lemma_account_at(ledger.accounts@, i as int);
    }
    if token_amount > ledger.accounts[i].balance.total_balance {
        return MintResult::Failure(LedgerError::InsufficientBalance);
    }
    let ghost before = ledger.accounts@;
    let mut accounts: Vec<Account> = Vec::new();
    std::mem::swap(&mut accounts, &mut ledger.accounts);
    let paid = accounts[i].balance.withdraw(token_amount, now);
    proof {
        lemma_account_replaced(before, i as int, accounts@[i as int]);
        assert(accounts@ == before.update(i as int, accounts@[i as int]));
        lemma_consistent(accounts@);
    }
    ledger.accounts = accounts;
    MintResult::Success(paid)
}

/// Tokens for `amount` units of the source currency at the fixed rate,
/// truncated toward zero.
pub fn tokens_for(amount: u64) -> (r: u64)
    ensures
        r == tokens_for_amount(amount as nat),
{
    let t: u128 = amount as u128 * TOKENS_PER_THOUSAND as u128 / 1000;
    assert(t <= amount) by (nonlinear_arith)
        requires t == amount as u128 * 12 / 1000;
    t as u64
}

/// Converts `inr_amount` units of the source currency to tokens and locks
/// them for `caller` under `lock_period` as a new deposit made at `now`,
/// creating the caller's record where there is none. Returns the tokens
/// minted; where the conversion truncates to no token at all, the result is
/// 0 and no deposit is made. Refused, with nothing changed, where the amount
/// is zero or the caller's total would pass the largest `u64`.
pub fn mint_tokens(
    ledger: &mut Ledger,
    caller: &[u8],
    now: u64,
    inr_amount: u64,
    lock_period: LockPeriod,
) -> (r: MintResult)
    ensures
        r == mint_result(old(ledger)@, caller@, inr_amount),
        final(ledger)@ == ledger_after_mint(old(ledger)@, caller@, now, inr_amount, lock_period),
        records_consistent(final(ledger)@),
{
    proof {
        use_type_invariant(&*ledger);
        lemma_consistent(ledger.accounts@);
    }
    if inr_amount == 0 {
        return MintResult::Failure(LedgerError::InvalidAmount);
    }
    let tokens = tokens_for(inr_amount);
    let deposit = TokenDeposit {
        amount: tokens,
        lock_period,
        deposit_time: now,
        interest_rate: lock_period.interest_rate(),
        early_withdrawal_penalty: lock_period.early_withdrawal_penalty(),
    };
    assert(deposit == minted_deposit(inr_amount, lock_period, now));
    let ghost before = ledger.accounts@;
    match find_account(&ledger.accounts, caller) {
        Some(i) => {
            proof {
                lemma_account_at(before, i as int);
            }
            if tokens > u64::MAX - ledger.accounts[i].balance.total_balance {
                return MintResult::Failure(LedgerError::Overflow);
            }
            if tokens > 0 {
                let mut accounts: Vec<Account> = Vec::new();
                std::mem::swap(&mut accounts, &mut ledger.accounts);
                accounts[i].balance.add_deposit(deposit);
                proof {
                    lemma_account_replaced(before, i as int, accounts@[i as int]);
                    assert(accounts@ == before.update(i as int, accounts@[i as int]));
                    lemma_consistent(accounts@);
                }
                ledger.accounts = accounts;
            } else {
                proof {
                    let m = accounts_view(before);
                    let who = before[i as int].owner@;
                    assert(m.insert(who, m[who]) =~= m);
                }
            }
        },
        None => {
            let mut balance = UserBalance::new();
            assert(balance@.deposits =~= Seq::<TokenDeposit>::empty());
            assert(balance@.wf()) by {
                assert(deposits_total(Seq::<TokenDeposit>::empty()) == 0);
            }
            if tokens > 0 {
                balance.add_deposit(deposit);
            }
            let account = Account { owner: bytes_of(caller), balance };
            let mut accounts: Vec<Account> = Vec::new();
            std::mem::swap(&mut accounts, &mut ledger.accounts);
            accounts.push(account);
            proof {
                lemma_account_added(before, account);
                lemma_consistent(accounts@);
            }
            ledger.accounts = accounts;
        },
    }
    MintResult::Success(tokens)
}

/// Credits `caller` with the interest each of their deposits has earned at
/// `now` (see [`UserBalance::accrue`]) and returns the sum credited. Refused,
/// with nothing changed, where the caller has no record or a balance would
/// pass the largest `u64`.
pub fn apply_rewards(ledger: &mut Ledger, caller: &[u8], now: u64) -> (r: Result<u64, LedgerError>)
    ensures
        r == rewards_result(old(ledger)@, caller@, now),
        final(ledger)@ == ledger_after_rewards(old(ledger)@, caller@, now),
        records_consistent(final(ledger)@),
{
    proof {
        use_type_invariant(&*ledger);
        lemma_consistent(ledger.accounts@);
    }
    let i = match find_account(&ledger.accounts, caller) {
        Some(i) => i,
        None => return Err(LedgerError::UserNotFound),
    };
    let ghost before = ledger.accounts@;
    proof {
        lemma_account_at(before, i as int);
    }
    let mut accounts: Vec<Account> = Vec::new();
    std::mem::swap(&mut accounts, &mut ledger.accounts);
    let credited = accounts[i].balance.accrue(now);
    proof {
        lemma_account_replaced(before, i as int, accounts@[i as int]);
        assert(accounts@ == before.update(i as int, accounts@[i as int]));
        lemma_consistent(accounts@);
        let m = accounts_view(before);
        let who = before[i as int].owner@;
        assert(m.insert(who, m[who]) =~= m);
    }
    ledger.accounts = accounts;
    match credited {
        Some(sum) => Ok(sum),
        None => Err(LedgerError::Overflow),
    }
}

/// A copy of the record of `caller`.
pub fn get_balance(ledger: &Ledger, caller: &[u8]) -> (r: Result<UserBalance, LedgerError>)
    ensures
        r matches Ok(b) ==> balance_query(ledger@, caller@) == Ok::<BalanceView, LedgerError>(b@)
            && b@.wf(),
        r matches Err(e) ==> balance_query(ledger@, caller@) == Err::<BalanceView, LedgerError>(e),
{
    proof {
        use_type_invariant(ledger);
    }
    match find_account(&ledger.accounts, caller) {
        Some(i) => {
            proof {
                lemma_account_at(ledger.accounts@, i as int);
            }
            Ok(ledger.accounts[i].balance.snapshot())
        },
        None => Err(LedgerError::UserNotFound),
    }
}

/// Minting, burning and crediting interest keep every record well formed:
/// in each record the total equals the locked plus the available balance
/// and the sum of the deposit amounts, and no deposit holds zero tokens.
pub proof fn lemma_operations_keep_records_consistent(
    m: LedgerView,
    who: Seq<u8>,
    now: u64,
    amount: u64,
    period: LockPeriod,
    token_amount: u64,
)
    requires
        records_consistent(m),
    ensures
        records_consistent(ledger_after_mint(m, who, now, amount, period)),
        records_consistent(ledger_after_burn(m, who, token_amount)),
        records_consistent(ledger_after_rewards(m, who, now)),
{
    assert(BalanceView::empty().wf()) by {
        assert(deposits_total(Seq::<TokenDeposit>::empty()) == 0);
    }
    if mint_error(m, who, amount) is None && tokens_for_amount(amount as nat) > 0 {
        lemma_mint_keeps_wf(record_of(m, who), minted_deposit(amount, period, now));
    }
    if burn_error(m, who, token_amount) is None {
        lemma_burn_keeps_wf(m[who], token_amount as nat);
    }
    if rewards_error(m, who, now) is None {
        lemma_rewards_keep_wf(m[who], now);
    }
}

/// A refused mint or burn leaves every user's balance query as it was.
pub proof fn lemma_refusals_change_nothing(
    m: LedgerView,
    who: Seq<u8>,
    now: u64,
    amount: u64,
    period: LockPeriod,
    token_amount: u64,
    asker: Seq<u8>,
)
    ensures
        mint_result(m, who, amount) is Failure ==> balance_query(
            ledger_after_mint(m, who, now, amount, period),
            asker,
        ) == balance_query(m, asker),
        burn_result(m, who, now, token_amount) is Failure ==> balance_query(
            ledger_after_burn(m, who, token_amount),
            asker,
        ) == balance_query(m, asker),
{
}

} // verus!
