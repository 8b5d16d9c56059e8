use piggybank_backend::{
    apply_rewards, burn_tokens, get_balance, mint_tokens, tokens_for, Ledger, LedgerError,
    LockPeriod, MintResult, UserBalance,
};

const DAY: u64 = 86_400_000_000_000;
const YEAR: u64 = 365 * DAY;

fn alice() -> Vec<u8> {
    vec![1, 2, 3, 4]
}

fn bob() -> Vec<u8> {
    vec![9, 9]
}

fn consistent(b: &UserBalance) -> bool {
    let sum: u64 = b.deposits.iter().map(|d| d.amount).sum();
    b.total_balance == b.locked_balance + b.available_balance
        && b.total_balance == sum
        && b.deposits.iter().all(|d| d.amount > 0)
}

#[test]
fn mint_of_ten_thousand_locks_one_hundred_twenty_tokens() {
    let mut ledger = Ledger::new();
    let r = mint_tokens(&mut ledger, &alice(), 0, 10000, LockPeriod::ThreeMonths);
    assert_eq!(r, MintResult::Success(120));
    let b = get_balance(&ledger, &alice()).unwrap();
    assert_eq!(b.total_balance, 120);
    assert_eq!(b.locked_balance, 120);
    assert_eq!(b.available_balance, 0);
    assert_eq!(b.rewards_earned, 0);
    assert_eq!(b.deposits.len(), 1);
    assert_eq!(b.deposits[0].amount, 120);
    assert_eq!(b.deposits[0].interest_rate, 5);
    assert_eq!(b.deposits[0].early_withdrawal_penalty, 2);
    assert_eq!(b.deposits[0].deposit_time, 0);
}

#[test]
fn early_withdrawal_pays_what_the_penalty_leaves() {
    let mut ledger = Ledger::new();
    mint_tokens(&mut ledger, &alice(), 0, 10000, LockPeriod::ThreeMonths);
    let r = burn_tokens(&mut ledger, &alice(), 0, 60);
    assert_eq!(r, MintResult::Success(58));
    let b = get_balance(&ledger, &alice()).unwrap();
    assert_eq!(b.deposits.len(), 1);
    assert_eq!(b.deposits[0].amount, 60);
    assert_eq!(b.total_balance, 60);
    assert_eq!(b.locked_balance, 60);
    assert_eq!(b.available_balance, 0);
}

#[test]
fn withdrawal_after_the_lock_pays_in_full() {
    let mut ledger = Ledger::new();
    mint_tokens(&mut ledger, &alice(), 0, 10000, LockPeriod::ThreeMonths);
    let r = burn_tokens(&mut ledger, &alice(), 91 * DAY, 120);
    assert_eq!(r, MintResult::Success(120));
    let b = get_balance(&ledger, &alice()).unwrap();
    assert_eq!(b.total_balance, 0);
    assert_eq!(b.locked_balance, 0);
    assert_eq!(b.available_balance, 0);
    assert!(b.deposits.is_empty());
}

#[test]
fn lock_ends_exactly_at_its_duration() {
    let mut ledger = Ledger::new();
    mint_tokens(&mut ledger, &alice(), 5, 10000, LockPeriod::SixMonths);
    mint_tokens(&mut ledger, &bob(), 5, 10000, LockPeriod::SixMonths);
    let at_end = burn_tokens(&mut ledger, &alice(), 5 + 180 * DAY, 120);
    assert_eq!(at_end, MintResult::Success(120));
    let just_before = burn_tokens(&mut ledger, &bob(), 4 + 180 * DAY, 120);
    assert_eq!(just_before, MintResult::Success(114));
}

#[test]
fn one_year_of_interest_on_one_hundred_twenty_tokens() {
    let mut ledger = Ledger::new();
    mint_tokens(&mut ledger, &alice(), 0, 10000, LockPeriod::ThreeMonths);
    let r = apply_rewards(&mut ledger, &alice(), YEAR);
    assert_eq!(r, Ok(6));
    let b = get_balance(&ledger, &alice()).unwrap();
    assert_eq!(b.deposits[0].amount, 126);
    assert_eq!(b.rewards_earned, 6);
    assert_eq!(b.total_balance, 126);
    assert_eq!(b.locked_balance, 126);
}

#[test]
fn interest_is_counted_again_from_the_deposit_time() {
    let mut ledger = Ledger::new();
    mint_tokens(&mut ledger, &alice(), 0, 10000, LockPeriod::ThreeMonths);
    assert_eq!(apply_rewards(&mut ledger, &alice(), 0), Ok(0));
    assert_eq!(apply_rewards(&mut ledger, &alice(), YEAR), Ok(6));
    assert_eq!(apply_rewards(&mut ledger, &alice(), YEAR), Ok(6));
    let b = get_balance(&ledger, &alice()).unwrap();
    assert_eq!(b.deposits[0].amount, 132);
    assert_eq!(b.rewards_earned, 12);
}

#[test]
fn interest_for_half_a_year_is_truncated() {
    let mut ledger = Ledger::new();
    mint_tokens(&mut ledger, &alice(), 0, 20000, LockPeriod::SixMonths);
    // 240 * 7% * 0.5 = 8.4
    assert_eq!(apply_rewards(&mut ledger, &alice(), YEAR / 2), Ok(8));
}

#[test]
fn no_interest_before_the_deposit_time() {
    let mut ledger = Ledger::new();
    mint_tokens(&mut ledger, &alice(), YEAR, 10000, LockPeriod::TwelveMonths);
    assert_eq!(apply_rewards(&mut ledger, &alice(), 0), Ok(0));
}

#[test]
fn burn_draws_on_deposits_oldest_first() {
    let mut ledger = Ledger::new();
    assert_eq!(
        mint_tokens(&mut ledger, &alice(), 0, 4167, LockPeriod::ThreeMonths),
        MintResult::Success(50)
    );
    assert_eq!(
        mint_tokens(&mut ledger, &alice(), 1, 6667, LockPeriod::SixMonths),
        MintResult::Success(80)
    );
    let r = burn_tokens(&mut ledger, &alice(), 2, 90);
    // 50 * 98% = 49, then 40 * 95% = 38
    assert_eq!(r, MintResult::Success(87));
    let b = get_balance(&ledger, &alice()).unwrap();
    assert_eq!(b.deposits.len(), 1);
    assert_eq!(b.deposits[0].amount, 40);
    assert_eq!(b.deposits[0].lock_period, LockPeriod::SixMonths);
    assert_eq!(b.deposits[0].deposit_time, 1);
    assert_eq!(b.total_balance, 40);
    assert!(consistent(&b));
}

#[test]
fn burn_mixes_expired_and_locked_deposits() {
    let mut ledger = Ledger::new();
    mint_tokens(&mut ledger, &alice(), 0, 4167, LockPeriod::ThreeMonths);
    mint_tokens(&mut ledger, &alice(), 100 * DAY, 6667, LockPeriod::TwelveMonths);
    // the first has expired and pays 50; the second pays 90% of 30
    let r = burn_tokens(&mut ledger, &alice(), 100 * DAY, 80);
    assert_eq!(r, MintResult::Success(77));
    let b = get_balance(&ledger, &alice()).unwrap();
    assert_eq!(b.deposits.len(), 1);
    assert_eq!(b.deposits[0].amount, 50);
}

#[test]
fn refused_operations_change_nothing() {
    let mut ledger = Ledger::new();
    mint_tokens(&mut ledger, &alice(), 0, 10000, LockPeriod::ThreeMonths);
    let before = format!("{:?}", get_balance(&ledger, &alice()));

    let r = burn_tokens(&mut ledger, &alice(), 0, 121);
    assert_eq!(r, MintResult::Failure(LedgerError::InsufficientBalance));
    let r = burn_tokens(&mut ledger, &alice(), 0, 0);
    assert_eq!(r, MintResult::Failure(LedgerError::InvalidAmount));
    let r = mint_tokens(&mut ledger, &alice(), 0, 0, LockPeriod::SixMonths);
    assert_eq!(r, MintResult::Failure(LedgerError::InvalidAmount));
    assert_eq!(format!("{:?}", get_balance(&ledger, &alice())), before);

    let r = mint_tokens(&mut ledger, &bob(), 0, 0, LockPeriod::SixMonths);
    assert!(r.is_err());
    assert_eq!(
        get_balance(&ledger, &bob()).unwrap_err(),
        LedgerError::UserNotFound
    );
}

#[test]
fn mint_of_less_than_one_token_creates_only_the_record() {
    let mut ledger = Ledger::new();
    let r = mint_tokens(&mut ledger, &alice(), 0, 83, LockPeriod::SixMonths);
    assert_eq!(r, MintResult::Success(0));
    let b = get_balance(&ledger, &alice()).unwrap();
    assert_eq!(b.total_balance, 0);
    assert_eq!(b.locked_balance, 0);
    assert_eq!(b.available_balance, 0);
    assert!(b.deposits.is_empty());

    mint_tokens(&mut ledger, &alice(), 0, 10000, LockPeriod::SixMonths);
    let r = mint_tokens(&mut ledger, &alice(), 0, 50, LockPeriod::ThreeMonths);
    assert_eq!(r, MintResult::Success(0));
    let b = get_balance(&ledger, &alice()).unwrap();
    assert_eq!(b.total_balance, 120);
    assert_eq!(b.deposits.len(), 1);
    assert!(consistent(&b));
}

#[test]
fn every_error_has_its_inputs() {
    let mut ledger = Ledger::new();
    assert_eq!(
        burn_tokens(&mut ledger, &alice(), 0, 5),
        MintResult::Failure(LedgerError::UserNotFound)
    );
    assert_eq!(
        apply_rewards(&mut ledger, &alice(), 0),
        Err(LedgerError::UserNotFound)
    );
    assert_eq!(
        burn_tokens(&mut ledger, &alice(), 0, 0),
        MintResult::Failure(LedgerError::InvalidAmount)
    );
    mint_tokens(&mut ledger, &alice(), 0, 100, LockPeriod::ThreeMonths);
    assert_eq!(
        burn_tokens(&mut ledger, &alice(), 0, 2),
        MintResult::Failure(LedgerError::InsufficientBalance)
    );
    assert_eq!(LedgerError::InvalidAmount.message(), "Amount must be greater than 0");
    assert_eq!(LedgerError::UserNotFound.message(), "User balance not found");
    assert_eq!(LedgerError::InsufficientBalance.message(), "Insufficient total balance");
    assert_eq!(LedgerError::Overflow.message(), "Balance would overflow");
}

#[test]
fn mint_refuses_a_total_past_u64() {
    let mut ledger = Ledger::new();
    let per_mint = tokens_for(u64::MAX);
    let fits = u64::MAX / per_mint;
    for _ in 0..fits {
        assert_eq!(
            mint_tokens(&mut ledger, &alice(), 0, u64::MAX, LockPeriod::ThreeMonths),
            MintResult::Success(per_mint)
        );
    }
    let before = format!("{:?}", get_balance(&ledger, &alice()));
    assert_eq!(
        mint_tokens(&mut ledger, &alice(), 0, u64::MAX, LockPeriod::ThreeMonths),
        MintResult::Failure(LedgerError::Overflow)
    );
    assert_eq!(format!("{:?}", get_balance(&ledger, &alice())), before);
}

#[test]
fn rewards_refuse_a_total_past_u64() {
    let mut ledger = Ledger::new();
    mint_tokens(&mut ledger, &alice(), 0, u64::MAX, LockPeriod::TwelveMonths);
    mint_tokens(&mut ledger, &alice(), 0, u64::MAX, LockPeriod::TwelveMonths);
    let before = format!("{:?}", get_balance(&ledger, &alice()));
    assert_eq!(
        apply_rewards(&mut ledger, &alice(), u64::MAX),
        Err(LedgerError::Overflow)
    );
    assert_eq!(format!("{:?}", get_balance(&ledger, &alice())), before);
}

#[test]
fn large_rewards_are_exact() {
    let mut ledger = Ledger::new();
    mint_tokens(&mut ledger, &alice(), 0, u64::MAX, LockPeriod::TwelveMonths);
    let tokens = tokens_for(u64::MAX) as u128;
    let expected = tokens * 10 * (u64::MAX as u128) / (100 * YEAR as u128);
    assert_eq!(apply_rewards(&mut ledger, &alice(), u64::MAX), Ok(expected as u64));
}

#[test]
fn conversion_truncates() {
    assert_eq!(tokens_for(10000), 120);
    assert_eq!(tokens_for(83), 0);
    assert_eq!(tokens_for(84), 1);
    assert_eq!(tokens_for(0), 0);
    assert_eq!(tokens_for(u64::MAX), 221_360_928_884_514_619);
}

#[test]
fn records_stay_consistent_through_a_history() {
    let mut ledger = Ledger::new();
    mint_tokens(&mut ledger, &alice(), 0, 10000, LockPeriod::ThreeMonths);
    mint_tokens(&mut ledger, &alice(), DAY, 20000, LockPeriod::SixMonths);
    mint_tokens(&mut ledger, &bob(), DAY, 30000, LockPeriod::TwelveMonths);
    assert!(consistent(&get_balance(&ledger, &alice()).unwrap()));
    burn_tokens(&mut ledger, &alice(), 2 * DAY, 120);
    let b = get_balance(&ledger, &alice()).unwrap();
    assert!(consistent(&b));
    assert_eq!(b.deposits.len(), 1);
    apply_rewards(&mut ledger, &alice(), YEAR);
    burn_tokens(&mut ledger, &alice(), YEAR, 7);
    let b = get_balance(&ledger, &alice()).unwrap();
    assert!(consistent(&b));
    let c = get_balance(&ledger, &bob()).unwrap();
    assert!(consistent(&c));
    assert_eq!(c.total_balance, 360);
}

#[test]
fn lock_period_terms() {
    assert_eq!(LockPeriod::ThreeMonths.interest_rate(), 5);
    assert_eq!(LockPeriod::SixMonths.interest_rate(), 7);
    assert_eq!(LockPeriod::TwelveMonths.interest_rate(), 10);
    assert_eq!(LockPeriod::ThreeMonths.early_withdrawal_penalty(), 2);
    assert_eq!(LockPeriod::SixMonths.early_withdrawal_penalty(), 5);
    assert_eq!(LockPeriod::TwelveMonths.early_withdrawal_penalty(), 10);
    assert_eq!(LockPeriod::ThreeMonths.duration_nanos(), 90 * DAY);
    assert_eq!(LockPeriod::SixMonths.duration_nanos(), 180 * DAY);
    assert_eq!(LockPeriod::TwelveMonths.duration_nanos(), 365 * DAY);
}
