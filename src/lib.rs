//! A per-user token ledger of time-locked deposits: minting, withdrawal with
//! early-withdrawal penalties, and simple interest accrual; beside it, a book
//! of named savings goals.
//!
//! Rates are whole percentages and every token amount is truncated toward
//! zero at the point where it is computed. Callers hand in the two facts the
//! ledger takes from its surroundings: who is calling (as identity bytes) and
//! the current time (in nanoseconds).

pub mod balance;
pub mod bytes;
pub mod deposit;
pub mod goals;
pub mod ledger;
pub mod lock;

pub use balance::UserBalance;
pub use deposit::TokenDeposit;
pub use goals::{
    create_goal, deposit, get_goal, get_user_goals, CreateGoalArgs, DepositArgs, GoalBook,
    GoalError, SavingsGoal,
};
pub use ledger::{
    apply_rewards, burn_tokens, get_balance, mint_tokens, tokens_for, Ledger, LedgerError,
    MintResult,
};
pub use lock::LockPeriod;
