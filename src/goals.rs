use vstd::prelude::*;

use crate::bytes::{bytes_of, same_bytes};

verus! {

/// A named savings target of one user. `id` is its place in the book.
#[derive(Debug)]
pub struct SavingsGoal {
    pub id: u64,
    pub owner: Vec<u8>,
    pub name: String,
    pub category: String,
    pub target_amount: u64,
    pub current_amount: u64,
    pub deadline: Option<u64>,
}

/// The mathematical content of a [`SavingsGoal`].
pub struct GoalView {
    pub id: nat,
    pub owner: Seq<u8>,
    pub name: Seq<char>,
    pub category: Seq<char>,
    pub target_amount: nat,
    pub current_amount: nat,
    pub deadline: Option<u64>,
}

impl View for SavingsGoal {
    type V = GoalView;

    open spec fn view(&self) -> GoalView {
        GoalView {
            id: self.id as nat,
            owner: self.owner@,
            name: self.name@,
            category: self.category@,
            target_amount: self.target_amount as nat,
            current_amount: self.current_amount as nat,
            deadline: self.deadline,
        }
    }
}

/// What a new goal is made of.
#[derive(Debug)]
pub struct CreateGoalArgs {
    pub name: String,
    pub target_amount: u64,
    pub category: String,
    pub deadline: Option<u64>,
}

/// A contribution of `amount` to the goal `goal_id`.
#[derive(Clone, Copy, Debug)]
pub struct DepositArgs {
    pub goal_id: u64,
    pub amount: u64,
}

/// Why a goal operation was refused. A refused operation changes nothing.
#[derive(Clone, Copy, Debug, PartialEq, Eq, Structural)]
pub enum GoalError {
    /// A target or a contribution of zero.
    InvalidAmount,
    /// A deadline that is not after the time of creation.
    InvalidDeadline,
    /// No goal has that id.
    GoalNotFound,
    /// The goal belongs to another user.
    Unauthorized,
    /// The saved amount would pass the largest `u64`.
    Overflow,
}

/// Every goal of every user, in the order they were made.
pub struct GoalBook {
    goals: Vec<SavingsGoal>,
}

/// The goal that `owner` creates from `args`, as the `id`-th of the book.
pub open spec fn new_goal(id: nat, owner: Seq<u8>, args: CreateGoalArgs) -> GoalView {
    GoalView {
        id,
        owner,
        name: args.name@,
        category: args.category@,
        target_amount: args.target_amount as nat,
        current_amount: 0,
        deadline: args.deadline,
    }
}

pub open spec fn create_goal_error(now: u64, args: CreateGoalArgs) -> Option<GoalError> {
    if args.target_amount == 0 {
        Some(GoalError::InvalidAmount)
    } else if args.deadline matches Some(d) && d <= now {
        Some(GoalError::InvalidDeadline)
    } else {
        None
    }
}

pub open spec fn deposit_error(goals: Seq<GoalView>, who: Seq<u8>, args: DepositArgs) -> Option<GoalError> {
    if args.amount == 0 {
        Some(GoalError::InvalidAmount)
    } else if args.goal_id >= goals.len() {
        Some(GoalError::GoalNotFound)
    } else if goals[args.goal_id as int].owner != who {
        Some(GoalError::Unauthorized)
    } else if goals[args.goal_id as int].current_amount + args.amount > u64::MAX {
        Some(GoalError::Overflow)
    } else {
        None
    }
}

/// The goals that belong to `who`, in the order they were made.
pub open spec fn goals_of(goals: Seq<GoalView>, who: Seq<u8>) -> Seq<GoalView> {
    goals.filter(|g: GoalView| g.owner == who)
}

impl View for GoalBook {
    type V = Seq<GoalView>;

    closed spec fn view(&self) -> Seq<GoalView> {
        self.goals@.map_values(|g: SavingsGoal| g@)
    }
}

impl SavingsGoal {
    /// A copy of this goal.
    pub fn snapshot(&self) -> (r: SavingsGoal)
        ensures
            r@ == self@,
    {
        SavingsGoal {
            id: self.id,
            owner: bytes_of(self.owner.as_slice()),
            name: self.name.clone(),
            category: self.category.clone(),
            target_amount: self.target_amount,
            current_amount: self.current_amount,
            deadline: self.deadline,
        }
    }
}

impl GoalBook {
    #[verifier::type_invariant]
    spec fn inv(self) -> bool {
        forall|i: int| 0 <= i < self.goals@.len() ==> (#[trigger] self.goals@[i]).id == i
    }

    /// A book with no goals.
    pub fn new() -> (r: GoalBook)
        ensures
            r@ == Seq::<GoalView>::empty(),
    {
        let r = GoalBook { goals: Vec::new() };
        assert(r@ =~= Seq::<GoalView>::empty());
        r
    }
}

/// Adds a goal for `caller`, made at `now`, with nothing saved yet, and
/// returns its id. Refused, with nothing changed, where the target is zero
/// or the deadline is not after `now`.
pub fn create_goal(book: &mut GoalBook, caller: &[u8], now: u64, args: CreateGoalArgs) -> (r: Result<u64, GoalError>)
    ensures
        create_goal_error(now, args) matches Some(e) ==> r == Err::<u64, GoalError>(e)
            && final(book)@ == old(book)@,
        create_goal_error(now, args) is None ==> r == Ok::<u64, GoalError>(old(book)@.len() as u64)
            && final(book)@ == old(book)@.push(new_goal(old(book)@.len(), caller@, args)),
{
    proof {
        use_type_invariant(&*book);
    }
    if args.target_amount == 0 {
        return Err(GoalError::InvalidAmount);
    }
    if let Some(d) = args.deadline {
        if d <= now {
            return Err(GoalError::InvalidDeadline);
        }
    }
    let id = book.goals.len() as u64;
    let ghost args_view = args;
    let goal = SavingsGoal {
        id,
        owner: bytes_of(caller),
        name: args.name,
        category: args.category,
        target_amount: args.target_amount,
        current_amount: 0,
        deadline: args.deadline,
    };
    let ghost before = book.goals@;
    let mut goals: Vec<SavingsGoal> = Vec::new();
    std::mem::swap(&mut goals, &mut book.goals);
    goals.push(goal);
    assert(goals@.map_values(|g: SavingsGoal| g@) =~= before.map_values(|g: SavingsGoal| g@).push(
        new_goal(before.len() as nat, caller@, args_view),
    ));
    book.goals = goals;
    Ok(id)
}

/// Adds `args.amount` to the saved amount of the goal `args.goal_id` of
/// `caller`, and returns the new saved amount. Refused, with nothing changed,
/// where the amount is zero, no goal has that id, the goal is another user's,
/// or the saved amount would pass the largest `u64`.
pub fn deposit(book: &mut GoalBook, caller: &[u8], args: DepositArgs) -> (r: Result<u64, GoalError>)
    ensures
        deposit_error(old(book)@, caller@, args) matches Some(e) ==> r == Err::<u64, GoalError>(e)
            && final(book)@ == old(book)@,
        deposit_error(old(book)@, caller@, args) is None ==> {
            let g = old(book)@[args.goal_id as int];
            let saved = g.current_amount + args.amount;
            &&& r == Ok::<u64, GoalError>(saved as u64)
            &&& final(book)@ == old(book)@.update(
                args.goal_id as int,
                GoalView { current_amount: saved as nat, ..g },
            )
        },
{
    proof {
        use_type_invariant(&*book);
    }
    if args.amount == 0 {
        return Err(GoalError::InvalidAmount);
    }
    if args.goal_id >= book.goals.len() as u64 {
        return Err(GoalError::GoalNotFound);
    }
    let i = args.goal_id as usize;
    if !same_bytes(book.goals[i].owner.as_slice(), caller) {
        return Err(GoalError::Unauthorized);
    }
    if args.amount > u64::MAX - book.goals[i].current_amount {
        return Err(GoalError::Overflow);
    }
    let ghost before = book.goals@;
    let mut goals: Vec<SavingsGoal> = Vec::new();
    std::mem::swap(&mut goals, &mut book.goals);
    goals[i].current_amount = goals[i].current_amount + args.amount;
    let saved = goals[i].current_amount;
    assert(goals@.map_values(|g: SavingsGoal| g@) =~= before.map_values(|g: SavingsGoal| g@).update(
        i as int,
        GoalView { current_amount: saved as nat, ..before[i as int]@ },
    ));
    book.goals = goals;
    Ok(saved)
}

/// A copy of the goal `goal_id`.
pub fn get_goal(book: &GoalBook, goal_id: u64) -> (r: Result<SavingsGoal, GoalError>)
    ensures
        r matches Ok(g) ==> goal_id < book@.len() && g@ == book@[goal_id as int],
        r matches Err(e) ==> goal_id >= book@.len() && e == GoalError::GoalNotFound,
{
    if goal_id >= book.goals.len() as u64 {
        return Err(GoalError::GoalNotFound);
    }
    Ok(book.goals[goal_id as usize].snapshot())
}

/// Copies of the goals of `caller`, in the order they were made.
pub fn get_user_goals(book: &GoalBook, caller: &[u8]) -> (r: Vec<SavingsGoal>)
    ensures
        r@.map_values(|g: SavingsGoal| g@) == goals_of(book@, caller@),
{
    let ghost all = book@;
    let mut r: Vec<SavingsGoal> = Vec::new();
    let n = book.goals.len();
    let mut i: usize = 0;
    while i < n
        invariant
            n == book.goals@.len(),
            all == book@,
            i <= n,
            r@.map_values(|g: SavingsGoal| g@) == goals_of(all.take(i as int), caller@),
        decreases n - i,
    {
        proof {
            reveal(Seq::filter);
            assert(all.take(i + 1).drop_last() =~= all.take(i as int));
            assert(all.take(i + 1).last() == all[i as int]);
        }
        if same_bytes(book.goals[i].owner.as_slice(), caller) {
            let ghost old_r = r@;
            r.push(book.goals[i].snapshot());
            assert(r@.map_values(|g: SavingsGoal| g@) =~= old_r.map_values(|g: SavingsGoal| g@).push(all[i as int]));
        }
        i = i + 1;
    }
    assert(all.take(n as int) =~= all);
    r
}

} // verus!
