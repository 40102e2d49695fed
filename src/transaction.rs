use vstd::prelude::*;

verus! {

/// The kind of money movement a transaction requests.
#[derive(Clone, Copy, Debug, PartialEq, Eq, Structural)]
pub enum Mode {
    Deposit,
    Withdrawal,
    Transfer,
}

/// The mode that a numeric mode identifier stands for: `0`, `1` and `2` are a deposit,
/// a withdrawal and a transfer; every other identifier stands for none.
pub open spec fn mode_of(mode_id: nat) -> Option<Mode> {
    if mode_id == 0 {
        Some(Mode::Deposit)
    } else if mode_id == 1 {
        Some(Mode::Withdrawal)
    } else if mode_id == 2 {
        Some(Mode::Transfer)
    } else {
        None
    }
}

impl Mode {
    /// Decodes a numeric mode identifier.
    pub fn from_id(mode_id: u8) -> (r: Option<Mode>)
        ensures
            r == mode_of(mode_id as nat),
    {
        match mode_id {
            0 => Some(Mode::Deposit),
            1 => Some(Mode::Withdrawal),
            2 => Some(Mode::Transfer),
            _ => None,
        }
    }
}

/// One requested money movement. Amounts are in cents.
///
/// `from_id` is not read for a deposit, `to_id` is not read for a withdrawal.
#[derive(Clone, Copy, Debug, PartialEq, Eq, Structural)]
pub struct Transaction {
    pub id: usize,
    pub from_id: u16,
    pub to_id: u16,
    pub amount: u64,
    pub mode: Mode,
}

impl Transaction {
    /// Builds a transaction from its fields and a numeric mode identifier in `0..=2`.
    pub fn new(id: usize, from_id: u16, to_id: u16, amount: u64, mode_id: u8) -> (r: Transaction)
        requires
            mode_id <= 2,
        ensures
            r.id == id,
            r.from_id == from_id,
            r.to_id == to_id,
            r.amount == amount,
            Some(r.mode) == mode_of(mode_id as nat),
    {
        let mode = match mode_id {
            0 => Mode::Deposit,
            1 => Mode::Withdrawal,
            _ => Mode::Transfer,
        };
        Transaction { id, from_id, to_id, amount, mode }
    }
}


/// Why a transaction was not carried out. Each of these is recoverable: the transaction is
/// counted as failed and the run goes on.
#[derive(Clone, Copy, Debug, PartialEq, Eq, Structural)]
pub enum Failure {
    /// The source account holds less than the amount.
    InsufficientFunds,
    /// A transfer names the same account as source and destination.
    SameAccount,
    /// The destination balance would exceed the largest representable amount.
    BalanceOverflow,
}

/// Whether every account that `t` reads lies in `0..num_accounts`.
pub open spec fn names_valid_accounts(t: Transaction, num_accounts: nat) -> bool {
    match t.mode {
        Mode::Deposit => t.to_id < num_accounts,
        Mode::Withdrawal => t.from_id < num_accounts,
        Mode::Transfer => t.from_id < num_accounts && t.to_id < num_accounts,
    }
}

/// Balances after depositing `amount` into account `id`, and the outcome.
pub open spec fn deposit_spec(b: Seq<u64>, id: int, amount: u64) -> (Seq<u64>, Result<(), Failure>) {
    if b[id] + amount > u64::MAX {
        (b, Err(Failure::BalanceOverflow))
    } else {
        (b.update(id, (b[id] + amount) as u64), Ok(()))
    }
}

/// Balances after withdrawing `amount` from account `id`, and the outcome.
pub open spec fn withdraw_spec(b: Seq<u64>, id: int, amount: u64) -> (Seq<u64>, Result<(), Failure>) {
    if b[id] < amount {
        (b, Err(Failure::InsufficientFunds))
    } else {
        (b.update(id, (b[id] - amount) as u64), Ok(()))
    }
}

/// Balances after moving `amount` from account `from` to account `to`, and the outcome.
pub open spec fn transfer_spec(b: Seq<u64>, from: int, to: int, amount: u64) -> (Seq<u64>, Result<(), Failure>) {
    if from == to {
        (b, Err(Failure::SameAccount))
    } else if b[from] < amount {
        (b, Err(Failure::InsufficientFunds))
    } else if b[to] + amount > u64::MAX {
        (b, Err(Failure::BalanceOverflow))
    } else {
        (b.update(from, (b[from] - amount) as u64).update(to, (b[to] + amount) as u64), Ok(()))
    }
}

/// Balances after carrying out `t`, and the outcome.
pub open spec fn apply_spec(b: Seq<u64>, t: Transaction) -> (Seq<u64>, Result<(), Failure>) {
    match t.mode {
        Mode::Deposit => deposit_spec(b, t.to_id as int, t.amount),
        Mode::Withdrawal => withdraw_spec(b, t.from_id as int, t.amount),
        Mode::Transfer => transfer_spec(b, t.from_id as int, t.to_id as int, t.amount),
    }
}

/// Balances after carrying out `ts` one after another, starting from `b`.
pub open spec fn run_spec(b: Seq<u64>, ts: Seq<Transaction>) -> Seq<u64>
    decreases ts.len(),
{
    if ts.len() == 0 {
        b
    } else {
        apply_spec(run_spec(b, ts.drop_last()), ts.last()).0
    }
}

/// How many of `ts`, carried out one after another from `b`, succeed.
pub open spec fn succeeded_spec(b: Seq<u64>, ts: Seq<Transaction>) -> nat
    decreases ts.len(),
{
    if ts.len() == 0 {
        0
    } else {
        succeeded_spec(b, ts.drop_last()) + if apply_spec(run_spec(b, ts.drop_last()), ts.last()).1 is Ok {
            1nat
        } else {
            0nat
        }
    }
}

} // verus!
