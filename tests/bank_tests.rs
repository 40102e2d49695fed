use bank::{worker, Bank, Failure, LoadError, Mode, Transaction};

fn deposit(id: usize, to: u16, amount: u64) -> Transaction {
    Transaction::new(id, 0, to, amount, 0)
}

fn withdrawal(id: usize, from: u16, amount: u64) -> Transaction {
    Transaction::new(id, from, 0, amount, 1)
}

fn transfer(id: usize, from: u16, to: u16, amount: u64) -> Transaction {
    Transaction::new(id, from, to, amount, 2)
}

fn bank_of(num_accounts: u16, ts: Vec<Transaction>) -> Bank {
    match Bank::new(num_accounts, ts) {
        Ok(b) => b,
        Err(e) => panic!("bank refused its ledger: {:?}", e),
    }
}

/// Lets `workers` workers take steps in turn until the ledger is empty; returns, for each
/// worker, the ids of the transactions it claimed.
fn run_in_turns(bank: &mut Bank, workers: usize) -> Vec<Vec<usize>> {
    let mut claims: Vec<Vec<usize>> = vec![Vec::new(); workers];
    let mut done = vec![false; workers];
    while done.iter().any(|d| !d) {
        for w in 0..workers {
            if done[w] {
                continue;
            }
            match worker(bank) {
                Some((t, _)) => claims[w].push(t.id),
                None => done[w] = true,
            }
        }
    }
    claims
}

#[test]
fn mode_ids_decode() {
    assert_eq!(Mode::from_id(0), Some(Mode::Deposit));
    assert_eq!(Mode::from_id(1), Some(Mode::Withdrawal));
    assert_eq!(Mode::from_id(2), Some(Mode::Transfer));
    assert_eq!(Mode::from_id(3), None);
    assert_eq!(Mode::from_id(255), None);
}

#[test]
fn transaction_new_keeps_fields() {
    let t = Transaction::new(7, 1, 2, 350, 2);
    assert_eq!(t.id, 7);
    assert_eq!(t.from_id, 1);
    assert_eq!(t.to_id, 2);
    assert_eq!(t.amount, 350);
    assert_eq!(t.mode, Mode::Transfer);
}

#[test]
fn new_bank_starts_at_zero() {
    let b = bank_of(3, vec![deposit(0, 2, 5)]);
    assert_eq!(b.num_accounts(), 3);
    for id in 0..3u16 {
        assert_eq!(b.balance(id), 0);
    }
    assert_eq!(b.num_transactions(), 1);
    assert_eq!(b.num_succeeded(), 0);
    assert_eq!(b.num_failed(), 0);
}

#[test]
fn new_bank_rejects_unknown_account() {
    let r = Bank::new(3, vec![deposit(0, 1, 5), withdrawal(1, 3, 5), deposit(2, 9, 1)]);
    assert!(matches!(r, Err(LoadError::InvalidAccountId { index: 1 })));
    let r = Bank::new(3, vec![transfer(0, 0, 3, 5)]);
    assert!(matches!(r, Err(LoadError::InvalidAccountId { index: 0 })));
}

#[test]
fn fixed_ledger_same_outcome_for_any_worker_count() {
    for workers in [1usize, 4, 16] {
        let mut b = bank_of(3, vec![deposit(0, 0, 100), withdrawal(1, 0, 50), transfer(2, 0, 1, 30)]);
        run_in_turns(&mut b, workers);
        assert_eq!(b.balance(0), 20);
        assert_eq!(b.balance(1), 30);
        assert_eq!(b.balance(2), 0);
        assert_eq!(b.num_succeeded(), 3);
        assert_eq!(b.num_failed(), 0);
        assert_eq!(b.num_succeeded() + b.num_failed(), b.num_transactions());
    }
}

#[test]
fn process_transaction_drains_ledger() {
    let mut b = bank_of(3, vec![deposit(0, 0, 100), withdrawal(1, 0, 50), transfer(2, 0, 1, 30)]);
    assert_eq!(b.process_transaction(), 3);
    assert_eq!(b.balance(0), 20);
    assert_eq!(b.balance(1), 30);
    assert_eq!(b.balance(2), 0);
    assert_eq!(b.num_succeeded(), 3);
    assert!(b.pending_transactions().is_empty());
    assert_eq!(b.process_transaction(), 0);
    assert!(worker(&mut b).is_none());
}

#[test]
fn process_transaction_goes_on_after_failures() {
    let mut b = bank_of(2, vec![withdrawal(0, 0, 5), transfer(1, 1, 1, 1), deposit(2, 1, 100), deposit(3, 1, 100)]);
    assert_eq!(b.process_transaction(), 4);
    assert_eq!(b.balance(1), 200);
    assert_eq!(b.num_failed(), 2);
    assert_eq!(b.num_succeeded(), 2);
}

#[test]
fn worker_takes_one_step() {
    let mut b = bank_of(1, vec![deposit(0, 0, 100), deposit(1, 0, 100)]);
    let (t, outcome) = worker(&mut b).unwrap();
    assert_eq!(t.id, 0);
    assert_eq!(outcome, Ok(()));
    assert_eq!(b.balance(0), 100);
    let pending = b.pending_transactions();
    assert_eq!(pending.len(), 1);
    assert_eq!(pending[0].id, 1);
}

#[test]
fn counts_cover_every_transaction() {
    let ts = vec![
        deposit(0, 0, 10),
        withdrawal(1, 1, 5),
        transfer(2, 0, 0, 1),
        transfer(3, 0, 1, 4),
        withdrawal(4, 0, 7),
    ];
    let mut b = bank_of(2, ts);
    run_in_turns(&mut b, 3);
    assert_eq!(b.num_succeeded(), 2);
    assert_eq!(b.num_failed(), 3);
    assert_eq!(b.num_succeeded() + b.num_failed(), 5);
    assert_eq!(b.balance(0), 6);
    assert_eq!(b.balance(1), 4);
}

#[test]
fn overdraft_withdrawal_fails() {
    let mut b = bank_of(1, vec![deposit(0, 0, 50), withdrawal(1, 0, 60)]);
    assert_eq!(worker(&mut b).map(|s| s.1), Some(Ok(())));
    let (t, outcome) = worker(&mut b).unwrap();
    assert_eq!(t.id, 1);
    assert_eq!(outcome, Err(Failure::InsufficientFunds));
    assert_eq!(b.balance(0), 50);
    assert_eq!(b.num_failed(), 1);
}

#[test]
fn withdraw_directly() {
    let mut b = bank_of(2, vec![]);
    assert_eq!(b.deposit(1, 50), Ok(()));
    assert_eq!(b.withdraw(1, 60), Err(Failure::InsufficientFunds));
    assert_eq!(b.balance(1), 50);
    assert_eq!(b.num_succeeded(), 1);
    assert_eq!(b.num_failed(), 1);
    assert_eq!(b.withdraw(1, 50), Ok(()));
    assert_eq!(b.balance(1), 0);
    assert_eq!(b.num_succeeded(), 2);
    assert_eq!(b.num_failed(), 1);
}

#[test]
fn direct_overdraft_counts_one_failure() {
    let mut b = bank_of(1, vec![]);
    assert_eq!(b.deposit(0, 50), Ok(()));
    assert_eq!(b.withdraw(0, 60), Err(Failure::InsufficientFunds));
    assert_eq!(b.balance(0), 50);
    assert_eq!(b.num_succeeded(), 1);
    assert_eq!(b.num_failed(), 1);
}

#[test]
fn deposit_into_fresh_bank_counts() {
    let mut b = bank_of(3, vec![]);
    assert_eq!(b.deposit(2, 100), Ok(()));
    assert_eq!(b.balance(0), 0);
    assert_eq!(b.balance(1), 0);
    assert_eq!(b.balance(2), 100);
    assert_eq!(b.num_succeeded(), 1);
    assert_eq!(b.num_failed(), 0);
}

#[test]
fn opposite_transfers_leave_balances() {
    let ts = vec![deposit(0, 0, 100), deposit(1, 1, 40), transfer(2, 0, 1, 25), transfer(3, 1, 0, 25)];
    let mut b = bank_of(2, ts);
    run_in_turns(&mut b, 2);
    assert_eq!(b.balance(0), 100);
    assert_eq!(b.balance(1), 40);
    assert_eq!(b.num_succeeded(), 4);
}

#[test]
fn transfer_keeps_sum() {
    let mut b = bank_of(3, vec![]);
    b.deposit(0, 70).unwrap();
    b.deposit(2, 5).unwrap();
    assert_eq!(b.transfer(0, 2, 30), Ok(()));
    assert_eq!(b.balance(0), 40);
    assert_eq!(b.balance(2), 35);
    assert_eq!(b.balance(0) + b.balance(2), 75);
    assert_eq!(b.balance(1), 0);
    assert_eq!(b.num_succeeded(), 3);
    assert_eq!(b.num_failed(), 0);
}

#[test]
fn transfer_without_funds_fails() {
    let mut b = bank_of(2, vec![]);
    b.deposit(0, 10).unwrap();
    assert_eq!(b.transfer(0, 1, 11), Err(Failure::InsufficientFunds));
    assert_eq!(b.balance(0), 10);
    assert_eq!(b.balance(1), 0);
    assert_eq!(b.num_failed(), 1);
    assert_eq!(b.transfer(0, 1, 10), Ok(()));
    assert_eq!(b.balance(0), 0);
    assert_eq!(b.balance(1), 10);
}

#[test]
fn transfer_to_same_account_fails() {
    let mut b = bank_of(2, vec![deposit(0, 1, 10), transfer(1, 1, 1, 5), transfer(2, 0, 0, 0)]);
    b.process_transaction();
    assert_eq!(b.balance(1), 10);
    assert_eq!(b.num_failed(), 2);
    assert_eq!(b.transfer(1, 1, 1), Err(Failure::SameAccount));
    assert_eq!(b.transfer(1, 1, 1000), Err(Failure::SameAccount));
    assert_eq!(b.transfer(7, 7, 1), Err(Failure::SameAccount));
    assert_eq!(b.balance(1), 10);
    assert_eq!(b.num_failed(), 5);
    assert_eq!(b.num_succeeded(), 1);
}

#[test]
fn deposit_overflow_fails() {
    let mut b = bank_of(2, vec![]);
    assert_eq!(b.deposit(0, u64::MAX), Ok(()));
    assert_eq!(b.deposit(0, 1), Err(Failure::BalanceOverflow));
    assert_eq!(b.balance(0), u64::MAX);
    assert_eq!(b.deposit(1, 1), Ok(()));
    assert_eq!(b.transfer(1, 0, 1), Err(Failure::BalanceOverflow));
    assert_eq!(b.balance(1), 1);
    assert_eq!(b.deposit(0, 0), Ok(()));
}

#[test]
fn every_claim_once_empty_ledger() {
    let mut b = bank_of(1, vec![]);
    let claims = run_in_turns(&mut b, 4);
    assert!(claims.iter().all(|c| c.is_empty()));
    assert_eq!(b.num_succeeded() + b.num_failed(), 0);
}

#[test]
fn every_claim_once_single_transaction() {
    let mut b = bank_of(1, vec![deposit(0, 0, 1)]);
    let claims = run_in_turns(&mut b, 4);
    let all: Vec<usize> = claims.into_iter().flatten().collect();
    assert_eq!(all, vec![0]);
}

#[test]
fn every_claim_once_many_transactions() {
    let n = 1000usize;
    let ts: Vec<Transaction> = (0..n).map(|i| deposit(i, (i % 5) as u16, 1)).collect();
    let mut b = bank_of(5, ts);
    let claims = run_in_turns(&mut b, 3);
    let mut seen = vec![0u32; n];
    for c in &claims {
        for id in c {
            seen[*id] += 1;
        }
    }
    assert!(seen.iter().all(|k| *k == 1));
    assert!(claims.iter().all(|c| !c.is_empty()));
    for a in 0..5u16 {
        assert_eq!(b.balance(a), 200);
    }
    assert_eq!(b.num_succeeded(), n);
}
