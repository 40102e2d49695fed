use vstd::prelude::*;

use crate::ledger::{Ledger, LoadError};
use crate::transaction::{
    apply_spec, deposit_spec, names_valid_accounts, run_spec, succeeded_spec, transfer_spec,
    withdraw_spec, Failure, Mode, Transaction,
};

verus! {

/// The accounts of a run, the ledger that feeds them, and the tally of outcomes.
///
/// Account `i` is the `i`-th balance, in cents. Every transaction of the ledger names only
/// existing accounts. Every deposit, withdrawal and transfer, whether claimed from the ledger
/// or asked for directly, is counted once, as a success or as a failure.
pub struct Bank {
    balances: Vec<u64>,
    ledger: Ledger,
    num_succeeded: usize,
    num_failed: usize,
}

/// `after` is `before` with its oldest pending transaction claimed, carried out and tallied.
pub open spec fn is_step(before: Bank, after: Bank) -> bool {
    let t = before.ledger().pending()[0];
    let (b, outcome) = apply_spec(before.balances(), t);
    &&& before.ledger().pending().len() > 0
    &&& after.ledger().all() == before.ledger().all()
    &&& after.ledger().claimed() == before.ledger().claimed().push(t)
    &&& after.ledger().pending() == before.ledger().pending().drop_first()
    &&& after.balances() == b
    &&& after.succeeded() == before.succeeded() + if outcome is Ok {
        1nat
    } else {
        0nat
    }
    &&& after.failed() == before.failed() + if outcome is Ok {
        0nat
    } else {
        1nat
    }
}

impl Bank {
    /// The balance of each account, by account id.
    pub closed spec fn balances(&self) -> Seq<u64> {
        self.balances@
    }

    /// The ledger of the run.
    pub closed spec fn ledger(&self) -> Ledger {
        self.ledger
    }

    /// How many claimed transactions succeeded.
    pub closed spec fn succeeded(&self) -> nat {
        self.num_succeeded as nat
    }

    /// How many claimed transactions failed.
    pub closed spec fn failed(&self) -> nat {
        self.num_failed as nat
    }

    /// Account ids fit in a `u16` and every transaction of the ledger names existing accounts.
    pub closed spec fn wf(&self) -> bool {
        &&& self.ledger.wf()
        &&& self.balances@.len() <= u16::MAX
        &&& forall|i: int|
            0 <= i < self.ledger.all().len() ==> names_valid_accounts(
                #[trigger] self.ledger.all()[i],
                self.balances@.len(),
            )
    }

    /// How many outcomes have been counted, successes and failures together.
    pub open spec fn tally(&self) -> nat {
        self.succeeded() + self.failed()
    }

    /// A bank of `num_accounts` accounts at zero, with `transactions` pending in that order.
    ///
    /// Fails with `InvalidAccountId` at the first transaction that names an account outside
    /// `0..num_accounts`.
    pub fn new(num_accounts: u16, transactions: Vec<Transaction>) -> (r: Result<Bank, LoadError>)
        ensures
            match r {
                Ok(bank) => {
                    &&& bank.wf()
                    &&& bank.balances() == Seq::new(num_accounts as nat, |i: int| 0u64)
                    &&& bank.ledger().all() == transactions@
                    &&& bank.ledger().pending() == transactions@
                    &&& bank.succeeded() == 0
                    &&& bank.failed() == 0
                    &&& forall|i: int|
                        0 <= i < transactions@.len() ==> names_valid_accounts(
                            #[trigger] transactions@[i],
                            num_accounts as nat,
                        )
                },
                Err(LoadError::InvalidAccountId { index }) => {
                    &&& index < transactions@.len()
                    &&& !names_valid_accounts(transactions@[index as int], num_accounts as nat)
                    &&& forall|i: int|
                        0 <= i < index ==> names_valid_accounts(
                            #[trigger] transactions@[i],
                            num_accounts as nat,
                        )
                },
                Err(_) => false,
            },
    {
        let mut i: usize = 0;
        while i < transactions.len()
            invariant
                i <= transactions@.len(),
                forall|j: int|
                    0 <= j < i ==> names_valid_accounts(
                        #[trigger] transactions@[j],
                        num_accounts as nat,
                    ),
            decreases transactions@.len() - i,
        {
            let t = &transactions[i];
            let valid = match t.mode {
                Mode::Deposit => t.to_id < num_accounts,
                Mode::Withdrawal => t.from_id < num_accounts,
                Mode::Transfer => t.from_id < num_accounts && t.to_id < num_accounts,
            };
            if !valid {
                return Err(LoadError::InvalidAccountId { index: i });
            }
            i = i + 1;
        }
        let mut balances: Vec<u64> = Vec::new();
        let mut k: u16 = 0;
        while k < num_accounts
            invariant
                k <= num_accounts,
                balances@ == Seq::new(k as nat, |i: int| 0u64),
            decreases num_accounts - k,
        {
            balances.push(0);
            k = k + 1;
            assert(balances@ =~= Seq::new(k as nat, |i: int| 0u64));
        }
        let ledger = Ledger::new(transactions);
        Ok(Bank { balances, ledger, num_succeeded: 0, num_failed: 0 })
    }

    /// The number of accounts.
    pub fn num_accounts(&self) -> (r: usize)
        ensures
            r == self.balances().len(),
    {
        self.balances.len()
    }

    /// The balance of account `account_id`.
    pub fn balance(&self, account_id: u16) -> (r: u64)
        requires
            account_id < self.balances().len(),
        ensures
            r == self.balances()[account_id as int],
    {
        self.balances[account_id as usize]
    }

    /// The number of transactions the bank was loaded with.
    pub fn num_transactions(&self) -> (r: usize)
        ensures
            r == self.ledger().all().len(),
    {
        self.ledger.len()
    }

    /// The transactions still waiting to be claimed, oldest first.
    pub fn pending_transactions(&self) -> (r: Vec<Transaction>)
        requires
            self.wf(),
        ensures
            r@ == self.ledger().pending(),
    {
        self.ledger.pending_transactions()
    }

    /// The number of transactions carried out successfully so far.
    pub fn num_succeeded(&self) -> (r: usize)
        ensures
            r == self.succeeded(),
    {
        self.num_succeeded
    }

    /// The number of transactions that failed so far.
    pub fn num_failed(&self) -> (r: usize)
        ensures
            r == self.failed(),
    {
        self.num_failed
    }

    /// Adds `amount` to account `account_id`. Fails, changing no balance, only where the balance
    /// would overflow. Counts its outcome as one success or one failure.
    pub fn deposit(&mut self, account_id: u16, amount: u64) -> (r: Result<(), Failure>)
        requires
            account_id < old(self).balances().len(),
            old(self).tally() < usize::MAX,
        ensures
            final(self).wf() == old(self).wf(),
            (final(self).balances(), r) == deposit_spec(old(self).balances(), account_id as int, amount),
            final(self).ledger() == old(self).ledger(),
            final(self).succeeded() == old(self).succeeded() + if r is Ok {
                1nat
            } else {
                0nat
            },
            final(self).failed() == old(self).failed() + if r is Ok {
                0nat
            } else {
                1nat
            },
    {
        let id = account_id as usize;
        let current = self.balances[id];
        if current > u64::MAX - amount {
            self.num_failed = self.num_failed + 1;
            return Err(Failure::BalanceOverflow);
        }
        self.balances.set(id, current + amount);
        self.num_succeeded = self.num_succeeded + 1;
        Ok(())
    }

    /// Takes `amount` out of account `account_id`. Fails with `InsufficientFunds`, changing no
    /// balance, where the account holds less than `amount`. Counts its outcome as one success
    /// or one failure.
    pub fn withdraw(&mut self, account_id: u16, amount: u64) -> (r: Result<(), Failure>)
        requires
            account_id < old(self).balances().len(),
            old(self).tally() < usize::MAX,
        ensures
            final(self).wf() == old(self).wf(),
            (final(self).balances(), r) == withdraw_spec(old(self).balances(), account_id as int, amount),
            r is Ok <==> amount <= old(self).balances()[account_id as int],
            r is Err ==> r == Err::<(), Failure>(Failure::InsufficientFunds)
                && final(self).balances() == old(self).balances(),
            final(self).ledger() == old(self).ledger(),
            final(self).succeeded() == old(self).succeeded() + if r is Ok {
                1nat
            } else {
                0nat
            },
            final(self).failed() == old(self).failed() + if r is Ok {
                0nat
            } else {
                1nat
            },
    {
        let id = account_id as usize;
        let current = self.balances[id];
        if current < amount {
            self.num_failed = self.num_failed + 1;
            return Err(Failure::InsufficientFunds);
        }
        self.balances.set(id, current - amount);
        self.num_succeeded = self.num_succeeded + 1;
        Ok(())
    }

    /// Moves `amount` from account `from_id` to account `to_id`. Fails, changing no balance, with
    /// `SameAccount` where the two are one account, else with `InsufficientFunds` where the
    /// source holds less than `amount`, else with `BalanceOverflow` where the destination
    /// balance would overflow. A transfer that succeeds keeps the sum of the two balances.
    /// Like a deposit and a withdrawal, it counts its outcome as one success or one failure.
    pub fn transfer(&mut self, from_id: u16, to_id: u16, amount: u64) -> (r: Result<(), Failure>)
        requires
            from_id == to_id || (from_id < old(self).balances().len() && to_id
                < old(self).balances().len()),
            old(self).tally() < usize::MAX,
        ensures
            final(self).wf() == old(self).wf(),
            (final(self).balances(), r) == transfer_spec(
                old(self).balances(),
                from_id as int,
                to_id as int,
                amount,
            ),
            from_id == to_id ==> r == Err::<(), Failure>(Failure::SameAccount),
            r is Ok ==> final(self).balances()[from_id as int] + final(self).balances()[to_id as int]
                == old(self).balances()[from_id as int] + old(self).balances()[to_id as int],
            r is Ok ==> amount <= old(self).balances()[from_id as int],
            from_id != to_id && old(self).balances()[from_id as int] < amount ==> r == Err::<
                (),
                Failure,
            >(Failure::InsufficientFunds),
            r is Err ==> final(self).balances() == old(self).balances(),
            final(self).ledger() == old(self).ledger(),
            final(self).succeeded() == old(self).succeeded() + if r is Ok {
                1nat
            } else {
                0nat
            },
            final(self).failed() == old(self).failed() + if r is Ok {
                0nat
            } else {
                1nat
            },
    {
        if from_id == to_id {
            self.num_failed = self.num_failed + 1;
            return Err(Failure::SameAccount);
        }
        let from = from_id as usize;
        let to = to_id as usize;
        let source = self.balances[from];
        let destination = self.balances[to];
        if source < amount {
            self.num_failed = self.num_failed + 1;
            return Err(Failure::InsufficientFunds);
        }
        if destination > u64::MAX - amount {
            self.num_failed = self.num_failed + 1;
            return Err(Failure::BalanceOverflow);
        }
        self.balances.set(from, source - amount);
        self.balances.set(to, destination + amount);
        self.num_succeeded = self.num_succeeded + 1;
        Ok(())
    }

    /// Carries out `t` on the balances and counts its outcome.
    fn execute(&mut self, t: &Transaction) -> (r: Result<(), Failure>)
        requires
            names_valid_accounts(*t, old(self).balances().len()),
            old(self).tally() < usize::MAX,
        ensures
            final(self).wf() == old(self).wf(),
            (final(self).balances(), r) == apply_spec(old(self).balances(), *t),
            final(self).ledger() == old(self).ledger(),
            final(self).succeeded() == old(self).succeeded() + if r is Ok {
                1nat
            } else {
                0nat
            },
            final(self).failed() == old(self).failed() + if r is Ok {
                0nat
            } else {
                1nat
            },
    {
        match t.mode {
            Mode::Deposit => self.deposit(t.to_id, t.amount),
            Mode::Withdrawal => self.withdraw(t.from_id, t.amount),
            Mode::Transfer => self.transfer(t.from_id, t.to_id, t.amount),
        }
    }

    /// Claims and carries out transactions, one step at a time in ledger order, until the
    /// ledger is empty, and returns how many it carried out. A failed transaction is counted
    /// and the run goes on.
    pub fn process_transaction(&mut self) -> (processed: usize)
        requires
            old(self).wf(),
            old(self).tally() + old(self).ledger().pending().len() <= usize::MAX,
        ensures
            final(self).wf(),
            processed == old(self).ledger().pending().len(),
            final(self).ledger().pending().len() == 0,
            final(self).ledger().all() == old(self).ledger().all(),
            final(self).balances() == run_spec(old(self).balances(), old(self).ledger().pending()),
            final(self).succeeded() == old(self).succeeded() + succeeded_spec(
                old(self).balances(),
                old(self).ledger().pending(),
            ),
            final(self).succeeded() + final(self).failed() == old(self).succeeded()
                + old(self).failed() + old(self).ledger().pending().len(),
    {
        let ghost start = *self;
        let ghost p = start.ledger().pending();
        let mut processed: usize = 0;
        proof {
            assert(p.take(0) =~= Seq::<Transaction>::empty());
            assert(p.skip(0) =~= p);
        }
        loop
            invariant
                self.wf(),
                start == *old(self),
                processed <= p.len(),
                self.ledger().all() == start.ledger().all(),
                self.ledger().pending() == p.skip(processed as int),
                self.balances() == run_spec(start.balances(), p.take(processed as int)),
                self.succeeded() == start.succeeded() + succeeded_spec(
                    start.balances(),
                    p.take(processed as int),
                ),
                self.succeeded() + self.failed() == start.succeeded() + start.failed() + processed,
                start.tally() + p.len() <= usize::MAX,
            ensures
                processed == p.len(),
                self.ledger().pending().len() == 0,
            decreases p.len() - processed,
        {
            let ghost before = *self;
            assert(self.ledger().pending().len() == p.len() - processed);
            match worker(self) {
                None => {
                    assert(p.skip(processed as int).len() == 0);
                    assert(p.take(processed as int) =~= p);
                    break;
                },
                Some(_) => {
                    proof {
                        crate::ledger::lemma_claims_partition_ledger(before.ledger);
                        assert(is_step(before, *self));
                        let k = processed + 1;
                        assert(p.take(k).drop_last() =~= p.take(processed as int));
                        assert(p.take(k).last() == p[processed as int]);
                        assert(before.ledger().pending().drop_first() =~= p.skip(k));
                    }
                    processed = processed + 1;
                },
            }
        }
        processed
    }

}


/// The money held by all accounts together.
pub open spec fn total(b: Seq<u64>) -> int
    decreases b.len(),
{
    if b.len() == 0 {
        0
    } else {
        total(b.drop_last()) + b.last()
    }
}

proof fn lemma_total_update(b: Seq<u64>, i: int, v: u64)
    requires
        0 <= i < b.len(),
    ensures
        total(b.update(i, v)) == total(b) - b[i] + v,
    decreases b.len(),
{
    if i == b.len() - 1 {
        assert(b.update(i, v).drop_last() =~= b.drop_last());
    } else {
        lemma_total_update(b.drop_last(), i, v);
        assert(b.update(i, v).drop_last() =~= b.drop_last().update(i, v));
    }
}

/// Money enters only by deposits and leaves only by withdrawals: a transaction that
/// succeeds changes the total by its amount for a deposit, by minus its amount for a
/// withdrawal, and not at all for a transfer; one that fails leaves the total as it was.
pub proof fn lemma_money_conserved(b: Seq<u64>, t: Transaction)
    requires
        names_valid_accounts(t, b.len()),
    ensures
        ({
            let (nb, r) = apply_spec(b, t);
            let moved = if r is Ok {
                t.amount as int
            } else {
                0
            };
            &&& t.mode == Mode::Deposit ==> total(nb) == total(b) + moved
            &&& t.mode == Mode::Withdrawal ==> total(nb) == total(b) - moved
            &&& t.mode == Mode::Transfer ==> total(nb) == total(b)
        }),
{
    let (nb, r) = apply_spec(b, t);
    if r is Ok {
        match t.mode {
            Mode::Deposit => {
                lemma_total_update(b, t.to_id as int, nb[t.to_id as int]);
            },
            Mode::Withdrawal => {
                lemma_total_update(b, t.from_id as int, nb[t.from_id as int]);
            },
            Mode::Transfer => {
                let from = t.from_id as int;
                let to = t.to_id as int;
                let mid = b.update(from, (b[from] - t.amount) as u64);
                lemma_total_update(b, from, mid[from]);
                lemma_total_update(mid, to, (b[to] + t.amount) as u64);
            },
        }
    }
}

/// A transfer that succeeds keeps the sum of the two balances it touches, and leaves every
/// other balance as it was.
pub proof fn lemma_transfer_conserves_sum(b: Seq<u64>, from: int, to: int, amount: u64)
    requires
        0 <= from < b.len(),
        0 <= to < b.len(),
    ensures
        transfer_spec(b, from, to, amount).1 is Ok ==> {
            let nb = transfer_spec(b, from, to, amount).0;
            &&& nb[from] + nb[to] == b[from] + b[to]
            &&& nb.len() == b.len()
            &&& forall|i: int| 0 <= i < b.len() && i != from && i != to ==> nb[i] == b[i]
        },
{
}

/// A withdrawal or transfer that succeeds takes no more than the source holds; one whose
/// source holds less than the amount fails with `InsufficientFunds` and changes no balance
/// (a transfer to its own source fails with `SameAccount` first).
pub proof fn lemma_no_overdraft(b: Seq<u64>, t: Transaction)
    requires
        names_valid_accounts(t, b.len()),
        t.mode != Mode::Deposit,
    ensures
        apply_spec(b, t).1 is Ok ==> t.amount <= b[t.from_id as int] && apply_spec(b, t).0[t.from_id as int]
            == b[t.from_id as int] - t.amount,
        b[t.from_id as int] < t.amount && !(t.mode == Mode::Transfer && t.from_id == t.to_id)
            ==> apply_spec(b, t) == (b, Err::<(), Failure>(Failure::InsufficientFunds)),
{
}

/// A transfer whose source and destination are one account always fails with `SameAccount`
/// and changes no balance.
pub proof fn lemma_same_account_transfer(b: Seq<u64>, t: Transaction)
    requires
        t.mode == Mode::Transfer,
        t.from_id == t.to_id,
    ensures
        apply_spec(b, t) == (b, Err::<(), Failure>(Failure::SameAccount)),
{
}

/// Two transfers of one amount in opposite directions between two accounts, the first of which
/// succeeds, leave every balance as it was.
pub proof fn lemma_opposite_transfers_cancel(b: Seq<u64>, there: Transaction, back: Transaction)
    requires
        there.mode == Mode::Transfer,
        back.mode == Mode::Transfer,
        names_valid_accounts(there, b.len()),
        back.from_id == there.to_id,
        back.to_id == there.from_id,
        back.amount == there.amount,
        apply_spec(b, there).1 is Ok,
    ensures
        run_spec(b, seq![there, back]) == b,
{
    let ts = seq![there, back];
    assert(ts.drop_last() =~= seq![there]);
    assert(seq![there].drop_last() =~= Seq::<Transaction>::empty());
    let mid = apply_spec(b, there).0;
    assert(run_spec(b, Seq::<Transaction>::empty()) == b);
    assert(seq![there].last() == there);
    assert(run_spec(b, seq![there]) == mid);
    assert(ts.last() == back);
    assert(apply_spec(mid, back).0 =~= b);
}

/// Run from a fresh bank until its ledger is drained, by steps spread over any number of
/// workers, every loaded transaction is counted exactly once, as a success or as a failure.
pub proof fn lemma_tally_complete(states: Seq<Bank>)
    requires
        states.len() >= 1,
        states[0].wf(),
        states[0].succeeded() == 0,
        states[0].failed() == 0,
        states[0].ledger().claimed().len() == 0,
        forall|i: int| 0 <= i < states.len() - 1 ==> is_step(#[trigger] states[i], states[i + 1]),
        states.last().ledger().pending().len() == 0,
    ensures
        states.last().succeeded() + states.last().failed() == states[0].ledger().all().len(),
{
    lemma_steps_follow_ledger(states);
    crate::ledger::lemma_claims_partition_ledger(states[0].ledger());
}

/// However the steps of a run are spread over workers, each step carries out the oldest
/// pending transaction. So after any `k` steps the balances and the tally are those of
/// carrying out the first `k` pending transactions in order, one after another: they depend
/// on the ledger and the starting state alone, not on how many workers took the steps.
pub proof fn lemma_steps_follow_ledger(states: Seq<Bank>)
    requires
        states.len() >= 1,
        forall|i: int| 0 <= i < states.len() - 1 ==> is_step(#[trigger] states[i], states[i + 1]),
    ensures
        ({
            let first = states[0];
            let last = states.last();
            let k = states.len() - 1;
            &&& k <= first.ledger().pending().len()
            &&& last.ledger().all() == first.ledger().all()
            &&& last.ledger().claimed() == first.ledger().claimed() + first.ledger().pending().take(k)
            &&& last.ledger().pending() == first.ledger().pending().skip(k)
            &&& last.balances() == run_spec(first.balances(), first.ledger().pending().take(k))
            &&& last.succeeded() == first.succeeded() + succeeded_spec(
                first.balances(),
                first.ledger().pending().take(k),
            )
            &&& last.succeeded() + last.failed() == first.succeeded() + first.failed() + k
        }),
    decreases states.len(),
{
    let first = states[0];
    let p = first.ledger().pending();
    if states.len() == 1 {
        assert(p.take(0) =~= Seq::<Transaction>::empty());
        assert(p.skip(0) =~= p);
        assert(first.ledger().claimed() + p.take(0) =~= first.ledger().claimed());
    } else {
        let prefix = states.drop_last();
        assert forall|i: int| 0 <= i < prefix.len() - 1 implies is_step(
            #[trigger] prefix[i],
            prefix[i + 1],
        ) by {
            assert(is_step(states[i], states[i + 1]));
        }
        lemma_steps_follow_ledger(prefix);
        let k = states.len() - 1;
        let mid = prefix.last();
        assert(mid == states[k - 1]);
        assert(is_step(states[k - 1], states[k]));
        assert(mid.ledger().pending().len() > 0);
        assert(mid.ledger().pending()[0] == p[k - 1]);
        assert(p.take(k).drop_last() =~= p.take(k - 1));
        assert(p.take(k).last() == p[k - 1]);
        assert(mid.ledger().pending().drop_first() =~= p.skip(k));
        assert(first.ledger().claimed() + p.take(k) =~= (first.ledger().claimed() + p.take(k
            - 1)).push(p[k - 1]));
    }
}


/// One worker's turn: claims the oldest pending transaction, carries it out and counts its
/// outcome, as one step. Returns the transaction and its outcome, or `None`, changing
/// nothing, when the ledger is empty.
pub fn worker(bank: &mut Bank) -> (r: Option<(Transaction, Result<(), Failure>)>)
    requires
        old(bank).wf(),
        old(bank).ledger().pending().len() > 0 ==> old(bank).tally() < usize::MAX,
    ensures
        final(bank).wf(),
        final(bank).ledger().all() == old(bank).ledger().all(),
        old(bank).ledger().pending().len() == 0 ==> r is None && *final(bank) == *old(bank),
        old(bank).ledger().pending().len() > 0 ==> is_step(*old(bank), *final(bank)) && r == Some(
            (
                old(bank).ledger().pending()[0],
                apply_spec(old(bank).balances(), old(bank).ledger().pending()[0]).1,
            ),
        ),
{
    let claimed = bank.ledger.claim_next();
    match claimed {
        None => None,
        Some(t) => {
            proof {
                crate::ledger::lemma_claims_partition_ledger(old(bank).ledger);
                crate::ledger::lemma_claims_partition_ledger(bank.ledger);
                assert(old(bank).ledger.all()[old(bank).ledger.claimed().len() as int] == t);
            }
            let outcome = bank.execute(&t);
            Some((t, outcome))
        },
    }
}

} // verus!
