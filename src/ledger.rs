use vstd::prelude::*;

use crate::bank::Bank;
use crate::parse::{
    amount_spec, copy_range, digits_value, find_byte, find_from, is_number, lemma_find_from_bounds,
    lines_from, parse_amount, parse_number, strip_cr, CARRIAGE_RETURN, NEWLINE, SPACE,
};
use crate::transaction::{mode_of, Transaction};

verus! {

/// The pending transactions of a run, claimed one at a time in the order they were loaded.
///
/// A claimed transaction is never handed out again: the claimed ones are always a prefix of
/// the loaded sequence and the pending ones the rest of it.
pub struct Ledger {
    transactions: Vec<Transaction>,
    next: usize,
}

impl Ledger {
    /// Everything the ledger was loaded with, claimed or not.
    pub closed spec fn all(&self) -> Seq<Transaction> {
        self.transactions@
    }

    /// The transactions that have been claimed, in the order they were claimed.
    pub closed spec fn claimed(&self) -> Seq<Transaction> {
        self.transactions@.subrange(0, self.next as int)
    }

    /// The transactions still waiting to be claimed, in the order they will be claimed.
    pub closed spec fn pending(&self) -> Seq<Transaction> {
        self.transactions@.subrange(self.next as int, self.transactions@.len() as int)
    }

    /// The claim cursor stays within the loaded transactions.
    pub closed spec fn wf(&self) -> bool {
        &&& self.next <= self.transactions@.len()
        &&& self.transactions@.len() <= usize::MAX
    }

    /// A ledger holding `transactions`, none of them claimed yet.
    pub fn new(transactions: Vec<Transaction>) -> (r: Ledger)
        ensures
            r.wf(),
            r.all() == transactions@,
            r.claimed() == Seq::<Transaction>::empty(),
            r.pending() == transactions@,
    {
        // The call's contract bounds the length by `usize::MAX`, which `wf` records.
        let _ = transactions.len();
        let r = Ledger { transactions, next: 0 };
        assert(r.claimed() =~= Seq::<Transaction>::empty());
        assert(r.pending() =~= r.all());
        r
    }

    /// The number of transactions the ledger was loaded with.
    pub fn len(&self) -> (r: usize)
        ensures
            r == self.all().len(),
    {
        self.transactions.len()
    }

    /// The transactions still waiting to be claimed, oldest first.
    pub fn pending_transactions(&self) -> (r: Vec<Transaction>)
        requires
            self.wf(),
        ensures
            r@ == self.pending(),
    {
        let mut r: Vec<Transaction> = Vec::new();
        let mut i: usize = self.next;
        while i < self.transactions.len()
            invariant
                self.next <= i <= self.transactions@.len(),
                r@ == self.transactions@.subrange(self.next as int, i as int),
            decreases self.transactions@.len() - i,
        {
            r.push(self.transactions[i]);
            i = i + 1;
            assert(r@ =~= self.transactions@.subrange(self.next as int, i as int));
        }
        r
    }

    /// Whether no transaction is left to claim.
    pub fn is_empty(&self) -> (r: bool)
        requires
            self.wf(),
        ensures
            r == (self.pending().len() == 0),
    {
        self.next >= self.transactions.len()
    }

    /// Removes the oldest pending transaction and hands it out, or `None` when none is left.
    pub fn claim_next(&mut self) -> (r: Option<Transaction>)
        requires
            old(self).wf(),
        ensures
            final(self).wf(),
            final(self).all() == old(self).all(),
            old(self).pending().len() == 0 ==> r is None && *final(self) == *old(self),
            old(self).pending().len() > 0 ==> r == Some(old(self).pending()[0])
                && final(self).claimed() == old(self).claimed().push(old(self).pending()[0])
                && final(self).pending() == old(self).pending().drop_first(),
            final(self).claimed() + final(self).pending() == final(self).all(),
    {
        if self.next >= self.transactions.len() {
            proof {
                assert(self.claimed() + self.pending() =~= self.all());
            }
            None
        } else {
            let t = self.transactions[self.next];
            self.next = self.next + 1;
            proof {
                assert(self.claimed() =~= old(self).claimed().push(old(self).pending()[0]));
                assert(self.pending() =~= old(self).pending().drop_first());
                assert(self.claimed() + self.pending() =~= self.all());
            }
            Some(t)
        }
    }
}

/// Every loaded transaction is either claimed or pending, never both and never neither: the
/// claimed ones followed by the pending ones are exactly what was loaded.
pub proof fn lemma_claims_partition_ledger(l: Ledger)
    requires
        l.wf(),
    ensures
        l.claimed() + l.pending() == l.all(),
        l.claimed().len() + l.pending().len() == l.all().len(),
        l.all().len() <= usize::MAX,
{
    assert(l.claimed() + l.pending() =~= l.all());
}


/// Why a ledger could not be loaded. Each of these stops the run before any work starts.
#[derive(Clone, Copy, Debug, PartialEq, Eq, Structural)]
pub enum LoadError {
    /// The line at this index (from zero) is not four numbers separated by single spaces.
    Malformed { line: usize },
    /// The line at this index names a mode other than `0`, `1` or `2`.
    InvalidMode { line: usize },
    /// The transaction at this index names an account that does not exist.
    InvalidAccountId { index: usize },
}


/// The transaction that line `l`, at index `line` of the file, writes, or why it writes none.
///
/// A line is four fields separated by single spaces: the source account, the destination
/// account, the amount and the mode. The two accounts are numbers that fit in a `u16`, the
/// amount is read by `amount_spec`, the mode is a number that fits in a `u8` and must be `0`,
/// `1` or `2`. The transaction's id is the line's index.
pub open spec fn parse_line_spec(l: Seq<u8>, line: usize) -> Result<Transaction, LoadError> {
    let a = find_from(l, SPACE, 0);
    let b = find_from(l, SPACE, a + 1);
    let c = find_from(l, SPACE, b + 1);
    let from = l.subrange(0, a);
    let to = l.subrange(a + 1, b);
    let amount = l.subrange(b + 1, c);
    let mode = l.subrange(c + 1, l.len() as int);
    if c < l.len() && is_number(from) && digits_value(from) <= u16::MAX && is_number(to)
        && digits_value(to) <= u16::MAX && amount_spec(amount) is Some && is_number(mode)
        && digits_value(mode) <= u8::MAX {
        if digits_value(mode) <= 2 {
            Ok(
                Transaction {
                    id: line,
                    from_id: digits_value(from) as u16,
                    to_id: digits_value(to) as u16,
                    amount: amount_spec(amount)->Some_0,
                    mode: mode_of(digits_value(mode))->Some_0,
                },
            )
        } else {
            Err(LoadError::InvalidMode { line })
        }
    } else {
        Err(LoadError::Malformed { line })
    }
}

/// The transactions that the first `n` of `lines` write, or the error of the first of them
/// that writes none.
pub open spec fn load_lines_spec(lines: Seq<Seq<u8>>, n: nat) -> Result<Seq<Transaction>, LoadError>
    decreases n,
{
    if n == 0 {
        Ok(Seq::empty())
    } else {
        match load_lines_spec(lines, (n - 1) as nat) {
            Err(e) => Err(e),
            Ok(ts) => match parse_line_spec(strip_cr(lines[n - 1]), (n - 1) as usize) {
                Err(e) => Err(e),
                Ok(t) => Ok(ts.push(t)),
            },
        }
    }
}

/// The transactions that a ledger file holds, one per line in order, or the error of its
/// first line that holds none. Lines may end in `\n` or in `\r\n`.
pub open spec fn load_spec(contents: Seq<u8>) -> Result<Seq<Transaction>, LoadError> {
    load_lines_spec(lines_from(contents, 0), lines_from(contents, 0).len())
}

proof fn lemma_load_error_stays(lines: Seq<Seq<u8>>, n: nat, m: nat)
    requires
        n <= m,
        load_lines_spec(lines, n) is Err,
    ensures
        load_lines_spec(lines, m) == load_lines_spec(lines, n),
    decreases m,
{
    if n < m {
        lemma_load_error_stays(lines, n, (m - 1) as nat);
    }
}

/// Reads one line of a ledger file as the transaction with id `line`.
pub fn parse_line(l: &[u8], line: usize) -> (r: Result<Transaction, LoadError>)
    ensures
        r == parse_line_spec(l@, line),
{
    proof {
        lemma_find_from_bounds(l@, SPACE, 0);
    }
    let a = find_byte(l, SPACE, 0);
    if a >= l.len() {
        return Err(LoadError::Malformed { line });
    }
    proof {
        lemma_find_from_bounds(l@, SPACE, a + 1);
    }
    let b = find_byte(l, SPACE, a + 1);
    if b >= l.len() {
        return Err(LoadError::Malformed { line });
    }
    proof {
        lemma_find_from_bounds(l@, SPACE, b + 1);
    }
    let c = find_byte(l, SPACE, b + 1);
    if c >= l.len() {
        return Err(LoadError::Malformed { line });
    }
    let from_field = copy_range(l, 0, a);
    let to_field = copy_range(l, a + 1, b);
    let amount_field = copy_range(l, b + 1, c);
    let mode_field = copy_range(l, c + 1, l.len());
    let from_id = match parse_number(from_field.as_slice(), 65535) {
        Some(v) => v as u16,
        None => {
            return Err(LoadError::Malformed { line });
        },
    };
    let to_id = match parse_number(to_field.as_slice(), 65535) {
        Some(v) => v as u16,
        None => {
            return Err(LoadError::Malformed { line });
        },
    };
    let amount = match parse_amount(amount_field.as_slice()) {
        Some(v) => v,
        None => {
            return Err(LoadError::Malformed { line });
        },
    };
    let mode_id = match parse_number(mode_field.as_slice(), 255) {
        Some(v) => v,
        None => {
            return Err(LoadError::Malformed { line });
        },
    };
    if mode_id > 2 {
        return Err(LoadError::InvalidMode { line });
    }
    Ok(Transaction::new(line, from_id, to_id, amount, mode_id as u8))
}

/// Reads the contents of a ledger file: one transaction per line, numbered from zero in the
/// order of the lines. Fails with the error of the first line that holds no transaction.
pub fn load_ledger(contents: &[u8]) -> (r: Result<Vec<Transaction>, LoadError>)
    ensures
        match r {
            Ok(ts) => load_spec(contents@) == Ok::<Seq<Transaction>, LoadError>(ts@),
            Err(e) => load_spec(contents@) == Err::<Seq<Transaction>, LoadError>(e),
        },
{
    let ghost s = contents@;
    let ghost lines = lines_from(s, 0);
    let ghost mut done: Seq<Seq<u8>> = Seq::empty();
    let mut ts: Vec<Transaction> = Vec::new();
    let mut pos: usize = 0;
    proof {
        assert(lines =~= done + lines_from(s, 0));
    }
    while pos < contents.len()
        invariant
            s == contents@,
            lines == lines_from(s, 0),
            pos <= s.len(),
            lines == done + lines_from(s, pos as int),
            done.len() == ts@.len(),
            ts@.len() <= pos,
            load_lines_spec(lines, ts@.len() as nat) == Ok::<Seq<Transaction>, LoadError>(ts@),
        decreases s.len() - pos,
    {
        proof {
            lemma_find_from_bounds(s, NEWLINE, pos as int);
        }
        let e = find_byte(contents, NEWLINE, pos);
        let ghost full = s.subrange(pos as int, e as int);
        let end = if e > pos && contents[e - 1] == CARRIAGE_RETURN {
            e - 1
        } else {
            e
        };
        let line = copy_range(contents, pos, end);
        let k = ts.len();
        proof {
            assert(lines_from(s, pos as int) == seq![full] + lines_from(s, e + 1));
            assert(lines =~= done.push(full) + lines_from(s, e + 1));
            assert(lines[k as int] == full);
            assert(line@ =~= strip_cr(full));
        }
        match parse_line(line.as_slice(), k) {
            Err(err) => {
                proof {
                    lemma_load_error_stays(lines, (k + 1) as nat, lines.len());
                }
                return Err(err);
            },
            Ok(t) => {
                ts.push(t);
            },
        }
        proof {
            done = done.push(full);
        }
        if e >= contents.len() {
            pos = contents.len();
        } else {
            pos = e + 1;
        }
    }
    proof {
        assert(lines =~= done);
    }
    Ok(ts)
}

/// The number of accounts that a bank made by `init_bank` holds.
pub const NUM_ACCOUNTS: u16 = 10;

/// Loads a ledger file's contents into a new bank of `NUM_ACCOUNTS` accounts at zero.
pub fn init_bank(contents: &[u8]) -> (r: Result<Bank, LoadError>)
    ensures
        match load_spec(contents@) {
            Err(e) => r == Err::<Bank, LoadError>(e),
            Ok(ts) => match r {
                Ok(bank) => {
                    &&& bank.wf()
                    &&& bank.balances() == Seq::new(NUM_ACCOUNTS as nat, |i: int| 0u64)
                    &&& bank.ledger().all() == ts
                    &&& bank.ledger().pending() == ts
                    &&& bank.succeeded() == 0
                    &&& bank.failed() == 0
                },
                Err(LoadError::InvalidAccountId { index }) => {
                    &&& index < ts.len()
                    &&& !crate::transaction::names_valid_accounts(ts[index as int], NUM_ACCOUNTS as nat)
                    &&& forall|i: int|
                        0 <= i < index ==> crate::transaction::names_valid_accounts(
                            #[trigger] ts[i],
                            NUM_ACCOUNTS as nat,
                        )
                },
                Err(_) => false,
            },
        },
{
    match load_ledger(contents) {
        Err(e) => Err(e),
        Ok(ts) => Bank::new(NUM_ACCOUNTS, ts),
    }
}

} // verus!
