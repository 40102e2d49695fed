pub mod bank;
pub mod ledger;
pub mod parse;
pub mod transaction;

pub use bank::{worker, Bank};
pub use ledger::{init_bank, load_ledger, Ledger, LoadError, NUM_ACCOUNTS};
pub use transaction::{Failure, Mode, Transaction};
