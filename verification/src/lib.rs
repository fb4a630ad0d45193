//! A client account ledger: deposits, withdrawals and the dispute protocol over
//! per-client balances kept to four fractional decimal digits.

pub mod account_actor;
pub mod amount;
pub mod client_account;
pub mod csv_io;
pub mod decimal;
pub mod laws;
pub mod record;
pub mod text;
pub mod transaction;
