//! A minimal ledger engine: a hash-chained sequence of blocks whose
//! transactions are applied, block by block and atomically, to an account
//! store.

pub mod account;
pub mod block;
pub mod chain;
mod clock;
pub mod digest;
pub mod encoding;
pub mod store;
pub mod text;
pub mod transaction;
pub mod world_state;

pub use account::{Account, AccountType};
pub use block::Block;
pub use chain::{AppendError, Blockchain, ValidityError};
pub use transaction::{ExecutionError, Transaction, TransactionData};
pub use world_state::WorldState;
