//! Accounts held by the ledger's world state.

use vstd::prelude::*;

verus! {

/// The kind of an account.
#[derive(Clone, Copy, Debug, PartialEq, Eq, Structural)]
pub enum AccountType {
    /// An account owned by a user of the ledger.
    User,
}

/// What the world state records for one account identifier.
#[derive(Clone, Copy, Debug, PartialEq, Eq, Structural)]
pub struct Account {
    /// The kind of the account.
    pub account_type: AccountType,
    /// The balance. Every debit is checked, so it never underflows.
    pub tokens: u128,
}

impl Account {
    /// The account of the given kind that holds no tokens.
    pub open spec fn empty(account_type: AccountType) -> Account {
        Account { account_type, tokens: 0 }
    }

    /// The same account with another balance.
    pub open spec fn with_tokens(self, tokens: u128) -> Account {
        Account { account_type: self.account_type, tokens }
    }

    /// Creates an account of the given kind with a balance of zero.
    pub fn new(account_type: AccountType) -> (account: Account)
        ensures
            account == Account::empty(account_type),
    {
        Account { account_type, tokens: 0 }
    }
}

} // verus!
