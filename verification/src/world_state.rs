//! The world state as the execution engine sees it: a narrow set of
//! operations on accounts, whatever holds them.

use crate::account::{Account, AccountType};
use crate::block::Block;
use crate::chain::Blockchain;
use crate::store::{distinct_ids, listed, AccountStore};
use crate::transaction::ExecutionError;
use vstd::prelude::*;

verus! {

/// The current state of the ledger after all blocks are executed: the
/// accounts, by identifier.
///
/// Every operation is stated over `account_map`, the mapping that the state
/// stands for, so that the execution engine can be read, and proved, without
/// knowing how a state stores its accounts. Whatever else a state holds is
/// its `rest`, which every operation keeps: executing a transaction against
/// a ledger leaves its blocks alone.
pub trait WorldState {
    /// What a state holds besides its accounts.
    type Rest;

    /// The accounts of this state, by identifier.
    spec fn account_map(&self) -> Map<Seq<char>, Account>;

    /// The rest of this state. No operation changes it.
    spec fn rest(&self) -> Self::Rest;

    /// All registered account identifiers, each once, in no particular order.
    fn get_user_ids(&self) -> (ids: Vec<String>)
        ensures
            distinct_ids(ids@),
            listed(ids@) == self.account_map().dom(),
    ;

    /// Exclusive access to the account filed under `id`, or `None` if there
    /// is none. What is written through it is the only change to the state.
    fn get_account_by_id_mut(&mut self, id: &String) -> (found: Option<&mut Account>)
        ensures
            match found {
                Some(account) => {
                    &&& old(self).account_map().contains_key(id@)
                    &&& *account == old(self).account_map()[id@]
                    &&& final(self).account_map() == old(self).account_map().insert(
                        id@,
                        *final(account),
                    )
                },
                None => {
                    &&& !old(self).account_map().contains_key(id@)
                    &&& final(self).account_map() == old(self).account_map()
                },
            },
            final(self).rest() == old(self).rest(),
    ;

    /// The account filed under `id`, or `None` if there is none.
    fn get_account_by_id(&self, id: &String) -> (found: Option<&Account>)
        ensures
            match found {
                Some(account) => self.account_map().contains_key(id@) && *account
                    == self.account_map()[id@],
                None => !self.account_map().contains_key(id@),
            },
    ;

    /// Adds an account of the given kind, holding no tokens, under `id`.
    /// Fails, and changes nothing, exactly when `id` is taken.
    fn create_account(&mut self, id: String, account_type: AccountType) -> (created: Result<
        (),
        ExecutionError,
    >)
        ensures
            old(self).account_map().contains_key(id@) ==> {
                &&& created == Err::<(), ExecutionError>(ExecutionError::AccountAlreadyExists)
                &&& final(self).account_map() == old(self).account_map()
            },
            !old(self).account_map().contains_key(id@) ==> {
                &&& created is Ok
                &&& final(self).account_map() == old(self).account_map().insert(
                    id@,
                    Account::empty(account_type),
                )
            },
            final(self).rest() == old(self).rest(),
    ;
}

impl WorldState for AccountStore {
    /// A store holds nothing but accounts.
    type Rest = ();

    open spec fn account_map(&self) -> Map<Seq<char>, Account> {
        self@
    }

    open spec fn rest(&self) -> () {
        ()
    }

    fn get_user_ids(&self) -> (ids: Vec<String>) {
        self.ids()
    }

    fn get_account_by_id_mut(&mut self, id: &String) -> (found: Option<&mut Account>) {
        self.get_mut(id)
    }

    fn get_account_by_id(&self, id: &String) -> (found: Option<&Account>) {
        self.get(id)
    }

    fn create_account(&mut self, id: String, account_type: AccountType) -> (created: Result<
        (),
        ExecutionError,
    >) {
        if self.create(id, account_type) {
            Ok(())
        } else {
            Err(ExecutionError::AccountAlreadyExists)
        }
    }
}

impl WorldState for Blockchain {
    /// Besides its accounts a ledger holds its blocks.
    type Rest = Vec<Block>;

    open spec fn account_map(&self) -> Map<Seq<char>, Account> {
        self.accounts@
    }

    open spec fn rest(&self) -> Vec<Block> {
        self.blocks
    }

    fn get_user_ids(&self) -> (ids: Vec<String>) {
        self.accounts.ids()
    }

    fn get_account_by_id_mut(&mut self, id: &String) -> (found: Option<&mut Account>) {
        self.accounts.get_mut(id)
    }

    fn get_account_by_id(&self, id: &String) -> (found: Option<&Account>) {
        self.accounts.get(id)
    }

    fn create_account(&mut self, id: String, account_type: AccountType) -> (created: Result<
        (),
        ExecutionError,
    >) {
        if self.accounts.create(id, account_type) {
            Ok(())
        } else {
            Err(ExecutionError::AccountAlreadyExists)
        }
    }
}

} // verus!
