//! The ledger: the committed blocks and the accounts that they amount to.

use crate::account::Account;
use crate::block::Block;
use crate::encoding::{same_text, text_of};
use crate::store::AccountStore;
use crate::text::{decimal, decimal_digits};
use crate::transaction::{
    lemma_accounts_are_kept, lemma_duplicate_account_is_rejected, lemma_minting_needs_first_block,
    ExecutionError, Transaction,
};
use vstd::prelude::*;
use vstd::string::StringExecFns;

verus! {

/// Why a block was not appended.
#[derive(Clone, Copy, Debug, PartialEq, Eq, Structural)]
pub enum AppendError {
    /// The block's stored hash is not set, or is not the hash of its contents.
    HashMismatch,
    /// The block does not point to the last block of the chain.
    NotLinked,
    /// The block holds no transaction.
    NoTransactions,
    /// A transaction was rejected. `position` counts the transactions of the
    /// block from one.
    Execution { position: usize, cause: ExecutionError },
}

impl AppendError {
    /// The text of the message for this error, with its code.
    pub open spec fn message_text(self) -> Seq<char> {
        match self {
            AppendError::HashMismatch => "The block hash is mismatching! (Code: 93820394)"@,
            AppendError::NotLinked =>
                "The new block has to point to the previous block (Code: 3948230)"@,
            AppendError::NoTransactions =>
                "There has to be at least one transaction inside the block! (Code: 9482930)"@,
            AppendError::Execution { position, cause } => "Could not execute transaction "@
                + decimal_digits(position as nat) + " due to `"@ + cause.message_text()
                + "`. Rolling back (Code: 38203984)"@,
        }
    }

    /// A message for a human reader, with a stable code.
    pub fn message(&self) -> (text: String)
        ensures
            text@ == self.message_text(),
    {
        match self {
            AppendError::HashMismatch => String::from_str(
                "The block hash is mismatching! (Code: 93820394)",
            ),
            AppendError::NotLinked => String::from_str(
                "The new block has to point to the previous block (Code: 3948230)",
            ),
            AppendError::NoTransactions => String::from_str(
                "There has to be at least one transaction inside the block! (Code: 9482930)",
            ),
            AppendError::Execution { position, cause } => {
                let mut text = String::from_str("Could not execute transaction ");
                text.append(decimal(*position as u128).as_str());
                text.append(" due to `");
                text.append(cause.message());
                text.append("`. Rolling back (Code: 38203984)");
                text
            },
        }
    }
}

/// What an audit of the chain found wrong. Blocks and transactions are
/// counted from zero here; the messages count from one, except where noted.
#[derive(Clone, Debug, PartialEq, Eq)]
pub enum ValidityError {
    /// The stored hash of the block is not the hash of its contents.
    HashMismatch { block: usize },
    /// The first block points to a previous block.
    GenesisLinked,
    /// A later block points to no previous block.
    MissingLink { block: usize },
    /// The block points to `proposed`, but the block before it has the hash
    /// `actual`. The message counts this block from zero.
    BrokenLink { block: usize, proposed: String, actual: String },
    /// The transaction is signed, and its signature does not verify.
    InvalidSignature { transaction: usize, block: usize },
}

impl ValidityError {
    /// The text of the message for this error, with its code where it has
    /// one.
    pub open spec fn message_text(self) -> Seq<char> {
        match self {
            ValidityError::HashMismatch { block } => "Stored hash for Block #"@ + decimal_digits(
                (block + 1) as nat,
            ) + " does not match calculated hash (Code: 665234234)"@,
            ValidityError::GenesisLinked =>
                "The genesis block has a previous hash set which it shouldn't Code :394823098"@,
            ValidityError::MissingLink { block } => "Block #"@ + decimal_digits((block + 1) as nat)
                + " has no previous hash set"@,
            ValidityError::BrokenLink { block, proposed, actual } => "Block #"@ + decimal_digits(
                block as nat,
            ) + " is not connected to previous block (Hashes do not match. Should be `"@
                + proposed@ + "` but is `"@ + actual@ + "`)"@,
            ValidityError::InvalidSignature { transaction, block } => "Transaction #"@
                + decimal_digits((transaction + 1) as nat) + " for Block #"@ + decimal_digits(
                (block + 1) as nat,
            ) + " has an invalid signature (Code: 4398239048)"@,
        }
    }

    /// A message for a human reader, with a stable code where it has one.
    pub fn message(&self) -> (text: String)
        ensures
            text@ == self.message_text(),
    {
        match self {
            ValidityError::HashMismatch { block } => {
                let mut text = String::from_str("Stored hash for Block #");
                text.append(decimal(*block as u128 + 1).as_str());
                text.append(" does not match calculated hash (Code: 665234234)");
                text
            },
            ValidityError::GenesisLinked => String::from_str(
                "The genesis block has a previous hash set which it shouldn't Code :394823098",
            ),
            ValidityError::MissingLink { block } => {
                let mut text = String::from_str("Block #");
                text.append(decimal(*block as u128 + 1).as_str());
                text.append(" has no previous hash set");
                text
            },
            ValidityError::BrokenLink { block, proposed, actual } => {
                let mut text = String::from_str("Block #");
                text.append(decimal(*block as u128).as_str());
                text.append(
                    " is not connected to previous block (Hashes do not match. Should be `",
                );
                text.append(proposed.as_str());
                text.append("` but is `");
                text.append(actual.as_str());
                text.append("`)");
                text
            },
            ValidityError::InvalidSignature { transaction, block } => {
                let mut text = String::from_str("Transaction #");
                text.append(decimal(*transaction as u128 + 1).as_str());
                text.append(" for Block #");
                text.append(decimal(*block as u128 + 1).as_str());
                text.append(" has an invalid signature (Code: 4398239048)");
                text
            },
        }
    }
}

/// What executing `transactions` in order against the accounts `state`
/// yields: the accounts after the last one, or the first rejection, with the
/// position of the rejected transaction counted from one.
pub open spec fn apply_all(
    state: Map<Seq<char>, Account>,
    transactions: Seq<Transaction>,
    is_initial: bool,
) -> Result<Map<Seq<char>, Account>, AppendError>
    decreases transactions.len(),
{
    if transactions.len() == 0 {
        Ok(state)
    } else {
        match apply_all(state, transactions.drop_last(), is_initial) {
            Err(failure) => Err(failure),
            Ok(reached) => match transactions.last().effect(reached, is_initial) {
                Ok(accounts) => Ok(accounts),
                Err(cause) => Err(
                    AppendError::Execution { position: transactions.len() as usize, cause },
                ),
            },
        }
    }
}

/// A rejection stands: once the first `k` transactions run into one, so do
/// all of them, at the same position and for the same reason.
pub proof fn lemma_rejection_stands(
    state: Map<Seq<char>, Account>,
    transactions: Seq<Transaction>,
    k: int,
    is_initial: bool,
)
    requires
        0 <= k <= transactions.len(),
        apply_all(state, transactions.take(k), is_initial) is Err,
    ensures
        apply_all(state, transactions, is_initial) == apply_all(
            state,
            transactions.take(k),
            is_initial,
        ),
    decreases transactions.len(),
{
    if k == transactions.len() {
        assert(transactions.take(k) =~= transactions);
    } else {
        assert(transactions.drop_last().take(k) =~= transactions.take(k));
        lemma_rejection_stands(state, transactions.drop_last(), k, is_initial);
    }
}

/// A transaction that is rejected in its turn rejects the whole batch, and so
/// does one whose turn never comes.
pub proof fn lemma_rejected_in_turn(
    state: Map<Seq<char>, Account>,
    transactions: Seq<Transaction>,
    k: int,
    is_initial: bool,
)
    requires
        0 <= k < transactions.len(),
        apply_all(state, transactions.take(k), is_initial) matches Ok(reached)
            ==> transactions[k].effect(reached, is_initial) is Err,
    ensures
        apply_all(state, transactions, is_initial) is Err,
{
    let upto = transactions.take(k + 1);
    assert(upto.drop_last() =~= transactions.take(k));
    assert(upto.last() == transactions[k]);
    lemma_rejection_stands(state, transactions, k + 1, is_initial);
}

/// An account that is there after the first `from` transactions is still
/// there after the first `upto`, if the batch gets that far.
pub proof fn lemma_account_stays(
    state: Map<Seq<char>, Account>,
    transactions: Seq<Transaction>,
    is_initial: bool,
    id: Seq<char>,
    from: int,
    upto: int,
)
    requires
        0 <= from <= upto <= transactions.len(),
        apply_all(state, transactions.take(from), is_initial) matches Ok(reached)
            ==> reached.contains_key(id),
    ensures
        apply_all(state, transactions.take(upto), is_initial) matches Ok(reached)
            ==> reached.contains_key(id),
    decreases upto - from,
{
    if from < upto {
        lemma_account_stays(state, transactions, is_initial, id, from, upto - 1);
        let longer = transactions.take(upto);
        assert(longer.drop_last() =~= transactions.take(upto - 1));
        assert(longer.last() == transactions[upto - 1]);
        match apply_all(state, transactions.take(upto - 1), is_initial) {
            Ok(reached) => lemma_accounts_are_kept(transactions[upto - 1], reached, is_initial),
            Err(_) => {},
        }
    }
}

/// Outside the first block, a batch that creates tokens anywhere is rejected.
pub proof fn lemma_minting_rejects_batch(
    state: Map<Seq<char>, Account>,
    transactions: Seq<Transaction>,
    k: int,
)
    requires
        0 <= k < transactions.len(),
        transactions[k].record is CreateTokens,
    ensures
        apply_all(state, transactions, false) is Err,
{
    match apply_all(state, transactions.take(k), false) {
        Ok(reached) => lemma_minting_needs_first_block(transactions[k], reached),
        Err(_) => {},
    }
    lemma_rejected_in_turn(state, transactions, k, false);
}

/// A batch that creates an account under an identifier that is taken, be it
/// from the start or by an earlier transaction of the batch, is rejected.
pub proof fn lemma_duplicate_account_rejects_batch(
    state: Map<Seq<char>, Account>,
    transactions: Seq<Transaction>,
    is_initial: bool,
    k: int,
    id: Seq<char>,
)
    requires
        0 <= k < transactions.len(),
        transactions[k].creates_account(id),
        state.contains_key(id) || exists|j: int|
            0 <= j < k && (#[trigger] transactions[j]).creates_account(id),
    ensures
        apply_all(state, transactions, is_initial) is Err,
{
    if state.contains_key(id) {
        assert(transactions.take(0) =~= Seq::<Transaction>::empty());
        lemma_account_stays(state, transactions, is_initial, id, 0, k);
    } else {
        let j = choose|j: int| 0 <= j < k && (#[trigger] transactions[j]).creates_account(id);
        let longer = transactions.take(j + 1);
        assert(longer.drop_last() =~= transactions.take(j));
        assert(longer.last() == transactions[j]);
        lemma_account_stays(state, transactions, is_initial, id, j + 1, k);
    }
    match apply_all(state, transactions.take(k), is_initial) {
        Ok(reached) => lemma_duplicate_account_is_rejected(transactions[k], reached, is_initial),
        Err(_) => {},
    }
    lemma_rejected_in_turn(state, transactions, k, is_initial);
}

/// Whether the block at `i` points where it should: nowhere if it is the
/// first, else to the stored hash of the block before it.
pub open spec fn link_holds(blocks: Seq<Block>, i: int) -> bool {
    if i == 0 {
        blocks[0].prev_hash is None
    } else {
        text_of(blocks[i].prev_hash) == text_of(blocks[i - 1].hash)
    }
}

/// Whether every block points where it should.
pub open spec fn linked(blocks: Seq<Block>) -> bool {
    forall|i: int| 0 <= i < blocks.len() ==> #[trigger] link_holds(blocks, i)
}

/// Whether every block carries the hash of its contents.
pub open spec fn hashes_current(blocks: Seq<Block>) -> bool {
    forall|i: int| 0 <= i < blocks.len() ==> (#[trigger] blocks[i]).hash_is_current()
}

/// Whether every block holds at least one transaction.
pub open spec fn none_empty(blocks: Seq<Block>) -> bool {
    forall|i: int| 0 <= i < blocks.len() ==> (#[trigger] blocks[i]).transactions@.len() > 0
}

/// Whether no transaction at or after `start` is signed.
pub open spec fn unsigned_from(transactions: Seq<Transaction>, start: int) -> bool {
    forall|j: int|
        start <= j < transactions.len() ==> (#[trigger] transactions[j]).signature is None
}

/// Whether no transaction of the blocks is signed.
pub open spec fn unsigned(blocks: Seq<Block>) -> bool {
    forall|i: int| 0 <= i < blocks.len() ==> unsigned_from((#[trigger] blocks[i]).transactions@, 0)
}

/// The accounts that the blocks amount to: every transaction of every block
/// applied, block by block, to no accounts at all. The first block is
/// executed as the initial one; a block with a rejected transaction counts
/// for nothing.
pub open spec fn replay(blocks: Seq<Block>) -> Map<Seq<char>, Account>
    decreases blocks.len(),
{
    if blocks.len() == 0 {
        Map::empty()
    } else {
        let earlier = replay(blocks.drop_last());
        match apply_all(earlier, blocks.last().transactions@, blocks.len() == 1) {
            Ok(accounts) => accounts,
            Err(_) => earlier,
        }
    }
}

/// The position of the first signed transaction at or after `start`.
pub open spec fn first_signed_from(transactions: Seq<Transaction>, start: int) -> Option<int>
    decreases transactions.len() - start,
{
    if start >= transactions.len() {
        None
    } else if transactions[start].signature is Some {
        Some(start)
    } else {
        first_signed_from(transactions, start + 1)
    }
}

/// The ordered sequence of committed blocks, and the current accounts.
#[derive(Clone, Debug)]
pub struct Blockchain {
    /// The blocks that were accepted, oldest first.
    pub blocks: Vec<Block>,
    /// The accounts, by identifier: the world state.
    pub accounts: AccountStore,
}

impl Blockchain {
    /// What holds of every chain that grew by `append_block` alone: each
    /// block points to the one before it, and the first to none; each stored
    /// hash is the hash of its block; no block is empty; and the accounts are
    /// what the blocks amount to.
    pub open spec fn consistent(&self) -> bool {
        &&& linked(self.blocks@)
        &&& hashes_current(self.blocks@)
        &&& none_empty(self.blocks@)
        &&& self.accounts@ == replay(self.blocks@)
    }

    /// Creates a ledger without blocks and without accounts.
    pub fn new() -> (chain: Blockchain)
        ensures
            chain.blocks@ == Seq::<Block>::empty(),
            chain.accounts@ == Map::<Seq<char>, Account>::empty(),
            chain.consistent(),
    {
        Blockchain { blocks: Vec::new(), accounts: AccountStore::new() }
    }

    /// What `append_block` makes of `block`: the accounts after all its
    /// transactions, or the first reason to reject it.
    pub open spec fn append_outcome(&self, block: Block) -> Result<
        Map<Seq<char>, Account>,
        AppendError,
    > {
        if !block.hash_is_current() {
            Err(AppendError::HashMismatch)
        } else if text_of(block.prev_hash) != self.head_hash() {
            Err(AppendError::NotLinked)
        } else if block.transactions@.len() == 0 {
            Err(AppendError::NoTransactions)
        } else {
            apply_all(self.accounts@, block.transactions@, self.blocks@.len() == 0)
        }
    }

    /// Adds a block to the chain, if it is sound and all its transactions
    /// execute; else leaves blocks and accounts as they were, and says why
    /// in a message.
    ///
    /// The first block of a chain is executed as the initial one.
    #[verifier::loop_isolation(false)]
    pub fn append_block(&mut self, block: Block) -> (outcome: Result<(), String>)
        ensures
            match old(self).append_outcome(block) {
                Ok(accounts) => {
                    &&& outcome is Ok
                    &&& final(self).blocks@ == old(self).blocks@.push(block)
                    &&& final(self).accounts@ == accounts
                },
                Err(error) => {
                    &&& outcome matches Err(message) && message@ == error.message_text()
                    &&& final(self).blocks@ == old(self).blocks@
                    &&& final(self).accounts@ == old(self).accounts@
                },
            },
            linked(old(self).blocks@) ==> linked(final(self).blocks@),
            old(self).consistent() ==> final(self).consistent(),
    {
        let is_genesis = self.len() == 0;
        if !block.verify_own_hash() {
            return Err(AppendError::HashMismatch.message());
        }
        if !same_text(&block.prev_hash, &self.get_last_block_hash()) {
            return Err(AppendError::NotLinked.message());
        }
        if block.get_transaction_count() == 0 {
            return Err(AppendError::NoTransactions.message());
        }
        let old_state = self.accounts.clone();
        let ghost blocks_before = self.blocks@;
        let ghost accounts_before = self.accounts@;
        let mut i: usize = 0;
        while i < block.transactions.len()
            invariant
                i <= block.transactions.len(),
                self.blocks@ == blocks_before,
                old_state@ == accounts_before,
                apply_all(accounts_before, block.transactions@.take(i as int), is_genesis) == Ok::<
                    Map<Seq<char>, Account>,
                    AppendError,
                >(self.accounts@),
            decreases block.transactions.len() - i,
        {
            let executed = block.transactions[i].execute(self, &is_genesis);
            proof {
                let longer = block.transactions@.take(i + 1);
                assert(longer.drop_last() =~= block.transactions@.take(i as int));
                assert(longer.last() == block.transactions@[i as int]);
            }
            match executed {
                Err(cause) => {
                    proof {
                        lemma_rejection_stands(
                            accounts_before,
                            block.transactions@,
                            i + 1,
                            is_genesis,
                        );
                    }
                    self.accounts = old_state;
                    return Err(AppendError::Execution { position: i + 1, cause }.message());
                },
                Ok(()) => {},
            }
            i = i + 1;
        }
        proof {
            assert(block.transactions@.take(i as int) =~= block.transactions@);
            assert(blocks_before.push(block).drop_last() =~= blocks_before);
            if linked(blocks_before) {
                let after = blocks_before.push(block);
                assert forall|k: int| 0 <= k < after.len() implies #[trigger] link_holds(
                    after,
                    k,
                ) by {
                    if k < blocks_before.len() {
                        assert(link_holds(blocks_before, k));
                    }
                }
            }
        }
        self.blocks.push(block);
        Ok(())
    }

    /// What is wrong with the block at `i`, if anything: its own hash first,
    /// then its link, then the first signed transaction, since no signature
    /// verifies.
    pub open spec fn block_fault(&self, i: int) -> Option<ValidityError> {
        let block = self.blocks@[i];
        if !block.hash_is_current() {
            Some(ValidityError::HashMismatch { block: i as usize })
        } else if i == 0 && block.prev_hash is Some {
            Some(ValidityError::GenesisLinked)
        } else if i != 0 && block.prev_hash is None {
            Some(ValidityError::MissingLink { block: i as usize })
        } else if i != 0 && text_of(block.prev_hash) != text_of(self.blocks@[i - 1].hash) {
            Some(
                ValidityError::BrokenLink {
                    block: i as usize,
                    proposed: block.prev_hash.unwrap(),
                    actual: self.blocks@[i - 1].hash.unwrap(),
                },
            )
        } else {
            match first_signed_from(block.transactions@, 0) {
                Some(j) => Some(
                    ValidityError::InvalidSignature { transaction: j as usize, block: i as usize },
                ),
                None => None,
            }
        }
    }

    /// The first fault in the blocks at or after `start`.
    pub open spec fn fault_from(&self, start: int) -> Option<ValidityError>
        decreases self.blocks@.len() - start,
    {
        if start >= self.blocks@.len() {
            None
        } else if self.block_fault(start) is Some {
            self.block_fault(start)
        } else {
            self.fault_from(start + 1)
        }
    }

    /// The first fault in the chain, if there is one.
    pub open spec fn first_fault(&self) -> Option<ValidityError> {
        self.fault_from(0)
    }

    /// Checks whether the chain was tampered with: goes through the blocks in
    /// order and reports the first fault in a message. Changes nothing.
    ///
    /// An unsigned transaction counts as valid, whatever it holds.
    #[verifier::loop_isolation(false)]
    pub fn check_validity(&self) -> (outcome: Result<(), String>)
        ensures
            match self.first_fault() {
                None => outcome is Ok,
                Some(fault) => outcome matches Err(message) && message@ == fault.message_text(),
            },
    {
        let mut block_num: usize = 0;
        while block_num < self.blocks.len()
            invariant
                block_num <= self.blocks.len(),
                self.fault_from(block_num as int) == self.first_fault(),
                forall|k: int| 0 <= k < block_num ==> self.block_fault(k) is None,
            decreases self.blocks.len() - block_num,
        {
            let block = &self.blocks[block_num];
            if !block.verify_own_hash() {
                return Err(ValidityError::HashMismatch { block: block_num }.message());
            }
            if block_num == 0 {
                if block.prev_hash.is_some() {
                    return Err(ValidityError::GenesisLinked.message());
                }
            } else {
                match &block.prev_hash {
                    None => {
                        return Err(ValidityError::MissingLink { block: block_num }.message());
                    },
                    Some(proposed) => {
                        assert(self.block_fault(block_num - 1) is None);
                        let actual = self.blocks[block_num - 1].hash.as_ref().unwrap();
                        if !(*proposed == *actual) {
                            let fault = ValidityError::BrokenLink {
                                block: block_num,
                                proposed: proposed.clone(),
                                actual: actual.clone(),
                            };
                            return Err(fault.message());
                        }
                    },
                }
            }
            let mut transaction_num: usize = 0;
            while transaction_num < block.transactions.len()
                invariant
                    transaction_num <= block.transactions.len(),
                    first_signed_from(block.transactions@, transaction_num as int)
                        == first_signed_from(block.transactions@, 0),
                decreases block.transactions.len() - transaction_num,
            {
                let transaction = &block.transactions[transaction_num];
                if transaction.is_signed() && !transaction.check_signature() {
                    let fault = ValidityError::InvalidSignature {
                        transaction: transaction_num,
                        block: block_num,
                    };
                    return Err(fault.message());
                }
                transaction_num = transaction_num + 1;
            }
            block_num = block_num + 1;
        }
        Ok(())
    }

    /// The number of blocks currently stored.
    pub fn len(&self) -> (count: usize)
        ensures
            count == self.blocks@.len(),
    {
        self.blocks.len()
    }

    /// The stored hash of the last block; `None` for a ledger without blocks.
    pub open spec fn head_hash(&self) -> Option<Seq<char>> {
        if self.blocks@.len() == 0 {
            None
        } else {
            text_of(self.blocks@.last().hash)
        }
    }

    /// Returns the hash of the last block.
    pub fn get_last_block_hash(&self) -> (hash: Option<String>)
        ensures
            text_of(hash) == self.head_hash(),
    {
        if self.len() == 0 {
            return None;
        }
        match &self.blocks[self.len() - 1].hash {
            Some(stored) => Some(stored.clone()),
            None => None,
        }
    }
}

/// No signed transaction is found from `start` on exactly when none is there.
pub proof fn lemma_first_signed(transactions: Seq<Transaction>, start: int)
    requires
        0 <= start,
    ensures
        first_signed_from(transactions, start) is None <==> unsigned_from(transactions, start),
        first_signed_from(transactions, start) matches Some(j) ==> start <= j < transactions.len()
            && transactions[j].signature is Some,
    decreases transactions.len() - start,
{
    if start < transactions.len() {
        lemma_first_signed(transactions, start + 1);
        if unsigned_from(transactions, start) {
            assert(transactions[start].signature is None);
        }
    }
}

/// No fault is found from `start` on exactly when no block from there on has
/// one.
pub proof fn lemma_fault_from(chain: Blockchain, start: int)
    requires
        0 <= start,
    ensures
        chain.fault_from(start) is None <==> forall|k: int|
            start <= k < chain.blocks@.len() ==> (#[trigger] chain.block_fault(k)) is None,
    decreases chain.blocks@.len() - start,
{
    if start < chain.blocks@.len() {
        lemma_fault_from(chain, start + 1);
    }
}

/// The audit reports the earliest fault: that of the first block that has
/// one.
pub proof fn lemma_audit_reports_earliest(chain: Blockchain, i: int)
    requires
        0 <= i < chain.blocks@.len(),
        chain.block_fault(i) is Some,
        forall|k: int| 0 <= k < i ==> (#[trigger] chain.block_fault(k)) is None,
    ensures
        chain.first_fault() == chain.block_fault(i),
{
    lemma_faultless_start(chain, 0, i);
}

/// Blocks without a fault are passed over.
proof fn lemma_faultless_start(chain: Blockchain, start: int, i: int)
    requires
        0 <= start <= i,
        forall|k: int| start <= k < i ==> (#[trigger] chain.block_fault(k)) is None,
    ensures
        chain.fault_from(start) == chain.fault_from(i),
    decreases i - start,
{
    if start < i {
        assert(chain.block_fault(start) is None);
        lemma_faultless_start(chain, start + 1, i);
    }
}

/// The audit finds no fault in exactly those chains in which every block
/// carries the hash of its contents, every block points where it should, and
/// no transaction is signed.
pub proof fn lemma_audit_passes_sound_chains(chain: Blockchain)
    ensures
        chain.first_fault() is None <==> hashes_current(chain.blocks@) && linked(chain.blocks@)
            && unsigned(chain.blocks@),
{
    let blocks = chain.blocks@;
    lemma_fault_from(chain, 0);
    assert forall|k: int| 0 <= k < blocks.len() implies (first_signed_from(
        (#[trigger] blocks[k]).transactions@,
        0,
    ) is None <==> unsigned_from(blocks[k].transactions@, 0)) by {
        lemma_first_signed(blocks[k].transactions@, 0);
    }
    if chain.first_fault() is None {
        assert forall|k: int| 0 <= k < blocks.len() implies (#[trigger] blocks[k]).hash_is_current()
            && link_holds(blocks, k) && unsigned_from(blocks[k].transactions@, 0) by {
            assert(chain.block_fault(k) is None);
        }
    }
    if hashes_current(blocks) && linked(blocks) && unsigned(blocks) {
        assert forall|k: int| 0 <= k < blocks.len() implies (#[trigger] chain.block_fault(
            k,
        )) is None by {
            assert(blocks[k].hash_is_current());
            assert(link_holds(blocks, k));
            if k > 0 {
                assert(blocks[k - 1].hash_is_current());
            }
        }
    }
}

/// A chain that grew by `append_block` alone, from transactions without
/// signatures, passes the audit.
pub proof fn lemma_consistent_chain_passes_audit(chain: Blockchain)
    requires
        chain.consistent(),
        unsigned(chain.blocks@),
    ensures
        chain.first_fault() is None,
{
    lemma_audit_passes_sound_chains(chain);
}

/// Tokens are created in the first block only: a chain that has a block
/// rejects every block that creates tokens, whoever the receiver and whatever
/// the amount.
pub proof fn lemma_minting_rejects_later_blocks(chain: Blockchain, block: Block, k: int)
    requires
        chain.blocks@.len() > 0,
        0 <= k < block.transactions@.len(),
        block.transactions@[k].record is CreateTokens,
    ensures
        chain.append_outcome(block) is Err,
{
    lemma_minting_rejects_batch(chain.accounts@, block.transactions@, k);
}

/// An account is created once: a block that creates an account under an
/// identifier that the chain knows, or that the block itself has used for an
/// account before, is rejected.
pub proof fn lemma_duplicate_account_rejects_block(
    chain: Blockchain,
    block: Block,
    k: int,
    id: Seq<char>,
)
    requires
        0 <= k < block.transactions@.len(),
        block.transactions@[k].creates_account(id),
        chain.accounts@.contains_key(id) || exists|j: int|
            0 <= j < k && (#[trigger] block.transactions@[j]).creates_account(id),
    ensures
        chain.append_outcome(block) is Err,
{
    lemma_duplicate_account_rejects_batch(
        chain.accounts@,
        block.transactions@,
        chain.blocks@.len() == 0,
        k,
        id,
    );
}

} // verus!
