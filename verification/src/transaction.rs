//! Transactions: records of intent, and the engine that executes them
//! against a world state.

use crate::account::{Account, AccountType};
use crate::clock::unix_time_nanos;
use crate::digest::{blake2b, blake2b_digest, DIGEST_BYTES};
use crate::encoding::{
    append_number, append_text, fits, lemma_number_decodes, lemma_text_decodes, number_encoding,
    text_encoding,
};
use crate::world_state::WorldState;
use vstd::prelude::*;

verus! {

/// Why a transaction was not executed.
#[derive(Clone, Copy, Debug, PartialEq, Eq, Structural)]
pub enum ExecutionError {
    /// The sender has no account, and the block is not the first one.
    SenderMissing,
    /// The account to create exists already.
    AccountAlreadyExists,
    /// Tokens can be created in the first block only.
    MintingOutsideGenesis,
    /// The account that newly created tokens should go to does not exist.
    MintReceiverMissing,
    /// The account that a transfer should go to does not exist.
    TransferReceiverMissing,
    /// The account that a transfer should come from does not exist.
    TransferSenderMissing,
    /// The sender holds too few tokens, or a balance would overflow.
    Arithmetic,
    /// The kind of transaction is not implemented.
    Unimplemented,
}

impl ExecutionError {
    /// The text of the message for this error, with its code.
    pub open spec fn message_text(self) -> Seq<char> {
        match self {
            ExecutionError::SenderMissing => "Account does not exist (Code: 93482390)"@,
            ExecutionError::AccountAlreadyExists => "User already exists! (Code: 934823094)"@,
            ExecutionError::MintingOutsideGenesis =>
                "Token creation is only available on initial creation (Code: 2394233)"@,
            ExecutionError::MintReceiverMissing =>
                "Receiver Account does not exist (Code: 23482309)"@,
            ExecutionError::TransferReceiverMissing =>
                "Receiver Account does not exist! (Code: 3242342380)"@,
            ExecutionError::TransferSenderMissing =>
                "That account does not exist! (Code: 23423923)"@,
            ExecutionError::Arithmetic => "Overspent or Arithmetic error (Code: 48239084203)"@,
            ExecutionError::Unimplemented =>
                "Unknown Transaction type (not implemented) (Code: 487289724389)"@,
        }
    }

    /// A message for a human reader, with a stable code.
    pub fn message(&self) -> (text: &'static str)
        ensures
            text@ == self.message_text(),
    {
        match self {
            ExecutionError::SenderMissing => "Account does not exist (Code: 93482390)",
            ExecutionError::AccountAlreadyExists => "User already exists! (Code: 934823094)",
            ExecutionError::MintingOutsideGenesis =>
                "Token creation is only available on initial creation (Code: 2394233)",
            ExecutionError::MintReceiverMissing =>
                "Receiver Account does not exist (Code: 23482309)",
            ExecutionError::TransferReceiverMissing =>
                "Receiver Account does not exist! (Code: 3242342380)",
            ExecutionError::TransferSenderMissing =>
                "That account does not exist! (Code: 23423923)",
            ExecutionError::Arithmetic => "Overspent or Arithmetic error (Code: 48239084203)",
            ExecutionError::Unimplemented =>
                "Unknown Transaction type (not implemented) (Code: 487289724389)",
        }
    }
}

/// A single operation to be stored on the chain.
#[derive(Clone, Debug, PartialEq)]
pub enum TransactionData {
    /// Creates a new user account under the given identifier.
    CreateUserAccount(String),
    /// Changes or creates a value in an account's store. Declared, not
    /// executed.
    ChangeStoreValue { key: String, value: String },
    /// Moves tokens from the sender to another account.
    TransferTokens { to: String, amount: u128 },
    /// Creates tokens out of nowhere for the receiver.
    CreateTokens { receiver: String, amount: u128 },
}

/// A request to the ledger.
#[derive(Clone, Debug)]
pub struct Transaction {
    /// A number chosen by the sender. Stored, never checked.
    pub nonce: u128,
    /// The identifier of the sending account.
    pub from: String,
    /// When the transaction was created, in nanoseconds since the Unix epoch.
    pub created_at: u128,
    /// The operation and its arguments.
    pub record: TransactionData,
    /// The signature of the transaction's hash, if it is signed.
    pub signature: Option<String>,
}

/// The accounts `state` with `amount` tokens taken from the balance of `id`.
pub open spec fn debited(state: Map<Seq<char>, Account>, id: Seq<char>, amount: u128) -> Map<
    Seq<char>,
    Account,
> {
    state.insert(id, state[id].with_tokens((state[id].tokens - amount) as u128))
}

/// The accounts `state` with `amount` tokens added to the balance of `id`.
pub open spec fn credited(state: Map<Seq<char>, Account>, id: Seq<char>, amount: u128) -> Map<
    Seq<char>,
    Account,
> {
    state.insert(id, state[id].with_tokens((state[id].tokens + amount) as u128))
}

impl TransactionData {
    /// The canonical bytes of the operation: one byte for its kind, then its
    /// arguments in order.
    pub open spec fn encoding(self) -> Seq<u8> {
        match self {
            TransactionData::CreateUserAccount(id) => seq![0u8] + text_encoding(id@),
            TransactionData::ChangeStoreValue { key, value } => seq![1u8] + text_encoding(key@)
                + text_encoding(value@),
            TransactionData::TransferTokens { to, amount } => seq![2u8] + text_encoding(to@)
                + number_encoding(amount),
            TransactionData::CreateTokens { receiver, amount } => seq![3u8] + text_encoding(
                receiver@,
            ) + number_encoding(amount),
        }
    }

    /// Whether every text of the operation is short enough to be encoded.
    pub open spec fn texts_fit(self) -> bool {
        match self {
            TransactionData::CreateUserAccount(id) => fits(id@),
            TransactionData::ChangeStoreValue { key, value } => fits(key@) && fits(value@),
            TransactionData::TransferTokens { to, .. } => fits(to@),
            TransactionData::CreateTokens { receiver, .. } => fits(receiver@),
        }
    }

    /// Whether two operations are of one kind and have the same arguments.
    pub open spec fn same_as(self, other: TransactionData) -> bool {
        match (self, other) {
            (
                TransactionData::CreateUserAccount(id),
                TransactionData::CreateUserAccount(other_id),
            ) => id@ == other_id@,
            (
                TransactionData::ChangeStoreValue { key, value },
                TransactionData::ChangeStoreValue { key: other_key, value: other_value },
            ) => key@ == other_key@ && value@ == other_value@,
            (
                TransactionData::TransferTokens { to, amount },
                TransactionData::TransferTokens { to: other_to, amount: other_amount },
            ) => to@ == other_to@ && amount == other_amount,
            (
                TransactionData::CreateTokens { receiver, amount },
                TransactionData::CreateTokens { receiver: other_receiver, amount: other_amount },
            ) => receiver@ == other_receiver@ && amount == other_amount,
            _ => false,
        }
    }

    /// Appends the canonical bytes of the operation to `out`.
    pub fn append_to(&self, out: &mut Vec<u8>)
        ensures
            final(out)@ == old(out)@ + self.encoding(),
    {
        let ghost before = out@;
        match self {
            TransactionData::CreateUserAccount(id) => {
                out.push(0u8);
                append_text(out, id);
            },
            TransactionData::ChangeStoreValue { key, value } => {
                out.push(1u8);
                append_text(out, key);
                append_text(out, value);
            },
            TransactionData::TransferTokens { to, amount } => {
                out.push(2u8);
                append_text(out, to);
                append_number(out, *amount);
            },
            TransactionData::CreateTokens { receiver, amount } => {
                out.push(3u8);
                append_text(out, receiver);
                append_number(out, *amount);
            },
        }
        assert(out@ =~= before + self.encoding());
    }
}

impl Transaction {
    /// Creates an unsigned transaction that bears the current time.
    ///
    /// The time is whatever the system clock says, or zero where the clock
    /// stands before the Unix epoch; all else is as `new_at` builds it.
    pub fn new(from: String, transaction_data: TransactionData, nonce: u128) -> (transaction:
        Transaction)
        ensures
            transaction == (Transaction {
                nonce,
                from,
                created_at: transaction.created_at,
                record: transaction_data,
                signature: None,
            }),
    {
        let created_at: u128 = match unix_time_nanos() {
            Some(elapsed) => elapsed,
            None => 0,
        };
        Transaction::new_at(from, transaction_data, nonce, created_at)
    }

    /// Creates an unsigned transaction that bears the given time of creation,
    /// in nanoseconds since the Unix epoch.
    pub fn new_at(
        from: String,
        transaction_data: TransactionData,
        nonce: u128,
        created_at: u128,
    ) -> (transaction: Transaction)
        ensures
            transaction == (Transaction {
                nonce,
                from,
                created_at,
                record: transaction_data,
                signature: None,
            }),
    {
        Transaction { nonce, from, created_at, record: transaction_data, signature: None }
    }

    /// The canonical bytes of the transaction: time of creation, operation,
    /// sender and nonce. The signature is no part of them.
    pub open spec fn encoding(&self) -> Seq<u8> {
        number_encoding(self.created_at) + self.record.encoding() + text_encoding(self.from@)
            + number_encoding(self.nonce)
    }

    /// Whether every text of the transaction is short enough to be encoded.
    pub open spec fn texts_fit(&self) -> bool {
        self.record.texts_fit() && fits(self.from@)
    }

    /// The hash of the transaction: the digest of its canonical bytes.
    pub open spec fn spec_hash(&self) -> Seq<u8> {
        blake2b_digest(self.encoding())
    }

    /// The canonical bytes of the transaction, which `calculate_hash`
    /// digests.
    pub fn canonical_bytes(&self) -> (bytes: Vec<u8>)
        ensures
            bytes@ == self.encoding(),
    {
        let mut bytes: Vec<u8> = Vec::new();
        append_number(&mut bytes, self.created_at);
        self.record.append_to(&mut bytes);
        append_text(&mut bytes, &self.from);
        append_number(&mut bytes, self.nonce);
        assert(bytes@ =~= self.encoding());
        bytes
    }

    /// Calculates the hash of the transaction with the BLAKE2b hasher.
    pub fn calculate_hash(&self) -> (digest: Vec<u8>)
        ensures
            digest@ == self.spec_hash(),
            digest@.len() == DIGEST_BYTES,
    {
        let bytes = self.canonical_bytes();
        blake2b(bytes.as_slice())
    }

    /// Whether the signature is that of the sender over the transaction's
    /// hash. Signatures cannot be verified yet: none is accepted, and an
    /// unsigned transaction has none.
    pub fn check_signature(&self) -> (valid: bool)
        ensures
            !valid,
    {
        if !self.is_signed() {
            return false;
        }
        false
    }

    /// Whether the transaction carries a signature.
    pub fn is_signed(&self) -> (signed: bool)
        ensures
            signed == self.signature is Some,
    {
        self.signature.is_some()
    }

    /// Whether the transaction asks for a new account under `id`.
    pub open spec fn creates_account(&self, id: Seq<char>) -> bool {
        self.record matches TransactionData::CreateUserAccount(asked) && asked@ == id
    }

    /// The accounts after an attempt to execute this transaction against
    /// `state`: a rejected transaction leaves them as they were.
    pub open spec fn accounts_after(&self, state: Map<Seq<char>, Account>, is_initial: bool) -> Map<
        Seq<char>,
        Account,
    > {
        match self.effect(state, is_initial) {
            Ok(accounts) => accounts,
            Err(_) => state,
        }
    }

    /// What executing this transaction against the accounts `state` yields:
    /// the accounts afterwards, or the reason why it is rejected.
    ///
    /// The sender must have an account, except in the first block. A transfer
    /// takes the amount from the sender and then gives it to the receiver, so
    /// that it moves tokens and makes none: one to the sender's own account
    /// leaves every balance as it was.
    pub open spec fn effect(&self, state: Map<Seq<char>, Account>, is_initial: bool) -> Result<
        Map<Seq<char>, Account>,
        ExecutionError,
    > {
        if !state.contains_key(self.from@) && !is_initial {
            Err(ExecutionError::SenderMissing)
        } else {
            match self.record {
                TransactionData::CreateUserAccount(id) => {
                    if state.contains_key(id@) {
                        Err(ExecutionError::AccountAlreadyExists)
                    } else {
                        Ok(state.insert(id@, Account::empty(AccountType::User)))
                    }
                },
                TransactionData::CreateTokens { receiver, amount } => {
                    if !is_initial {
                        Err(ExecutionError::MintingOutsideGenesis)
                    } else if !state.contains_key(receiver@) {
                        Err(ExecutionError::MintReceiverMissing)
                    } else if state[receiver@].tokens + amount > u128::MAX {
                        Err(ExecutionError::Arithmetic)
                    } else {
                        Ok(credited(state, receiver@, amount))
                    }
                },
                TransactionData::TransferTokens { to, amount } => {
                    if !state.contains_key(to@) {
                        Err(ExecutionError::TransferReceiverMissing)
                    } else if !state.contains_key(self.from@) {
                        Err(ExecutionError::TransferSenderMissing)
                    } else if state[to@].tokens + amount > u128::MAX || state[self.from@].tokens
                        < amount {
                        Err(ExecutionError::Arithmetic)
                    } else {
                        Ok(credited(debited(state, self.from@, amount), to@, amount))
                    }
                },
                TransactionData::ChangeStoreValue { .. } => Err(ExecutionError::Unimplemented),
            }
        }
    }

    /// Changes the world state as the transaction commands, or rejects the
    /// transaction and leaves the world state as it was.
    pub fn execute<T: WorldState>(&self, world_state: &mut T, is_initial: &bool) -> (outcome:
        Result<(), ExecutionError>)
        ensures
            match self.effect(old(world_state).account_map(), *is_initial) {
                Ok(_) => outcome is Ok,
                Err(error) => outcome == Err::<(), ExecutionError>(error),
            },
            final(world_state).account_map() == self.accounts_after(
                old(world_state).account_map(),
                *is_initial,
            ),
            final(world_state).rest() == old(world_state).rest(),
    {
        if world_state.get_account_by_id(&self.from).is_none() && !*is_initial {
            return Err(ExecutionError::SenderMissing);
        }
        match &self.record {
            TransactionData::CreateUserAccount(id) => {
                world_state.create_account(id.clone(), AccountType::User)
            },
            TransactionData::CreateTokens { receiver, amount } => {
                if !*is_initial {
                    return Err(ExecutionError::MintingOutsideGenesis);
                }
                match world_state.get_account_by_id_mut(receiver) {
                    Some(account) => match account.tokens.checked_add(*amount) {
                        Some(balance) => {
                            account.tokens = balance;
                            Ok(())
                        },
                        None => Err(ExecutionError::Arithmetic),
                    },
                    None => Err(ExecutionError::MintReceiverMissing),
                }
            },
            TransactionData::TransferTokens { to, amount } => {
                let recv_tokens: u128 = match world_state.get_account_by_id(to) {
                    Some(recv) => recv.tokens,
                    None => {
                        return Err(ExecutionError::TransferReceiverMissing);
                    },
                };
                let sender_tokens: u128 = match world_state.get_account_by_id(&self.from) {
                    Some(sender) => sender.tokens,
                    None => {
                        return Err(ExecutionError::TransferSenderMissing);
                    },
                };
                let balance_recv_new = recv_tokens.checked_add(*amount);
                let balance_sender_new = sender_tokens.checked_sub(*amount);
                match (balance_recv_new, balance_sender_new) {
                    (Some(_), Some(sender_new)) => {
                        world_state.get_account_by_id_mut(&self.from).unwrap().tokens = sender_new;
                        // The receiver's balance is read after the debit: the
                        // receiver may be the sender.
                        let receiver = world_state.get_account_by_id_mut(to).unwrap();
                        receiver.tokens = receiver.tokens + *amount;
                        Ok(())
                    },
                    _ => Err(ExecutionError::Arithmetic),
                }
            },
            TransactionData::ChangeStoreValue { .. } => Err(ExecutionError::Unimplemented),
        }
    }
}

/// A transfer of more tokens than the sender holds is rejected, and every
/// account is left as it was.
pub proof fn lemma_overspending_is_rejected(
    transaction: Transaction,
    state: Map<Seq<char>, Account>,
    is_initial: bool,
)
    requires
        transaction.record matches TransactionData::TransferTokens { amount, .. }
            && state.contains_key(transaction.from@) && amount > state[transaction.from@].tokens,
    ensures
        transaction.effect(state, is_initial) is Err,
        transaction.accounts_after(state, is_initial) == state,
{
}

/// A transfer that would lift the receiver's balance over the largest number
/// of tokens an account can hold is rejected, and every account is left as it
/// was.
pub proof fn lemma_overflowing_transfer_is_rejected(
    transaction: Transaction,
    state: Map<Seq<char>, Account>,
    is_initial: bool,
)
    requires
        transaction.record matches TransactionData::TransferTokens { to, amount }
            && state.contains_key(to@) && state[to@].tokens + amount > u128::MAX,
    ensures
        transaction.effect(state, is_initial) is Err,
        transaction.accounts_after(state, is_initial) == state,
{
}

/// Creating tokens that would lift the receiver's balance over the largest
/// number of tokens an account can hold is rejected, and every account is
/// left as it was.
pub proof fn lemma_overflowing_creation_is_rejected(
    transaction: Transaction,
    state: Map<Seq<char>, Account>,
    is_initial: bool,
)
    requires
        transaction.record matches TransactionData::CreateTokens { receiver, amount }
            && state.contains_key(receiver@) && state[receiver@].tokens + amount > u128::MAX,
    ensures
        transaction.effect(state, is_initial) is Err,
        transaction.accounts_after(state, is_initial) == state,
{
}

/// Tokens are created in the first block only: anywhere else the transaction
/// is rejected, whoever the receiver and whatever the amount.
pub proof fn lemma_minting_needs_first_block(
    transaction: Transaction,
    state: Map<Seq<char>, Account>,
)
    requires
        transaction.record is CreateTokens,
    ensures
        transaction.effect(state, false) is Err,
        transaction.accounts_after(state, false) == state,
{
}

/// An account cannot be created twice: creating one under an identifier that
/// is taken is rejected.
pub proof fn lemma_duplicate_account_is_rejected(
    transaction: Transaction,
    state: Map<Seq<char>, Account>,
    is_initial: bool,
)
    requires
        transaction.record matches TransactionData::CreateUserAccount(id) && state.contains_key(
            id@,
        ),
    ensures
        transaction.effect(state, is_initial) is Err,
        transaction.accounts_after(state, is_initial) == state,
{
}

/// Execution never deletes an account, and only the creation of a user
/// account adds one.
pub proof fn lemma_accounts_are_kept(
    transaction: Transaction,
    state: Map<Seq<char>, Account>,
    is_initial: bool,
)
    ensures
        state.dom().subset_of(transaction.accounts_after(state, is_initial).dom()),
        !(transaction.record is CreateUserAccount) ==> transaction.accounts_after(
            state,
            is_initial,
        ).dom() == state.dom(),
{
    let after = transaction.accounts_after(state, is_initial);
    if !(transaction.record is CreateUserAccount) {
        assert(after.dom() =~= state.dom());
    }
}

/// A transfer between two different accounts moves tokens: what the sender
/// loses, the receiver gains, and no other account changes.
pub proof fn lemma_transfer_moves_tokens(
    transaction: Transaction,
    state: Map<Seq<char>, Account>,
    is_initial: bool,
)
    requires
        transaction.record is TransferTokens,
        transaction.effect(state, is_initial) is Ok,
        transaction.record->to@ != transaction.from@,
    ensures
        ({
            let after = transaction.accounts_after(state, is_initial);
            let amount = transaction.record->TransferTokens_amount;
            let to = transaction.record->to@;
            &&& after[transaction.from@].tokens == state[transaction.from@].tokens - amount
            &&& after[to].tokens == state[to].tokens + amount
            &&& after[transaction.from@].tokens + after[to].tokens
                == state[transaction.from@].tokens + state[to].tokens
            &&& forall|id: Seq<char>|
                id != to && id != transaction.from@ && state.contains_key(id) ==> after[id]
                    == state[id]
        }),
{
}

/// A transfer to the sender's own account makes no tokens: whether it is
/// executed or rejected, the accounts are left as they were.
pub proof fn lemma_transfer_to_oneself_changes_nothing(
    transaction: Transaction,
    state: Map<Seq<char>, Account>,
    is_initial: bool,
)
    requires
        transaction.record is TransferTokens,
        transaction.record->to@ == transaction.from@,
    ensures
        transaction.accounts_after(state, is_initial) == state,
{
    assert(transaction.accounts_after(state, is_initial) =~= state);
}

/// Outside the first block only a transfer changes the account filed under
/// an identifier, and only those of its sender and its receiver: no tokens
/// come from elsewhere.
pub proof fn lemma_balances_change_by_transfer_only(
    transaction: Transaction,
    state: Map<Seq<char>, Account>,
    id: Seq<char>,
)
    requires
        state.contains_key(id),
        !(transaction.record matches TransactionData::TransferTokens { to, .. } && (id == to@ || id
            == transaction.from@)),
    ensures
        transaction.accounts_after(state, false)[id] == state[id],
{
}

/// What follows an encoded operation cannot blur it: encodings of
/// operations, each followed by more bytes, agree only if the operations and
/// what follows agree.
pub proof fn lemma_record_decodes(
    record: TransactionData,
    rest: Seq<u8>,
    other: TransactionData,
    other_rest: Seq<u8>,
)
    requires
        record.texts_fit(),
        other.texts_fit(),
        record.encoding() + rest == other.encoding() + other_rest,
    ensures
        record.same_as(other),
        rest == other_rest,
{
    let whole = record.encoding() + rest;
    let other_whole = other.encoding() + other_rest;
    assert(whole[0] == record.encoding()[0]);
    assert(other_whole[0] == other.encoding()[0]);
    match (record, other) {
        (TransactionData::CreateUserAccount(id), TransactionData::CreateUserAccount(other_id)) => {
            assert(whole =~= seq![0u8] + (text_encoding(id@) + rest));
            assert(other_whole =~= seq![0u8] + (text_encoding(other_id@) + other_rest));
            assert(text_encoding(id@) + rest =~= whole.subrange(1, whole.len() as int));
            assert(text_encoding(other_id@) + other_rest =~= whole.subrange(1, whole.len() as int));
            lemma_text_decodes(id@, rest, other_id@, other_rest);
        },
        (
            TransactionData::ChangeStoreValue { key, value },
            TransactionData::ChangeStoreValue { key: other_key, value: other_value },
        ) => {
            let tail = text_encoding(value@) + rest;
            let other_tail = text_encoding(other_value@) + other_rest;
            assert(whole =~= seq![1u8] + (text_encoding(key@) + tail));
            assert(other_whole =~= seq![1u8] + (text_encoding(other_key@) + other_tail));
            assert(text_encoding(key@) + tail =~= whole.subrange(1, whole.len() as int));
            assert(text_encoding(other_key@) + other_tail =~= whole.subrange(
                1,
                whole.len() as int,
            ));
            lemma_text_decodes(key@, tail, other_key@, other_tail);
            lemma_text_decodes(value@, rest, other_value@, other_rest);
        },
        (
            TransactionData::TransferTokens { to, amount },
            TransactionData::TransferTokens { to: other_to, amount: other_amount },
        ) => {
            let tail = number_encoding(amount) + rest;
            let other_tail = number_encoding(other_amount) + other_rest;
            assert(whole =~= seq![2u8] + (text_encoding(to@) + tail));
            assert(other_whole =~= seq![2u8] + (text_encoding(other_to@) + other_tail));
            assert(text_encoding(to@) + tail =~= whole.subrange(1, whole.len() as int));
            assert(text_encoding(other_to@) + other_tail =~= whole.subrange(1, whole.len() as int));
            lemma_text_decodes(to@, tail, other_to@, other_tail);
            lemma_number_decodes(amount, rest, other_amount, other_rest);
        },
        (
            TransactionData::CreateTokens { receiver, amount },
            TransactionData::CreateTokens { receiver: other_receiver, amount: other_amount },
        ) => {
            let tail = number_encoding(amount) + rest;
            let other_tail = number_encoding(other_amount) + other_rest;
            assert(whole =~= seq![3u8] + (text_encoding(receiver@) + tail));
            assert(other_whole =~= seq![3u8] + (text_encoding(other_receiver@) + other_tail));
            assert(text_encoding(receiver@) + tail =~= whole.subrange(1, whole.len() as int));
            assert(text_encoding(other_receiver@) + other_tail =~= whole.subrange(
                1,
                whole.len() as int,
            ));
            lemma_text_decodes(receiver@, tail, other_receiver@, other_tail);
            lemma_number_decodes(amount, rest, other_amount, other_rest);
        },
        _ => {},
    }
}

/// The canonical bytes determine what is hashed: two transactions with the
/// same canonical bytes were created at the same time, by the same sender,
/// with the same nonce, for the same operation. So a change to any of these
/// is a change to the bytes that the hash is the digest of.
pub proof fn lemma_encoding_determines_transaction(transaction: Transaction, other: Transaction)
    requires
        transaction.texts_fit(),
        other.texts_fit(),
        transaction.encoding() == other.encoding(),
    ensures
        transaction.created_at == other.created_at,
        transaction.record.same_as(other.record),
        transaction.from@ == other.from@,
        transaction.nonce == other.nonce,
{
    let tail = text_encoding(transaction.from@) + number_encoding(transaction.nonce);
    let other_tail = text_encoding(other.from@) + number_encoding(other.nonce);
    let body = transaction.record.encoding() + tail;
    let other_body = other.record.encoding() + other_tail;
    assert(transaction.encoding() =~= number_encoding(transaction.created_at) + body);
    assert(other.encoding() =~= number_encoding(other.created_at) + other_body);
    lemma_number_decodes(transaction.created_at, body, other.created_at, other_body);
    lemma_record_decodes(transaction.record, tail, other.record, other_tail);
    lemma_text_decodes(
        transaction.from@,
        number_encoding(transaction.nonce),
        other.from@,
        number_encoding(other.nonce),
    );
    let nothing = Seq::<u8>::empty();
    assert(number_encoding(transaction.nonce) + nothing =~= number_encoding(transaction.nonce));
    assert(number_encoding(other.nonce) + nothing =~= number_encoding(other.nonce));
    lemma_number_decodes(transaction.nonce, nothing, other.nonce, nothing);
}

} // verus!
