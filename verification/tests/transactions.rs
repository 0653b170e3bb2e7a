use blake2::{Blake2b, Digest};
use blockchain::store::AccountStore;
use blockchain::{
    Account, AccountType, ExecutionError, Transaction, TransactionData, WorldState,
};

fn user(name: &str) -> String {
    name.to_string()
}

fn store_with(accounts: &[(&str, u128)]) -> AccountStore {
    let mut store = AccountStore::new();
    for (name, tokens) in accounts {
        assert_eq!(store.create_account(user(name), AccountType::User), Ok(()));
        store.get_account_by_id_mut(&user(name)).unwrap().tokens = *tokens;
    }
    store
}

fn tokens(store: &AccountStore, name: &str) -> Option<u128> {
    store.get_account_by_id(&user(name)).map(|account| account.tokens)
}

fn transfer(from: &str, to: &str, amount: u128) -> Transaction {
    Transaction::new(
        user(from),
        TransactionData::TransferTokens {
            to: user(to),
            amount,
        },
        0,
    )
}

fn mint(from: &str, receiver: &str, amount: u128) -> Transaction {
    Transaction::new(
        user(from),
        TransactionData::CreateTokens {
            receiver: user(receiver),
            amount,
        },
        0,
    )
}

#[test]
fn new_account_holds_nothing() {
    let account = Account::new(AccountType::User);
    assert_eq!(account.tokens, 0);
    assert_eq!(account.account_type, AccountType::User);
}

#[test]
fn new_transaction_is_unsigned() {
    let data = TransactionData::TransferTokens {
        to: user("bob"),
        amount: 3,
    };
    let tx = Transaction::new(user("alice"), data.clone(), 17);
    assert_eq!(tx.from, "alice");
    assert_eq!(tx.nonce, 17);
    assert_eq!(tx.record, data);
    assert_eq!(tx.signature, None);
    assert!(!tx.is_signed());
    assert!(!tx.check_signature());
    // the clock of any machine that runs this stands after 1970
    assert!(tx.created_at > 0);
}

#[test]
fn transaction_at_a_given_time() {
    let data = TransactionData::CreateUserAccount(user("alice"));
    let tx = Transaction::new_at(user("alice"), data.clone(), 4, 1_000);
    assert_eq!(tx.from, "alice");
    assert_eq!(tx.nonce, 4);
    assert_eq!(tx.created_at, 1_000);
    assert_eq!(tx.record, data);
    assert_eq!(tx.signature, None);
}

#[test]
fn signed_transaction_does_not_verify() {
    let mut tx = transfer("alice", "bob", 1);
    tx.signature = Some(user("signature"));
    assert!(tx.is_signed());
    assert!(!tx.check_signature());
}

#[test]
fn canonical_bytes_of_a_transfer() {
    let tx = Transaction::new_at(
        user("alice"),
        TransactionData::TransferTokens {
            to: user("bob"),
            amount: 1,
        },
        7,
        5,
    );
    let mut expected: Vec<u8> = Vec::new();
    expected.extend_from_slice(&5u128.to_le_bytes());
    expected.push(2);
    expected.extend_from_slice(&3u64.to_le_bytes());
    expected.extend_from_slice(b"bob");
    expected.extend_from_slice(&1u128.to_le_bytes());
    expected.extend_from_slice(&5u64.to_le_bytes());
    expected.extend_from_slice(b"alice");
    expected.extend_from_slice(&7u128.to_le_bytes());
    assert_eq!(expected.len(), 73);
    assert_eq!(tx.canonical_bytes(), expected);
}

#[test]
fn canonical_bytes_of_the_other_kinds() {
    let create = Transaction::new_at(
        user("a"),
        TransactionData::CreateUserAccount(user("\u{e9}")),
        0,
        0,
    );
    let mut expected: Vec<u8> = vec![0; 16];
    expected.push(0);
    expected.extend_from_slice(&2u64.to_le_bytes());
    expected.extend_from_slice(&[0xc3, 0xa9]);
    expected.extend_from_slice(&1u64.to_le_bytes());
    expected.push(b'a');
    expected.extend_from_slice(&[0; 16]);
    assert_eq!(create.canonical_bytes(), expected);

    let change = Transaction::new_at(
        user(""),
        TransactionData::ChangeStoreValue {
            key: user("k"),
            value: user("vw"),
        },
        1,
        2,
    );
    let mut expected: Vec<u8> = Vec::new();
    expected.extend_from_slice(&2u128.to_le_bytes());
    expected.push(1);
    expected.extend_from_slice(&1u64.to_le_bytes());
    expected.push(b'k');
    expected.extend_from_slice(&2u64.to_le_bytes());
    expected.extend_from_slice(b"vw");
    expected.extend_from_slice(&0u64.to_le_bytes());
    expected.extend_from_slice(&1u128.to_le_bytes());
    assert_eq!(change.canonical_bytes(), expected);

    let mint = Transaction::new_at(
        user("m"),
        TransactionData::CreateTokens {
            receiver: user("r"),
            amount: u128::MAX,
        },
        3,
        4,
    );
    let mut expected: Vec<u8> = Vec::new();
    expected.extend_from_slice(&4u128.to_le_bytes());
    expected.push(3);
    expected.extend_from_slice(&1u64.to_le_bytes());
    expected.push(b'r');
    expected.extend_from_slice(&[0xff; 16]);
    expected.extend_from_slice(&1u64.to_le_bytes());
    expected.push(b'm');
    expected.extend_from_slice(&3u128.to_le_bytes());
    assert_eq!(mint.canonical_bytes(), expected);
}

#[test]
fn transaction_hash_is_the_digest_of_its_bytes() {
    let tx = Transaction::new_at(
        user("alice"),
        TransactionData::TransferTokens {
            to: user("bob"),
            amount: 1,
        },
        7,
        5,
    );
    let digest = tx.calculate_hash();
    assert_eq!(digest.len(), 64);
    assert_ne!(digest, tx.canonical_bytes());
    assert_eq!(digest, Blake2b::digest(&tx.canonical_bytes()).to_vec());
    assert_eq!(
        blockchain::text::byte_vector_to_string(&digest),
        "2d0189a4d29186355e1494233c9b466e74196be9b984058b2d31f3c2864f76a3\
         bde352c017c0428b394f533e9becd75f41db34af31732ccb01310275fd047721"
    );
}

#[test]
fn transaction_hash_depends_on_every_hashed_field() {
    let base = Transaction::new_at(user("alice"), mint("x", "bob", 1).record, 7, 5);
    let mut later = base.clone();
    later.created_at = 6;
    let mut other_nonce = base.clone();
    other_nonce.nonce = 8;
    let mut other_sender = base.clone();
    other_sender.from = user("alicf");
    let mut other_amount = base.clone();
    other_amount.record = mint("x", "bob", 2).record;
    let mut signed = base.clone();
    signed.signature = Some(user("s"));
    assert_eq!(base.calculate_hash(), base.clone().calculate_hash());
    assert_ne!(base.calculate_hash(), later.calculate_hash());
    assert_ne!(base.calculate_hash(), other_nonce.calculate_hash());
    assert_ne!(base.calculate_hash(), other_sender.calculate_hash());
    assert_ne!(base.calculate_hash(), other_amount.calculate_hash());
    assert_eq!(base.calculate_hash(), signed.calculate_hash());
}

#[test]
fn create_account_in_the_first_block() {
    let mut store = AccountStore::new();
    let tx = Transaction::new(
        user("alice"),
        TransactionData::CreateUserAccount(user("alice")),
        0,
    );
    assert_eq!(tx.execute(&mut store, &true), Ok(()));
    assert_eq!(
        store.get_account_by_id(&user("alice")),
        Some(&Account {
            account_type: AccountType::User,
            tokens: 0
        })
    );
    assert_eq!(store.get_user_ids(), vec![user("alice")]);
}

#[test]
fn create_account_by_an_existing_sender() {
    let mut store = store_with(&[("alice", 5)]);
    let tx = Transaction::new(
        user("alice"),
        TransactionData::CreateUserAccount(user("bob")),
        0,
    );
    assert_eq!(tx.execute(&mut store, &false), Ok(()));
    assert_eq!(tokens(&store, "bob"), Some(0));
    assert_eq!(tokens(&store, "alice"), Some(5));
}

#[test]
fn unknown_sender_is_rejected_outside_the_first_block() {
    let mut store = store_with(&[("bob", 5)]);
    let create = Transaction::new(
        user("alice"),
        TransactionData::CreateUserAccount(user("alice")),
        0,
    );
    assert_eq!(
        create.execute(&mut store, &false),
        Err(ExecutionError::SenderMissing)
    );
    assert_eq!(
        transfer("alice", "bob", 0).execute(&mut store, &false),
        Err(ExecutionError::SenderMissing)
    );
    assert_eq!(
        mint("alice", "bob", 1).execute(&mut store, &false),
        Err(ExecutionError::SenderMissing)
    );
    assert_eq!(store.get_user_ids(), vec![user("bob")]);
    assert_eq!(tokens(&store, "bob"), Some(5));
}

#[test]
fn duplicate_account_is_rejected() {
    let mut store = store_with(&[("alice", 5)]);
    let tx = Transaction::new(
        user("alice"),
        TransactionData::CreateUserAccount(user("alice")),
        0,
    );
    assert_eq!(
        tx.execute(&mut store, &false),
        Err(ExecutionError::AccountAlreadyExists)
    );
    assert_eq!(
        tx.execute(&mut store, &true),
        Err(ExecutionError::AccountAlreadyExists)
    );
    assert_eq!(tokens(&store, "alice"), Some(5));
    assert_eq!(store.get_user_ids(), vec![user("alice")]);
}

#[test]
fn minting_in_the_first_block() {
    let mut store = store_with(&[("bob", 5)]);
    // the sender need not exist in the first block
    assert_eq!(mint("alice", "bob", 10).execute(&mut store, &true), Ok(()));
    assert_eq!(tokens(&store, "bob"), Some(15));
}

#[test]
fn minting_is_for_the_first_block_only() {
    let mut store = store_with(&[("alice", 5), ("bob", 5)]);
    assert_eq!(
        mint("alice", "bob", 10).execute(&mut store, &false),
        Err(ExecutionError::MintingOutsideGenesis)
    );
    assert_eq!(tokens(&store, "bob"), Some(5));
    assert_eq!(tokens(&store, "alice"), Some(5));
}

#[test]
fn minting_needs_a_receiver() {
    let mut store = store_with(&[("alice", 5)]);
    assert_eq!(
        mint("alice", "bob", 10).execute(&mut store, &true),
        Err(ExecutionError::MintReceiverMissing)
    );
    assert_eq!(store.get_user_ids(), vec![user("alice")]);
}

#[test]
fn minting_does_not_overflow() {
    let mut store = store_with(&[("alice", u128::MAX - 1)]);
    assert_eq!(
        mint("alice", "alice", 2).execute(&mut store, &true),
        Err(ExecutionError::Arithmetic)
    );
    assert_eq!(tokens(&store, "alice"), Some(u128::MAX - 1));
    assert_eq!(mint("alice", "alice", 1).execute(&mut store, &true), Ok(()));
    assert_eq!(tokens(&store, "alice"), Some(u128::MAX));
}

#[test]
fn transfer_moves_tokens() {
    let mut store = store_with(&[("alice", 10), ("bob", 1), ("carol", 4)]);
    assert_eq!(transfer("alice", "bob", 3).execute(&mut store, &false), Ok(()));
    assert_eq!(tokens(&store, "alice"), Some(7));
    assert_eq!(tokens(&store, "bob"), Some(4));
    assert_eq!(tokens(&store, "carol"), Some(4));
    // all of it
    assert_eq!(transfer("alice", "bob", 7).execute(&mut store, &true), Ok(()));
    assert_eq!(tokens(&store, "alice"), Some(0));
    assert_eq!(tokens(&store, "bob"), Some(11));
}

#[test]
fn transfer_of_more_than_the_balance_is_rejected() {
    let mut store = store_with(&[("alice", 10), ("bob", 1)]);
    assert_eq!(
        transfer("alice", "bob", 11).execute(&mut store, &false),
        Err(ExecutionError::Arithmetic)
    );
    assert_eq!(tokens(&store, "alice"), Some(10));
    assert_eq!(tokens(&store, "bob"), Some(1));
}

#[test]
fn transfer_does_not_overflow_the_receiver() {
    let mut store = store_with(&[("alice", 10), ("bob", u128::MAX - 4)]);
    assert_eq!(
        transfer("alice", "bob", 5).execute(&mut store, &false),
        Err(ExecutionError::Arithmetic)
    );
    assert_eq!(tokens(&store, "alice"), Some(10));
    assert_eq!(tokens(&store, "bob"), Some(u128::MAX - 4));
    assert_eq!(transfer("alice", "bob", 4).execute(&mut store, &false), Ok(()));
    assert_eq!(tokens(&store, "alice"), Some(6));
    assert_eq!(tokens(&store, "bob"), Some(u128::MAX));
}

#[test]
fn transfer_needs_both_accounts() {
    let mut store = store_with(&[("alice", 10)]);
    assert_eq!(
        transfer("alice", "bob", 1).execute(&mut store, &false),
        Err(ExecutionError::TransferReceiverMissing)
    );
    // in the first block the sender is looked for after the receiver
    assert_eq!(
        transfer("bob", "alice", 1).execute(&mut store, &true),
        Err(ExecutionError::TransferSenderMissing)
    );
    assert_eq!(
        transfer("bob", "carol", 1).execute(&mut store, &true),
        Err(ExecutionError::TransferReceiverMissing)
    );
    assert_eq!(tokens(&store, "alice"), Some(10));
    assert_eq!(store.get_user_ids(), vec![user("alice")]);
}

#[test]
fn transfer_to_oneself_changes_nothing() {
    let mut store = store_with(&[("alice", 10), ("bob", 4)]);
    assert_eq!(
        transfer("alice", "alice", 3).execute(&mut store, &false),
        Ok(())
    );
    assert_eq!(tokens(&store, "alice"), Some(10));
    assert_eq!(tokens(&store, "bob"), Some(4));
    assert_eq!(
        transfer("alice", "alice", 10).execute(&mut store, &true),
        Ok(())
    );
    assert_eq!(tokens(&store, "alice"), Some(10));
    assert_eq!(
        transfer("alice", "alice", 0).execute(&mut store, &false),
        Ok(())
    );
    assert_eq!(tokens(&store, "alice"), Some(10));
    assert_eq!(store.get_user_ids(), vec![user("alice"), user("bob")]);
}

#[test]
fn transfer_to_oneself_is_checked_like_any_other() {
    let mut store = store_with(&[("alice", 10), ("rich", u128::MAX)]);
    // more than the balance
    assert_eq!(
        transfer("alice", "alice", 11).execute(&mut store, &false),
        Err(ExecutionError::Arithmetic)
    );
    assert_eq!(tokens(&store, "alice"), Some(10));
    // the receiver's balance and the amount must add up without overflow
    assert_eq!(
        transfer("rich", "rich", 1).execute(&mut store, &false),
        Err(ExecutionError::Arithmetic)
    );
    assert_eq!(tokens(&store, "rich"), Some(u128::MAX));
    assert_eq!(
        transfer("rich", "rich", 0).execute(&mut store, &false),
        Ok(())
    );
    assert_eq!(tokens(&store, "rich"), Some(u128::MAX));
}

#[test]
fn transfers_keep_the_sum_of_all_balances() {
    let mut store = store_with(&[("alice", 10), ("bob", 1), ("carol", 4)]);
    let sum = |store: &AccountStore| -> u128 {
        store
            .get_user_ids()
            .iter()
            .map(|id| store.get_account_by_id(id).unwrap().tokens)
            .sum()
    };
    assert_eq!(sum(&store), 15);
    for (from, to, amount) in [
        ("alice", "bob", 3),
        ("bob", "bob", 2),
        ("carol", "alice", 4),
        ("carol", "alice", 1),
        ("alice", "dave", 1),
        ("bob", "carol", 4),
    ] {
        let _ = transfer(from, to, amount).execute(&mut store, &false);
        assert_eq!(sum(&store), 15);
    }
    assert_eq!(tokens(&store, "alice"), Some(11));
    assert_eq!(tokens(&store, "bob"), Some(0));
    assert_eq!(tokens(&store, "carol"), Some(4));
}

#[test]
fn store_change_is_not_implemented() {
    let mut store = store_with(&[("alice", 10)]);
    let tx = Transaction::new(
        user("alice"),
        TransactionData::ChangeStoreValue {
            key: user("k"),
            value: user("v"),
        },
        0,
    );
    assert_eq!(
        tx.execute(&mut store, &false),
        Err(ExecutionError::Unimplemented)
    );
    assert_eq!(
        tx.execute(&mut store, &true),
        Err(ExecutionError::Unimplemented)
    );
    assert_eq!(tokens(&store, "alice"), Some(10));
}

#[test]
fn execution_messages() {
    assert_eq!(
        ExecutionError::SenderMissing.message(),
        "Account does not exist (Code: 93482390)"
    );
    assert_eq!(
        ExecutionError::AccountAlreadyExists.message(),
        "User already exists! (Code: 934823094)"
    );
    assert_eq!(
        ExecutionError::MintingOutsideGenesis.message(),
        "Token creation is only available on initial creation (Code: 2394233)"
    );
    assert_eq!(
        ExecutionError::MintReceiverMissing.message(),
        "Receiver Account does not exist (Code: 23482309)"
    );
    assert_eq!(
        ExecutionError::TransferReceiverMissing.message(),
        "Receiver Account does not exist! (Code: 3242342380)"
    );
    assert_eq!(
        ExecutionError::TransferSenderMissing.message(),
        "That account does not exist! (Code: 23423923)"
    );
    assert_eq!(
        ExecutionError::Arithmetic.message(),
        "Overspent or Arithmetic error (Code: 48239084203)"
    );
    assert_eq!(
        ExecutionError::Unimplemented.message(),
        "Unknown Transaction type (not implemented) (Code: 487289724389)"
    );
}

#[test]
fn store_files_accounts_by_identifier() {
    let mut store = AccountStore::new();
    assert!(store.get_user_ids().is_empty());
    assert!(store.get(&user("alice")).is_none());
    assert!(store.create(user("alice"), AccountType::User));
    assert!(store.create(user("bob"), AccountType::User));
    assert!(!store.create(user("alice"), AccountType::User));
    assert_eq!(store.ids(), vec![user("alice"), user("bob")]);
    store.get_mut(&user("alice")).unwrap().tokens = 9;
    assert_eq!(store.get(&user("alice")).unwrap().tokens, 9);
    assert_eq!(store.get(&user("bob")).unwrap().tokens, 0);
    assert!(store.get_mut(&user("carol")).is_none());

    let copy = store.clone();
    store.get_mut(&user("bob")).unwrap().tokens = 1;
    assert_eq!(copy.get(&user("bob")).unwrap().tokens, 0);
    assert_eq!(copy.get(&user("alice")).unwrap().tokens, 9);
    assert_eq!(copy.ids(), store.ids());
}
