use blockchain::encoding::{append_number, append_optional_text, append_text, same_text};
use blockchain::text::{byte_vector_to_string, decimal};
use blockchain::{Block, Transaction, TransactionData};

fn user(name: &str) -> String {
    name.to_string()
}

fn transfer_at(created_at: u128, amount: u128) -> Transaction {
    Transaction::new_at(
        user("alice"),
        TransactionData::TransferTokens {
            to: user("bob"),
            amount,
        },
        0,
        created_at,
    )
}

#[test]
fn new_block_is_empty_and_unhashed() {
    let block = Block::new(Some(user("ab")));
    assert_eq!(block.get_transaction_count(), 0);
    assert_eq!(block.prev_hash, Some(user("ab")));
    assert_eq!(block.hash, None);
    assert_eq!(block.nonce, 0);
    assert!(!block.verify_own_hash());

    let first = Block::new(None);
    assert_eq!(first.prev_hash, None);
}

#[test]
fn hash_follows_every_change_through_the_methods() {
    let mut block = Block::new(None);
    block.add_transaction(transfer_at(1, 1));
    assert_eq!(block.get_transaction_count(), 1);
    assert!(block.verify_own_hash());
    let first = block.hash.clone();

    block.add_transaction(transfer_at(2, 1));
    assert_eq!(block.get_transaction_count(), 2);
    assert!(block.verify_own_hash());
    let second = block.hash.clone();
    assert_ne!(first, second);

    block.set_nonce(77);
    assert_eq!(block.nonce, 77);
    assert_eq!(block.get_transaction_count(), 2);
    assert!(block.verify_own_hash());
    assert_ne!(second, block.hash);
    assert_eq!(
        block.hash,
        Some(byte_vector_to_string(&block.calculate_hash()))
    );
}

#[test]
fn direct_change_leaves_the_hash_behind() {
    let mut block = Block::new(None);
    block.add_transaction(transfer_at(1, 1));
    assert!(block.verify_own_hash());

    let mut payload = block.clone();
    match &mut payload.transactions[0].record {
        TransactionData::TransferTokens { amount, .. } => *amount = 2,
        _ => unreachable!(),
    }
    assert!(!payload.verify_own_hash());
    payload.update_hash();
    assert!(payload.verify_own_hash());

    let mut nonce = block.clone();
    nonce.nonce = 1;
    assert!(!nonce.verify_own_hash());

    let mut link = block.clone();
    link.prev_hash = Some(user("00"));
    assert!(!link.verify_own_hash());

    let mut stored = block.clone();
    stored.hash = Some(user("00"));
    assert!(!stored.verify_own_hash());
    stored.hash = None;
    assert!(!stored.verify_own_hash());
}

#[test]
fn block_hash_depends_on_the_order_of_transactions() {
    let mut forward = Block::new(None);
    forward.add_transaction(transfer_at(1, 1));
    forward.add_transaction(transfer_at(2, 1));
    let mut backward = Block::new(None);
    backward.add_transaction(transfer_at(2, 1));
    backward.add_transaction(transfer_at(1, 1));
    assert_ne!(forward.calculate_hash(), backward.calculate_hash());
    assert_eq!(forward.calculate_hash(), forward.clone().calculate_hash());
}

#[test]
fn block_preimage_is_hashes_then_link_then_nonce() {
    let mut block = Block::new(Some(user("ab")));
    let first = transfer_at(1, 1);
    let second = transfer_at(2, 5);
    block.add_transaction(first.clone());
    block.add_transaction(second.clone());
    block.set_nonce(258);

    let mut expected: Vec<u8> = Vec::new();
    expected.extend_from_slice(&first.calculate_hash());
    expected.extend_from_slice(&second.calculate_hash());
    expected.push(1);
    expected.extend_from_slice(&2u64.to_le_bytes());
    expected.extend_from_slice(b"ab");
    expected.extend_from_slice(&258u128.to_le_bytes());
    assert_eq!(expected.len(), 2 * 64 + 1 + 8 + 2 + 16);
    assert_eq!(block.preimage_bytes(), expected);
}

#[test]
fn hash_of_the_empty_first_block() {
    let block = Block::new(None);
    assert_eq!(block.preimage_bytes(), vec![0u8; 17]);
    let digest = block.calculate_hash();
    assert_eq!(digest.len(), 64);
    assert_eq!(
        byte_vector_to_string(&digest),
        "81bfc9b3f2de772a911615bbcc50a2e92c2b551197d6de28fdae592a3c512488\
         9400844ca73a35ebd48e0bc9f1290c6245b5cf753976f1abe4f3470936c4ea40"
    );
    let mut hashed = block.clone();
    hashed.update_hash();
    assert_eq!(hashed.hash, Some(byte_vector_to_string(&digest)));
}

#[test]
fn bytes_are_rendered_in_hexadecimal() {
    assert_eq!(byte_vector_to_string(&vec![]), "");
    assert_eq!(byte_vector_to_string(&vec![0x00]), "00");
    assert_eq!(
        byte_vector_to_string(&vec![0x00, 0x09, 0x0a, 0x1f, 0xa0, 0xff]),
        "00090a1fa0ff"
    );
    let all: Vec<u8> = (0..=255).collect();
    let text = byte_vector_to_string(&all);
    assert_eq!(text.len(), 512);
    for (i, byte) in all.iter().enumerate() {
        assert_eq!(&text[2 * i..2 * i + 2], format!("{:02x}", byte));
    }
}

#[test]
fn numbers_are_rendered_in_decimal() {
    assert_eq!(decimal(0), "0");
    assert_eq!(decimal(7), "7");
    assert_eq!(decimal(10), "10");
    assert_eq!(decimal(1_234_567_890), "1234567890");
    assert_eq!(decimal(u128::MAX), format!("{}", u128::MAX));
}

#[test]
fn encoding_of_numbers_and_texts() {
    let mut out: Vec<u8> = vec![9];
    append_number(&mut out, 0x0102);
    let mut expected: Vec<u8> = vec![9, 2, 1];
    expected.extend_from_slice(&[0; 14]);
    assert_eq!(out, expected);

    let mut out: Vec<u8> = vec![9];
    append_text(&mut out, &user("hi"));
    assert_eq!(out, vec![9, 2, 0, 0, 0, 0, 0, 0, 0, b'h', b'i']);

    let mut out: Vec<u8> = Vec::new();
    append_text(&mut out, &user(""));
    assert_eq!(out, vec![0; 8]);

    let mut out: Vec<u8> = vec![9];
    append_optional_text(&mut out, &None);
    assert_eq!(out, vec![9, 0]);

    let mut out: Vec<u8> = vec![9];
    append_optional_text(&mut out, &Some(user("")));
    assert_eq!(out, vec![9, 1, 0, 0, 0, 0, 0, 0, 0, 0]);
}

#[test]
fn texts_that_may_be_absent_are_compared() {
    assert!(same_text(&None, &None));
    assert!(same_text(&Some(user("a")), &Some(user("a"))));
    assert!(!same_text(&Some(user("a")), &Some(user("b"))));
    assert!(!same_text(&Some(user("")), &None));
    assert!(!same_text(&None, &Some(user(""))));
}
