//! Blocks: ordered batches of transactions, each linked to its predecessor
//! by that block's hash.

use crate::digest::{blake2b, blake2b_digest, DIGEST_BYTES};
use crate::encoding::{
    append_number, append_optional_text, fits, lemma_number_decodes, lemma_optional_text_decodes,
    lemma_split, number_encoding, optional_text_encoding, text_of,
};
use crate::text::{byte_vector_to_string, hex_encoding, lemma_hex_encoding_injective};
use crate::transaction::Transaction;
use vstd::prelude::*;

verus! {

/// The hashes of the transactions, one after the other, in their order.
pub open spec fn transaction_digests(transactions: Seq<Transaction>) -> Seq<u8>
    decreases transactions.len(),
{
    if transactions.len() == 0 {
        Seq::empty()
    } else {
        transaction_digests(transactions.drop_last()) + transactions.last().spec_hash()
    }
}

/// Whether the hash of each transaction has the length of a digest, as every
/// hash that was calculated has.
pub open spec fn digests_sized(transactions: Seq<Transaction>) -> bool {
    forall|i: int|
        0 <= i < transactions.len() ==> (#[trigger] transactions[i]).spec_hash().len()
            == DIGEST_BYTES
}

/// A container of transactions, linked to the block before it.
#[derive(Clone, Debug)]
pub struct Block {
    /// The actions that this block includes. A committed block has at least
    /// one.
    pub transactions: Vec<Transaction>,
    /// The hash of the previous block: what connects the blocks. `None` in
    /// the first block only.
    pub prev_hash: Option<String>,
    /// The hash of this block, in hexadecimal digits, as it was last
    /// calculated.
    pub hash: Option<String>,
    /// An arbitrary number, kept for a proof of work.
    pub nonce: u128,
}

impl Block {
    /// The canonical bytes of the link to the previous block and of the
    /// nonce.
    pub open spec fn link_encoding(&self) -> Seq<u8> {
        optional_text_encoding(text_of(self.prev_hash)) + number_encoding(self.nonce)
    }

    /// What the block's hash is the digest of: the hash of every transaction,
    /// in order, then the link and the nonce.
    pub open spec fn preimage(&self) -> Seq<u8> {
        transaction_digests(self.transactions@) + self.link_encoding()
    }

    /// The hash of the block as its contents give it. The stored hash is no
    /// part of it.
    pub open spec fn spec_hash(&self) -> Seq<u8> {
        blake2b_digest(self.preimage())
    }

    /// Whether the stored hash is set and is the rendering of the hash that
    /// the contents give.
    pub open spec fn hash_is_current(&self) -> bool {
        self.hash matches Some(stored) && stored@ == hex_encoding(self.spec_hash())
    }

    /// Creates a block without transactions and without a hash, with a nonce
    /// of zero.
    pub fn new(prev_hash: Option<String>) -> (block: Block)
        ensures
            block.transactions@ == Seq::<Transaction>::empty(),
            block.prev_hash == prev_hash,
            block.hash is None,
            block.nonce == 0,
    {
        Block { nonce: 0, hash: None, prev_hash, transactions: Vec::new() }
    }

    /// Changes the nonce and updates the hash.
    pub fn set_nonce(&mut self, nonce: u128)
        ensures
            final(self).nonce == nonce,
            final(self).transactions == old(self).transactions,
            final(self).prev_hash == old(self).prev_hash,
            final(self).hash_is_current(),
    {
        self.nonce = nonce;
        self.update_hash();
    }

    /// The bytes that `calculate_hash` digests.
    pub fn preimage_bytes(&self) -> (bytes: Vec<u8>)
        ensures
            bytes@ == self.preimage(),
            digests_sized(self.transactions@),
    {
        let mut bytes: Vec<u8> = Vec::new();
        let mut i: usize = 0;
        while i < self.transactions.len()
            invariant
                i <= self.transactions.len(),
                bytes@ == transaction_digests(self.transactions@.take(i as int)),
                digests_sized(self.transactions@.take(i as int)),
            decreases self.transactions.len() - i,
        {
            let mut digest = self.transactions[i].calculate_hash();
            bytes.append(&mut digest);
            proof {
                let longer = self.transactions@.take(i + 1);
                assert(longer.drop_last() =~= self.transactions@.take(i as int));
                assert(longer.last() == self.transactions@[i as int]);
            }
            i = i + 1;
        }
        assert(self.transactions@.take(i as int) =~= self.transactions@);
        append_optional_text(&mut bytes, &self.prev_hash);
        append_number(&mut bytes, self.nonce);
        assert(bytes@ =~= self.preimage());
        bytes
    }

    /// Calculates the hash of the whole block, transactions included, with
    /// the BLAKE2b hasher.
    pub fn calculate_hash(&self) -> (digest: Vec<u8>)
        ensures
            digest@ == self.spec_hash(),
            digest@.len() == DIGEST_BYTES,
    {
        let bytes = self.preimage_bytes();
        blake2b(bytes.as_slice())
    }

    /// Appends a transaction and updates the hash.
    pub fn add_transaction(&mut self, transaction: Transaction)
        ensures
            final(self).transactions@ == old(self).transactions@.push(transaction),
            final(self).prev_hash == old(self).prev_hash,
            final(self).nonce == old(self).nonce,
            final(self).hash_is_current(),
    {
        self.transactions.push(transaction);
        self.update_hash();
    }

    /// The number of transactions in the block.
    pub fn get_transaction_count(&self) -> (count: usize)
        ensures
            count == self.transactions@.len(),
    {
        self.transactions.len()
    }

    /// Sets the stored hash to the hash that the contents give now.
    pub fn update_hash(&mut self)
        ensures
            final(self).transactions == old(self).transactions,
            final(self).prev_hash == old(self).prev_hash,
            final(self).nonce == old(self).nonce,
            final(self).hash_is_current(),
    {
        self.hash = Some(byte_vector_to_string(&self.calculate_hash()));
    }

    /// Checks that the hash is set and matches the block's contents.
    pub fn verify_own_hash(&self) -> (current: bool)
        ensures
            current == self.hash_is_current(),
    {
        match &self.hash {
            Some(stored) => *stored == byte_vector_to_string(&self.calculate_hash()),
            None => false,
        }
    }
}

/// A stale hash is found out: where the stored hash renders a digest other
/// than the one that the block's contents give now, the block fails its own
/// check. Whether changed contents give another digest is for the hasher to
/// ensure.
pub proof fn lemma_stale_hash_is_detected(block: Block, stored_digest: Seq<u8>)
    requires
        block.hash matches Some(stored) && stored@ == hex_encoding(stored_digest),
        stored_digest != block.spec_hash(),
    ensures
        !block.hash_is_current(),
{
    if block.hash_is_current() {
        lemma_hex_encoding_injective(stored_digest, block.spec_hash());
    }
}

/// The hashes of transactions, one after the other, take a digest's length
/// for each.
pub proof fn lemma_digests_length(transactions: Seq<Transaction>)
    requires
        digests_sized(transactions),
    ensures
        transaction_digests(transactions).len() == DIGEST_BYTES * transactions.len(),
    decreases transactions.len(),
{
    if transactions.len() > 0 {
        lemma_digests_length(transactions.drop_last());
    }
}

/// As many hashes, one after the other, give the same bytes only if they are
/// the same hashes in the same order.
pub proof fn lemma_digests_agree(transactions: Seq<Transaction>, others: Seq<Transaction>)
    requires
        transactions.len() == others.len(),
        digests_sized(transactions),
        digests_sized(others),
        transaction_digests(transactions) == transaction_digests(others),
    ensures
        forall|i: int|
            0 <= i < transactions.len() ==> (#[trigger] transactions[i]).spec_hash()
                == others[i].spec_hash(),
    decreases transactions.len(),
{
    if transactions.len() > 0 {
        let earlier = transactions.drop_last();
        let other_earlier = others.drop_last();
        lemma_digests_length(earlier);
        lemma_digests_length(other_earlier);
        lemma_split(
            transaction_digests(earlier),
            transactions.last().spec_hash(),
            transaction_digests(other_earlier),
            others.last().spec_hash(),
        );
        lemma_digests_agree(earlier, other_earlier);
        assert forall|i: int| 0 <= i < transactions.len() implies (
        #[trigger] transactions[i]).spec_hash() == others[i].spec_hash() by {
            if i < earlier.len() {
                assert(transactions[i] == earlier[i]);
                assert(others[i] == other_earlier[i]);
            }
        }
    }
}

/// The bytes that are hashed determine what a block of a given size holds:
/// two blocks of as many transactions with the same bytes to hash have the
/// same transaction hashes in the same order, the same link and the same
/// nonce. So to reorder transactions with different hashes, or to change the
/// link or the nonce, is to change the bytes that the block's hash is the
/// digest of.
pub proof fn lemma_preimage_determines_block(block: Block, other: Block)
    requires
        block.transactions@.len() == other.transactions@.len(),
        digests_sized(block.transactions@),
        digests_sized(other.transactions@),
        block.prev_hash matches Some(link) ==> fits(link@),
        other.prev_hash matches Some(link) ==> fits(link@),
        block.preimage() == other.preimage(),
    ensures
        forall|i: int|
            0 <= i < block.transactions@.len() ==> (#[trigger] block.transactions@[i]).spec_hash()
                == other.transactions@[i].spec_hash(),
        text_of(block.prev_hash) == text_of(other.prev_hash),
        block.nonce == other.nonce,
{
    lemma_digests_length(block.transactions@);
    lemma_digests_length(other.transactions@);
    lemma_split(
        transaction_digests(block.transactions@),
        block.link_encoding(),
        transaction_digests(other.transactions@),
        other.link_encoding(),
    );
    lemma_digests_agree(block.transactions@, other.transactions@);
    lemma_optional_text_decodes(
        text_of(block.prev_hash),
        number_encoding(block.nonce),
        text_of(other.prev_hash),
        number_encoding(other.nonce),
    );
    let nothing = Seq::<u8>::empty();
    assert(number_encoding(block.nonce) + nothing =~= number_encoding(block.nonce));
    assert(number_encoding(other.nonce) + nothing =~= number_encoding(other.nonce));
    lemma_number_decodes(block.nonce, nothing, other.nonce, nothing);
}

} // verus!
