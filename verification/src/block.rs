//! Blocks, the hash of a block, and the difficulty a hash must meet.

use crate::canonical::{
    decimal, lemma_cut_at_first, lemma_decimal_digits, lemma_decimal_injective, lemma_same_end,
    lemma_same_start, lemma_signed_decimal_bytes, lemma_signed_decimal_injective,
    lemma_utf8_injective, push_bytes, push_decimal, push_signed_decimal, signed_decimal,
};
use crate::digest::{hex_encode, hex_lower, lemma_hex_lower_injective, sha256, sha256_digest};
use crate::transaction::{
    lemma_transactions_text_delimited, lemma_transactions_text_injective,
    lemma_transactions_text_starts, push_transactions, transaction_views, transactions_text,
    Transaction, TransactionView, OPEN_BRACKET,
};
use vstd::prelude::*;
use vstd::string::StrSliceExecFns;
use vstd::utf8::encode_utf8;

verus! {

/// An ordered container of transactions, linked to the block before it.
#[derive(Debug, PartialEq, Eq)]
pub struct Block {
    pub index: u64,
    pub timestamp: i64,
    pub transactions: Vec<Transaction>,
    pub previous_hash: String,
    pub hash: String,
    pub nonce: u64,
}

/// What a block holds, as mathematical values.
pub ghost struct BlockView {
    pub index: nat,
    pub timestamp: int,
    pub transactions: Seq<TransactionView>,
    pub previous_hash: Seq<char>,
    pub hash: Seq<char>,
    pub nonce: nat,
}

impl View for Block {
    type V = BlockView;

    open spec fn view(&self) -> BlockView {
        BlockView {
            index: self.index as nat,
            timestamp: self.timestamp as int,
            transactions: transaction_views(self.transactions@),
            previous_hash: self.previous_hash@,
            hash: self.hash@,
            nonce: self.nonce as nat,
        }
    }
}

impl Clone for Block {
    fn clone(&self) -> (copy: Self)
        ensures
            copy@ == self@,
    {
        let transactions = clone_transactions(&self.transactions);
        Block {
            index: self.index,
            timestamp: self.timestamp,
            transactions,
            previous_hash: self.previous_hash.clone(),
            hash: self.hash.clone(),
            nonce: self.nonce,
        }
    }
}

/// A copy of a list of transactions.
pub fn clone_transactions(transactions: &Vec<Transaction>) -> (copy: Vec<Transaction>)
    ensures
        copy@ == transactions@,
{
    let mut copy: Vec<Transaction> = Vec::new();
    let mut i: usize = 0;
    while i < transactions.len()
        invariant
            i <= transactions@.len(),
            copy@ == transactions@.take(i as int),
        decreases transactions@.len() - i,
    {
        copy.push(transactions[i].clone());
        assert(transactions@.take(i + 1) =~= transactions@.take(i as int).push(
            transactions@[i as int],
        ));
        i += 1;
    }
    assert(transactions@.take(i as int) =~= transactions@);
    copy
}

/// The views of a sequence of blocks, in the same order.
pub open spec fn block_views(blocks: Seq<Block>) -> Seq<BlockView> {
    blocks.map_values(|b: Block| b@)
}

/// The bytes that are hashed for a block: index, timestamp, the canonical
/// text of the transactions, the previous hash and the nonce, one after the
/// other with nothing in between.
pub open spec fn hash_preimage(
    index: nat,
    timestamp: int,
    transactions: Seq<TransactionView>,
    previous_hash: Seq<char>,
    nonce: nat,
) -> Seq<u8> {
    decimal(index) + signed_decimal(timestamp) + transactions_text(transactions) + encode_utf8(
        previous_hash,
    ) + decimal(nonce)
}

/// The hash of a block's fields: the SHA-256 digest of `hash_preimage`, in
/// lower-case hexadecimal.
pub open spec fn block_digest(
    index: nat,
    timestamp: int,
    transactions: Seq<TransactionView>,
    previous_hash: Seq<char>,
    nonce: nat,
) -> Seq<char> {
    hex_lower(sha256(hash_preimage(index, timestamp, transactions, previous_hash, nonce)))
}

/// The number of characters in a hash.
pub const HASH_LENGTH: usize = 64;

/// A hash meets a difficulty when it starts with that many `0` characters.
pub open spec fn meets_difficulty(hash: Seq<char>, difficulty: nat) -> bool {
    &&& difficulty <= hash.len()
    &&& forall|i: int| 0 <= i < difficulty ==> hash[i] == '0'
}

/// Hashes `(index, timestamp, transactions, previous_hash, nonce)`.
///
/// The result is 64 hexadecimal characters and depends on nothing but the
/// arguments.
pub fn calculate_hash(
    index: u64,
    timestamp: i64,
    transactions: &[Transaction],
    previous_hash: &str,
    nonce: u64,
) -> (hash: String)
    ensures
        hash@ == block_digest(
            index as nat,
            timestamp as int,
            transaction_views(transactions@),
            previous_hash@,
            nonce as nat,
        ),
        hash@.len() == HASH_LENGTH,
{
    let mut data: Vec<u8> = Vec::new();
    push_decimal(&mut data, index as u128);
    push_signed_decimal(&mut data, timestamp);
    push_transactions(&mut data, transactions);
    push_bytes(&mut data, previous_hash.as_bytes());
    push_decimal(&mut data, nonce as u128);
    assert(data@ =~= hash_preimage(
        index as nat,
        timestamp as int,
        transaction_views(transactions@),
        previous_hash@,
        nonce as nat,
    ));
    let digest = sha256_digest(data.as_slice());
    hex_encode(digest.as_slice())
}

/// Whether `hash` starts with at least `difficulty` characters `0`.
pub fn has_leading_zeros(hash: &str, difficulty: usize) -> (yes: bool)
    ensures
        yes == meets_difficulty(hash@, difficulty as nat),
{
    let length: usize = hash.unicode_len();
    if length < difficulty {
        return false;
    }
    let mut i: usize = 0;
    while i < difficulty
        invariant
            i <= difficulty <= length,
            length == hash@.len(),
            forall|j: int| 0 <= j < i ==> hash@[j] == '0',
        decreases difficulty - i,
    {
        if hash.get_char(i) != '0' {
            return false;
        }
        i += 1;
    }
    true
}

/// The bytes that are hashed for `block`: `hash_preimage` of its fields.
pub open spec fn block_preimage(block: BlockView) -> Seq<u8> {
    hash_preimage(
        block.index,
        block.timestamp,
        block.transactions,
        block.previous_hash,
        block.nonce,
    )
}

/// The hash that the fields of `block` call for, whatever hash it stores.
pub open spec fn digest_of(block: BlockView) -> Seq<char> {
    block_digest(
        block.index,
        block.timestamp,
        block.transactions,
        block.previous_hash,
        block.nonce,
    )
}

/// Whether `a` and `b` are apart in exactly one of the five fields that are
/// hashed.
pub open spec fn differ_in_one_field(a: BlockView, b: BlockView) -> bool {
    ||| {
        &&& a.index != b.index
        &&& a.timestamp == b.timestamp
        &&& a.transactions == b.transactions
        &&& a.previous_hash == b.previous_hash
        &&& a.nonce == b.nonce
    }
    ||| {
        &&& a.index == b.index
        &&& a.timestamp != b.timestamp
        &&& a.transactions == b.transactions
        &&& a.previous_hash == b.previous_hash
        &&& a.nonce == b.nonce
    }
    ||| {
        &&& a.index == b.index
        &&& a.timestamp == b.timestamp
        &&& a.transactions != b.transactions
        &&& a.previous_hash == b.previous_hash
        &&& a.nonce == b.nonce
    }
    ||| {
        &&& a.index == b.index
        &&& a.timestamp == b.timestamp
        &&& a.transactions == b.transactions
        &&& a.previous_hash != b.previous_hash
        &&& a.nonce == b.nonce
    }
    ||| {
        &&& a.index == b.index
        &&& a.timestamp == b.timestamp
        &&& a.transactions == b.transactions
        &&& a.previous_hash == b.previous_hash
        &&& a.nonce != b.nonce
    }
}

/// Hashing is a function: blocks that agree in the five hashed fields call
/// for the same hash.
pub proof fn lemma_hash_deterministic(a: BlockView, b: BlockView)
    requires
        a.index == b.index,
        a.timestamp == b.timestamp,
        a.transactions == b.transactions,
        a.previous_hash == b.previous_hash,
        a.nonce == b.nonce,
    ensures
        block_preimage(a) == block_preimage(b),
        digest_of(a) == digest_of(b),
{
}

/// Five texts in a row are the same text however they are grouped.
proof fn lemma_five_in_a_row(a: Seq<u8>, b: Seq<u8>, c: Seq<u8>, d: Seq<u8>, e: Seq<u8>)
    ensures
        (((a + b) + c) + d) + e == a + (b + (c + (d + e))),
        (((a + b) + c) + d) + e == (a + b) + (c + (d + e)),
        (((a + b) + c) + d) + e == ((a + b) + c) + (d + e),
{
    assert((((a + b) + c) + d) + e =~= a + (b + (c + (d + e))));
    assert((((a + b) + c) + d) + e =~= (a + b) + (c + (d + e)));
    assert((((a + b) + c) + d) + e =~= ((a + b) + c) + (d + e));
}

/// A change to one hashed field changes the bytes that are hashed. The
/// transactions count as one field: any change to their number, their order
/// or a field of one of them is a change.
pub proof fn lemma_changed_field_changes_preimage(a: BlockView, b: BlockView)
    requires
        differ_in_one_field(a, b),
    ensures
        block_preimage(a) != block_preimage(b),
{
    let index_a = decimal(a.index);
    let index_b = decimal(b.index);
    let time_a = signed_decimal(a.timestamp);
    let time_b = signed_decimal(b.timestamp);
    let list_a = transactions_text(a.transactions);
    let list_b = transactions_text(b.transactions);
    let previous_a = encode_utf8(a.previous_hash);
    let previous_b = encode_utf8(b.previous_hash);
    let nonce_a = decimal(a.nonce);
    let nonce_b = decimal(b.nonce);
    lemma_five_in_a_row(index_a, time_a, list_a, previous_a, nonce_a);
    lemma_five_in_a_row(index_b, time_b, list_b, previous_b, nonce_b);
    assert(block_preimage(a) == (((index_a + time_a) + list_a) + previous_a) + nonce_a);
    assert(block_preimage(b) == (((index_b + time_b) + list_b) + previous_b) + nonce_b);
    if block_preimage(a) == block_preimage(b) {
        if a.index != b.index {
            lemma_same_end(index_a, index_b, time_a + (list_a + (previous_a + nonce_a)));
            lemma_decimal_injective(a.index, b.index);
        } else if a.timestamp != b.timestamp {
            let rest = list_a + (previous_a + nonce_a);
            lemma_same_start(index_a, time_a + rest, time_b + rest);
            lemma_same_end(time_a, time_b, rest);
            lemma_signed_decimal_injective(a.timestamp, b.timestamp);
        } else if a.transactions != b.transactions {
            let rest = previous_a + nonce_a;
            lemma_same_start(index_a + time_a, list_a + rest, list_b + rest);
            lemma_same_end(list_a, list_b, rest);
            lemma_transactions_text_injective(a.transactions, b.transactions);
        } else if a.previous_hash != b.previous_hash {
            lemma_same_start(
                (index_a + time_a) + list_a,
                previous_a + nonce_a,
                previous_b + nonce_a,
            );
            lemma_same_end(previous_a, previous_b, nonce_a);
            lemma_utf8_injective(a.previous_hash, b.previous_hash);
        } else {
            lemma_same_start(((index_a + time_a) + list_a) + previous_a, nonce_a, nonce_b);
            lemma_decimal_injective(a.nonce, b.nonce);
        }
    }
}

/// The text that stands before the transactions holds no opening bracket.
proof fn lemma_head_has_no_bracket(index: nat, timestamp: int)
    ensures
        forall|k: int|
            0 <= k < (decimal(index) + signed_decimal(timestamp)).len() ==> (decimal(index)
                + signed_decimal(timestamp))[k] != OPEN_BRACKET,
{
    let head = decimal(index) + signed_decimal(timestamp);
    lemma_decimal_digits(index);
    lemma_signed_decimal_bytes(timestamp);
    assert forall|k: int| 0 <= k < head.len() implies head[k] != OPEN_BRACKET by {
        if k < decimal(index).len() {
            assert(head[k] == decimal(index)[k]);
        } else {
            assert(head[k] == signed_decimal(timestamp)[k - decimal(index).len()]);
        }
    }
}

/// Blocks with the same hashed bytes hold the same transactions, and the
/// bytes that follow the transactions are the same too.
pub proof fn lemma_same_preimage(a: BlockView, b: BlockView)
    requires
        block_preimage(a) == block_preimage(b),
    ensures
        a.transactions == b.transactions,
        encode_utf8(a.previous_hash) + decimal(a.nonce) == encode_utf8(b.previous_hash) + decimal(
            b.nonce,
        ),
{
    let head_a = decimal(a.index) + signed_decimal(a.timestamp);
    let head_b = decimal(b.index) + signed_decimal(b.timestamp);
    let list_a = transactions_text(a.transactions);
    let list_b = transactions_text(b.transactions);
    let tail_a = encode_utf8(a.previous_hash) + decimal(a.nonce);
    let tail_b = encode_utf8(b.previous_hash) + decimal(b.nonce);
    lemma_five_in_a_row(
        decimal(a.index),
        signed_decimal(a.timestamp),
        list_a,
        encode_utf8(a.previous_hash),
        decimal(a.nonce),
    );
    lemma_five_in_a_row(
        decimal(b.index),
        signed_decimal(b.timestamp),
        list_b,
        encode_utf8(b.previous_hash),
        decimal(b.nonce),
    );
    assert(block_preimage(a) == head_a + (list_a + tail_a));
    assert(block_preimage(b) == head_b + (list_b + tail_b));
    lemma_transactions_text_starts(a.transactions);
    lemma_transactions_text_starts(b.transactions);
    lemma_starts_with_bracket(list_a, tail_a);
    lemma_starts_with_bracket(list_b, tail_b);
    lemma_head_has_no_bracket(a.index, a.timestamp);
    lemma_head_has_no_bracket(b.index, b.timestamp);
    lemma_cut_at_first(
        OPEN_BRACKET,
        head_a,
        (list_a + tail_a).skip(1),
        head_b,
        (list_b + tail_b).skip(1),
    );
    lemma_transactions_text_delimited(a.transactions, tail_a, b.transactions, tail_b);
}

/// A text that starts with an opening bracket, followed by more text, is the
/// bracket followed by the rest.
proof fn lemma_starts_with_bracket(text: Seq<u8>, more: Seq<u8>)
    requires
        text.len() > 0,
        text[0] == OPEN_BRACKET,
    ensures
        text + more == seq![OPEN_BRACKET] + (text + more).skip(1),
{
    assert(text + more =~= seq![OPEN_BRACKET] + (text + more).skip(1));
}

/// A change to one hashed field changes the hash, unless SHA-256 itself
/// gives the two texts the same digest.
pub proof fn lemma_changed_field_changes_hash(a: BlockView, b: BlockView)
    requires
        differ_in_one_field(a, b),
        sha256(block_preimage(a)) == sha256(block_preimage(b)) ==> block_preimage(a)
            == block_preimage(b),
    ensures
        digest_of(a) != digest_of(b),
{
    lemma_changed_field_changes_preimage(a, b);
    if digest_of(a) == digest_of(b) {
        lemma_hex_lower_injective(sha256(block_preimage(a)), sha256(block_preimage(b)));
    }
}

} // verus!
