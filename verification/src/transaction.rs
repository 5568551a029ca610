//! A single purchase, and the text by which it enters a hash.

use crate::canonical::{
    decimal, lemma_decimal_delimited, lemma_quoted_delimited, lemma_same_start,
    lemma_signed_decimal_delimited, lemma_utf8_injective, push_bytes, push_decimal, push_quoted,
    push_signed_decimal, quoted, signed_decimal,
};
use vstd::prelude::*;
use vstd::utf8::{encode_utf8, is_ascii_chars_encode_utf8};

verus! {

/// One purchase event.
///
/// `amount` counts hundredths of the currency unit. `hash` is the digest of
/// the other fields taken when the purchase was made; nothing recomputes it
/// afterwards.
#[derive(Debug, PartialEq, Eq)]
pub struct Transaction {
    pub id: String,
    pub product_id: String,
    pub buyer_address: String,
    pub seller_address: String,
    pub amount: u128,
    pub timestamp: i64,
    pub hash: String,
    pub previous_hash: String,
    pub nonce: u64,
}

/// What a transaction holds, as mathematical values.
pub ghost struct TransactionView {
    pub id: Seq<char>,
    pub product_id: Seq<char>,
    pub buyer_address: Seq<char>,
    pub seller_address: Seq<char>,
    pub amount: nat,
    pub timestamp: int,
    pub hash: Seq<char>,
    pub previous_hash: Seq<char>,
    pub nonce: nat,
}

impl View for Transaction {
    type V = TransactionView;

    open spec fn view(&self) -> TransactionView {
        TransactionView {
            id: self.id@,
            product_id: self.product_id@,
            buyer_address: self.buyer_address@,
            seller_address: self.seller_address@,
            amount: self.amount as nat,
            timestamp: self.timestamp as int,
            hash: self.hash@,
            previous_hash: self.previous_hash@,
            nonce: self.nonce as nat,
        }
    }
}

impl Clone for Transaction {
    fn clone(&self) -> (copy: Self)
        ensures
            copy == *self,
    {
        Transaction {
            id: self.id.clone(),
            product_id: self.product_id.clone(),
            buyer_address: self.buyer_address.clone(),
            seller_address: self.seller_address.clone(),
            amount: self.amount,
            timestamp: self.timestamp,
            hash: self.hash.clone(),
            previous_hash: self.previous_hash.clone(),
            nonce: self.nonce,
        }
    }
}

/// The views of a sequence of transactions, in the same order.
pub open spec fn transaction_views(transactions: Seq<Transaction>) -> Seq<TransactionView> {
    transactions.map_values(|t: Transaction| t@)
}

/// The canonical text of one transaction: every field by name, in the order
/// of declaration.
#[verifier::opaque]
pub open spec fn transaction_text(t: TransactionView) -> Seq<u8> {
    encode_utf8("Transaction { id: "@) + quoted(encode_utf8(t.id))
        + encode_utf8(", product_id: "@) + quoted(encode_utf8(t.product_id))
        + encode_utf8(", buyer_address: "@) + quoted(encode_utf8(t.buyer_address))
        + encode_utf8(", seller_address: "@) + quoted(encode_utf8(t.seller_address))
        + encode_utf8(", amount: "@) + decimal(t.amount)
        + encode_utf8(", timestamp: "@) + signed_decimal(t.timestamp)
        + encode_utf8(", hash: "@) + quoted(encode_utf8(t.hash))
        + encode_utf8(", previous_hash: "@) + quoted(encode_utf8(t.previous_hash))
        + encode_utf8(", nonce: "@) + decimal(t.nonce)
        + encode_utf8(" }"@)
}

/// The texts of the transactions in order, with `, ` between neighbours.
pub open spec fn joined_transactions_text(transactions: Seq<TransactionView>) -> Seq<u8>
    decreases transactions.len(),
{
    if transactions.len() == 0 {
        Seq::<u8>::empty()
    } else if transactions.len() == 1 {
        transaction_text(transactions[0])
    } else {
        joined_transactions_text(transactions.drop_last()) + encode_utf8(", "@)
            + transaction_text(transactions.last())
    }
}

/// The canonical text of a list of transactions: the joined texts between
/// square brackets.
pub open spec fn transactions_text(transactions: Seq<TransactionView>) -> Seq<u8> {
    encode_utf8("["@) + joined_transactions_text(transactions) + encode_utf8("]"@)
}

/// Appends the canonical text of `t` to `out`.
pub fn push_transaction(out: &mut Vec<u8>, t: &Transaction)
    ensures
        final(out)@ == old(out)@ + transaction_text(t@),
{
    let mut text: Vec<u8> = Vec::new();
    push_bytes(&mut text, "Transaction { id: ".as_bytes());
    push_quoted(&mut text, t.id.as_str().as_bytes());
    push_bytes(&mut text, ", product_id: ".as_bytes());
    push_quoted(&mut text, t.product_id.as_str().as_bytes());
    push_bytes(&mut text, ", buyer_address: ".as_bytes());
    push_quoted(&mut text, t.buyer_address.as_str().as_bytes());
    push_bytes(&mut text, ", seller_address: ".as_bytes());
    push_quoted(&mut text, t.seller_address.as_str().as_bytes());
    push_bytes(&mut text, ", amount: ".as_bytes());
    push_decimal(&mut text, t.amount);
    push_bytes(&mut text, ", timestamp: ".as_bytes());
    push_signed_decimal(&mut text, t.timestamp);
    push_bytes(&mut text, ", hash: ".as_bytes());
    push_quoted(&mut text, t.hash.as_str().as_bytes());
    push_bytes(&mut text, ", previous_hash: ".as_bytes());
    push_quoted(&mut text, t.previous_hash.as_str().as_bytes());
    push_bytes(&mut text, ", nonce: ".as_bytes());
    push_decimal(&mut text, t.nonce as u128);
    push_bytes(&mut text, " }".as_bytes());
    assert(text@ =~= transaction_text(t@)) by {
        reveal(transaction_text);
    }
    push_bytes(out, text.as_slice());
}

/// Appends the canonical text of the list `transactions` to `out`.
pub fn push_transactions(out: &mut Vec<u8>, transactions: &[Transaction])
    ensures
        final(out)@ == old(out)@ + transactions_text(transaction_views(transactions@)),
{
    let ghost views = transaction_views(transactions@);
    let mut text: Vec<u8> = Vec::new();
    let mut i: usize = 0;
    while i < transactions.len()
        invariant
            i <= transactions@.len(),
            views == transaction_views(transactions@),
            text@ == joined_transactions_text(views.take(i as int)),
        decreases transactions@.len() - i,
    {
        proof {
            let next = views.take(i + 1);
            assert(next.drop_last() =~= views.take(i as int));
            assert(next.last() == transactions@[i as int]@);
        }
        if i > 0 {
            push_bytes(&mut text, ", ".as_bytes());
        }
        push_transaction(&mut text, &transactions[i]);
        i += 1;
    }
    assert(views.take(i as int) =~= views);
    push_bytes(out, "[".as_bytes());
    push_bytes(out, text.as_slice());
    push_bytes(out, "]".as_bytes());
    assert(out@ =~= old(out)@ + transactions_text(views));
}

/// The text of `t` from the field `nonce` on, followed by `after`.
spec fn from_nonce(t: TransactionView, after: Seq<u8>) -> Seq<u8> {
    encode_utf8(", nonce: "@) + (decimal(t.nonce) + (encode_utf8(" }"@) + after))
}

/// The text of `t` from the field `previous_hash` on, followed by `after`.
spec fn from_previous_hash(t: TransactionView, after: Seq<u8>) -> Seq<u8> {
    encode_utf8(", previous_hash: "@) + (quoted(encode_utf8(t.previous_hash)) + from_nonce(
        t,
        after,
    ))
}

/// The text of `t` from the field `hash` on, followed by `after`.
spec fn from_hash(t: TransactionView, after: Seq<u8>) -> Seq<u8> {
    encode_utf8(", hash: "@) + (quoted(encode_utf8(t.hash)) + from_previous_hash(t, after))
}

/// The text of `t` from the field `timestamp` on, followed by `after`.
spec fn from_timestamp(t: TransactionView, after: Seq<u8>) -> Seq<u8> {
    encode_utf8(", timestamp: "@) + (signed_decimal(t.timestamp) + from_hash(t, after))
}

/// The text of `t` from the field `amount` on, followed by `after`.
spec fn from_amount(t: TransactionView, after: Seq<u8>) -> Seq<u8> {
    encode_utf8(", amount: "@) + (decimal(t.amount) + from_timestamp(t, after))
}

/// The text of `t` from the field `seller_address` on, followed by `after`.
spec fn from_seller_address(t: TransactionView, after: Seq<u8>) -> Seq<u8> {
    encode_utf8(", seller_address: "@) + (quoted(encode_utf8(t.seller_address)) + from_amount(
        t,
        after,
    ))
}

/// The text of `t` from the field `buyer_address` on, followed by `after`.
spec fn from_buyer_address(t: TransactionView, after: Seq<u8>) -> Seq<u8> {
    encode_utf8(", buyer_address: "@) + (quoted(encode_utf8(t.buyer_address)) + from_seller_address(
        t,
        after,
    ))
}

/// The text of `t` from the field `product_id` on, followed by `after`.
spec fn from_product_id(t: TransactionView, after: Seq<u8>) -> Seq<u8> {
    encode_utf8(", product_id: "@) + (quoted(encode_utf8(t.product_id)) + from_buyer_address(
        t,
        after,
    ))
}

/// The text of `t` from the field `id` on, followed by `after`.
spec fn from_id(t: TransactionView, after: Seq<u8>) -> Seq<u8> {
    encode_utf8("Transaction { id: "@) + (quoted(encode_utf8(t.id)) + from_product_id(t, after))
}

/// What is known of the fixed pieces of the text: none is empty, the pieces
/// that follow a number do not start with a digit, and a transaction, a
/// separator and the closing bracket start with three different bytes.
proof fn lemma_fixed_pieces()
    ensures
        encode_utf8("Transaction { id: "@).len() > 0,
        encode_utf8("Transaction { id: "@)[0] == 84,
        encode_utf8(", timestamp: "@).len() > 0,
        encode_utf8(", timestamp: "@)[0] == 44,
        encode_utf8(", hash: "@).len() > 0,
        encode_utf8(", hash: "@)[0] == 44,
        encode_utf8(" }"@).len() > 0,
        encode_utf8(" }"@)[0] == 32,
        encode_utf8(", "@).len() > 0,
        encode_utf8(", "@)[0] == 44,
        encode_utf8("["@).len() == 1,
        encode_utf8("["@)[0] == 91,
        encode_utf8("]"@).len() > 0,
        encode_utf8("]"@)[0] == 93,
{
    reveal_strlit("Transaction { id: ");
    reveal_strlit(", timestamp: ");
    reveal_strlit(", hash: ");
    reveal_strlit(" }");
    reveal_strlit(", ");
    reveal_strlit("[");
    reveal_strlit("]");
    is_ascii_chars_encode_utf8("Transaction { id: "@);
    is_ascii_chars_encode_utf8(", timestamp: "@);
    is_ascii_chars_encode_utf8(", hash: "@);
    is_ascii_chars_encode_utf8(" }"@);
    is_ascii_chars_encode_utf8(", "@);
    is_ascii_chars_encode_utf8("["@);
    is_ascii_chars_encode_utf8("]"@);
}

/// The text from the field `nonce` on determines that field, every later
/// field, and what follows the transaction.
proof fn lemma_from_nonce(
    a: TransactionView,
    after_a: Seq<u8>,
    b: TransactionView,
    after_b: Seq<u8>,
)
    requires
        from_nonce(a, after_a) == from_nonce(b, after_b),
    ensures
        a.nonce == b.nonce,
        after_a == after_b,
{
    lemma_fixed_pieces();
    let close = encode_utf8(" }"@);
    lemma_same_start(
        encode_utf8(", nonce: "@),
        decimal(a.nonce) + (close + after_a),
        decimal(b.nonce) + (close + after_b),
    );
    assert((close + after_a)[0] == close[0]);
    assert((close + after_b)[0] == close[0]);
    lemma_decimal_delimited(a.nonce, close + after_a, b.nonce, close + after_b);
    lemma_same_start(close, after_a, after_b);
}

/// The text from the field `previous_hash` on determines that field, every later
/// field, and what follows the transaction.
proof fn lemma_from_previous_hash(
    a: TransactionView,
    after_a: Seq<u8>,
    b: TransactionView,
    after_b: Seq<u8>,
)
    requires
        from_previous_hash(a, after_a) == from_previous_hash(b, after_b),
    ensures
        a.previous_hash == b.previous_hash,
        a.nonce == b.nonce,
        after_a == after_b,
{
    let rest_a = from_nonce(a, after_a);
    let rest_b = from_nonce(b, after_b);
    lemma_same_start(
        encode_utf8(", previous_hash: "@),
        quoted(encode_utf8(a.previous_hash)) + rest_a,
        quoted(encode_utf8(b.previous_hash)) + rest_b,
    );
    lemma_quoted_delimited(
        encode_utf8(a.previous_hash),
        rest_a,
        encode_utf8(b.previous_hash),
        rest_b,
    );
    lemma_utf8_injective(a.previous_hash, b.previous_hash);
    lemma_from_nonce(a, after_a, b, after_b);
}

/// The text from the field `hash` on determines that field, every later
/// field, and what follows the transaction.
proof fn lemma_from_hash(
    a: TransactionView,
    after_a: Seq<u8>,
    b: TransactionView,
    after_b: Seq<u8>,
)
    requires
        from_hash(a, after_a) == from_hash(b, after_b),
    ensures
        a.hash == b.hash,
        a.previous_hash == b.previous_hash,
        a.nonce == b.nonce,
        after_a == after_b,
{
    let rest_a = from_previous_hash(a, after_a);
    let rest_b = from_previous_hash(b, after_b);
    lemma_same_start(
        encode_utf8(", hash: "@),
        quoted(encode_utf8(a.hash)) + rest_a,
        quoted(encode_utf8(b.hash)) + rest_b,
    );
    lemma_quoted_delimited(encode_utf8(a.hash), rest_a, encode_utf8(b.hash), rest_b);
    lemma_utf8_injective(a.hash, b.hash);
    lemma_from_previous_hash(a, after_a, b, after_b);
}

/// The text from the field `timestamp` on determines that field, every later
/// field, and what follows the transaction.
proof fn lemma_from_timestamp(
    a: TransactionView,
    after_a: Seq<u8>,
    b: TransactionView,
    after_b: Seq<u8>,
)
    requires
        from_timestamp(a, after_a) == from_timestamp(b, after_b),
    ensures
        a.timestamp == b.timestamp,
        a.hash == b.hash,
        a.previous_hash == b.previous_hash,
        a.nonce == b.nonce,
        after_a == after_b,
{
    let rest_a = from_hash(a, after_a);
    let rest_b = from_hash(b, after_b);
    lemma_same_start(
        encode_utf8(", timestamp: "@),
        signed_decimal(a.timestamp) + rest_a,
        signed_decimal(b.timestamp) + rest_b,
    );
    lemma_fixed_pieces();
    assert(rest_a[0] == encode_utf8(", hash: "@)[0]);
    assert(rest_b[0] == encode_utf8(", hash: "@)[0]);
    lemma_signed_decimal_delimited(a.timestamp, rest_a, b.timestamp, rest_b);
    lemma_from_hash(a, after_a, b, after_b);
}

/// The text from the field `amount` on determines that field, every later
/// field, and what follows the transaction.
proof fn lemma_from_amount(
    a: TransactionView,
    after_a: Seq<u8>,
    b: TransactionView,
    after_b: Seq<u8>,
)
    requires
        from_amount(a, after_a) == from_amount(b, after_b),
    ensures
        a.amount == b.amount,
        a.timestamp == b.timestamp,
        a.hash == b.hash,
        a.previous_hash == b.previous_hash,
        a.nonce == b.nonce,
        after_a == after_b,
{
    let rest_a = from_timestamp(a, after_a);
    let rest_b = from_timestamp(b, after_b);
    lemma_same_start(
        encode_utf8(", amount: "@),
        decimal(a.amount) + rest_a,
        decimal(b.amount) + rest_b,
    );
    lemma_fixed_pieces();
    assert(rest_a[0] == encode_utf8(", timestamp: "@)[0]);
    assert(rest_b[0] == encode_utf8(", timestamp: "@)[0]);
    lemma_decimal_delimited(a.amount, rest_a, b.amount, rest_b);
    lemma_from_timestamp(a, after_a, b, after_b);
}

/// The text from the field `seller_address` on determines that field, every later
/// field, and what follows the transaction.
proof fn lemma_from_seller_address(
    a: TransactionView,
    after_a: Seq<u8>,
    b: TransactionView,
    after_b: Seq<u8>,
)
    requires
        from_seller_address(a, after_a) == from_seller_address(b, after_b),
    ensures
        a.seller_address == b.seller_address,
        a.amount == b.amount,
        a.timestamp == b.timestamp,
        a.hash == b.hash,
        a.previous_hash == b.previous_hash,
        a.nonce == b.nonce,
        after_a == after_b,
{
    let rest_a = from_amount(a, after_a);
    let rest_b = from_amount(b, after_b);
    lemma_same_start(
        encode_utf8(", seller_address: "@),
        quoted(encode_utf8(a.seller_address)) + rest_a,
        quoted(encode_utf8(b.seller_address)) + rest_b,
    );
    lemma_quoted_delimited(
        encode_utf8(a.seller_address),
        rest_a,
        encode_utf8(b.seller_address),
        rest_b,
    );
    lemma_utf8_injective(a.seller_address, b.seller_address);
    lemma_from_amount(a, after_a, b, after_b);
}

/// The text from the field `buyer_address` on determines that field, every later
/// field, and what follows the transaction.
proof fn lemma_from_buyer_address(
    a: TransactionView,
    after_a: Seq<u8>,
    b: TransactionView,
    after_b: Seq<u8>,
)
    requires
        from_buyer_address(a, after_a) == from_buyer_address(b, after_b),
    ensures
        a.buyer_address == b.buyer_address,
        a.seller_address == b.seller_address,
        a.amount == b.amount,
        a.timestamp == b.timestamp,
        a.hash == b.hash,
        a.previous_hash == b.previous_hash,
        a.nonce == b.nonce,
        after_a == after_b,
{
    let rest_a = from_seller_address(a, after_a);
    let rest_b = from_seller_address(b, after_b);
    lemma_same_start(
        encode_utf8(", buyer_address: "@),
        quoted(encode_utf8(a.buyer_address)) + rest_a,
        quoted(encode_utf8(b.buyer_address)) + rest_b,
    );
    lemma_quoted_delimited(
        encode_utf8(a.buyer_address),
        rest_a,
        encode_utf8(b.buyer_address),
        rest_b,
    );
    lemma_utf8_injective(a.buyer_address, b.buyer_address);
    lemma_from_seller_address(a, after_a, b, after_b);
}

/// The text from the field `product_id` on determines that field, every later
/// field, and what follows the transaction.
proof fn lemma_from_product_id(
    a: TransactionView,
    after_a: Seq<u8>,
    b: TransactionView,
    after_b: Seq<u8>,
)
    requires
        from_product_id(a, after_a) == from_product_id(b, after_b),
    ensures
        a.product_id == b.product_id,
        a.buyer_address == b.buyer_address,
        a.seller_address == b.seller_address,
        a.amount == b.amount,
        a.timestamp == b.timestamp,
        a.hash == b.hash,
        a.previous_hash == b.previous_hash,
        a.nonce == b.nonce,
        after_a == after_b,
{
    let rest_a = from_buyer_address(a, after_a);
    let rest_b = from_buyer_address(b, after_b);
    lemma_same_start(
        encode_utf8(", product_id: "@),
        quoted(encode_utf8(a.product_id)) + rest_a,
        quoted(encode_utf8(b.product_id)) + rest_b,
    );
    lemma_quoted_delimited(encode_utf8(a.product_id), rest_a, encode_utf8(b.product_id), rest_b);
    lemma_utf8_injective(a.product_id, b.product_id);
    lemma_from_buyer_address(a, after_a, b, after_b);
}

/// The text from the field `id` on determines that field, every later
/// field, and what follows the transaction.
proof fn lemma_from_id(
    a: TransactionView,
    after_a: Seq<u8>,
    b: TransactionView,
    after_b: Seq<u8>,
)
    requires
        from_id(a, after_a) == from_id(b, after_b),
    ensures
        a.id == b.id,
        a.product_id == b.product_id,
        a.buyer_address == b.buyer_address,
        a.seller_address == b.seller_address,
        a.amount == b.amount,
        a.timestamp == b.timestamp,
        a.hash == b.hash,
        a.previous_hash == b.previous_hash,
        a.nonce == b.nonce,
        after_a == after_b,
{
    let rest_a = from_product_id(a, after_a);
    let rest_b = from_product_id(b, after_b);
    lemma_same_start(
        encode_utf8("Transaction { id: "@),
        quoted(encode_utf8(a.id)) + rest_a,
        quoted(encode_utf8(b.id)) + rest_b,
    );
    lemma_quoted_delimited(encode_utf8(a.id), rest_a, encode_utf8(b.id), rest_b);
    lemma_utf8_injective(a.id, b.id);
    lemma_from_product_id(a, after_a, b, after_b);
}

/// A transaction can be read off the front of a text: the transaction and
/// what follows it are both determined.
pub proof fn lemma_transaction_text_delimited(
    a: TransactionView,
    after_a: Seq<u8>,
    b: TransactionView,
    after_b: Seq<u8>,
)
    requires
        transaction_text(a) + after_a == transaction_text(b) + after_b,
    ensures
        a == b,
        after_a == after_b,
{
    lemma_text_from_id(a, after_a);
    lemma_text_from_id(b, after_b);
    lemma_from_id(a, after_a, b, after_b);
}

/// The text of a transaction, followed by `after`, field by field.
proof fn lemma_text_from_id(t: TransactionView, after: Seq<u8>)
    ensures
        transaction_text(t) + after == from_id(t, after),
{
    reveal(transaction_text);
    let label_id = encode_utf8("Transaction { id: "@);
    let field_id = quoted(encode_utf8(t.id));
    let upto_id = label_id + field_id;
    let label_product = encode_utf8(", product_id: "@);
    let field_product = quoted(encode_utf8(t.product_id));
    let upto_product = upto_id + label_product + field_product;
    let label_buyer = encode_utf8(", buyer_address: "@);
    let field_buyer = quoted(encode_utf8(t.buyer_address));
    let upto_buyer = upto_product + label_buyer + field_buyer;
    let label_seller = encode_utf8(", seller_address: "@);
    let field_seller = quoted(encode_utf8(t.seller_address));
    let upto_seller = upto_buyer + label_seller + field_seller;
    let label_amount = encode_utf8(", amount: "@);
    let field_amount = decimal(t.amount);
    let upto_amount = upto_seller + label_amount + field_amount;
    let label_time = encode_utf8(", timestamp: "@);
    let field_time = signed_decimal(t.timestamp);
    let upto_time = upto_amount + label_time + field_time;
    let label_hash = encode_utf8(", hash: "@);
    let field_hash = quoted(encode_utf8(t.hash));
    let upto_hash = upto_time + label_hash + field_hash;
    let label_previous = encode_utf8(", previous_hash: "@);
    let field_previous = quoted(encode_utf8(t.previous_hash));
    let upto_previous = upto_hash + label_previous + field_previous;
    let label_nonce = encode_utf8(", nonce: "@);
    let field_nonce = decimal(t.nonce);
    let upto_nonce = upto_previous + label_nonce + field_nonce;
    let rest_product = from_product_id(t, after);
    let rest_buyer = from_buyer_address(t, after);
    let rest_seller = from_seller_address(t, after);
    let rest_amount = from_amount(t, after);
    let rest_time = from_timestamp(t, after);
    let rest_hash = from_hash(t, after);
    let rest_previous = from_previous_hash(t, after);
    let rest_nonce = from_nonce(t, after);
    let end = encode_utf8(" }"@);
    assert(transaction_text(t) == upto_nonce + end);
    // Move one field after the other from the front part to the back part.
    lemma_regroup(upto_nonce, end, after);
    lemma_regroup(upto_previous + label_nonce, field_nonce, end + after);
    lemma_regroup(upto_previous, label_nonce, field_nonce + (end + after));
    assert(upto_nonce + (end + after) == upto_previous + rest_nonce);
    lemma_regroup(upto_hash + label_previous, field_previous, rest_nonce);
    lemma_regroup(upto_hash, label_previous, field_previous + rest_nonce);
    assert(upto_previous + rest_nonce == upto_hash + rest_previous);
    lemma_regroup(upto_time + label_hash, field_hash, rest_previous);
    lemma_regroup(upto_time, label_hash, field_hash + rest_previous);
    assert(upto_hash + rest_previous == upto_time + rest_hash);
    lemma_regroup(upto_amount + label_time, field_time, rest_hash);
    lemma_regroup(upto_amount, label_time, field_time + rest_hash);
    assert(upto_time + rest_hash == upto_amount + rest_time);
    lemma_regroup(upto_seller + label_amount, field_amount, rest_time);
    lemma_regroup(upto_seller, label_amount, field_amount + rest_time);
    assert(upto_amount + rest_time == upto_seller + rest_amount);
    lemma_regroup(upto_buyer + label_seller, field_seller, rest_amount);
    lemma_regroup(upto_buyer, label_seller, field_seller + rest_amount);
    assert(upto_seller + rest_amount == upto_buyer + rest_seller);
    lemma_regroup(upto_product + label_buyer, field_buyer, rest_seller);
    lemma_regroup(upto_product, label_buyer, field_buyer + rest_seller);
    assert(upto_buyer + rest_seller == upto_product + rest_buyer);
    lemma_regroup(upto_id + label_product, field_product, rest_buyer);
    lemma_regroup(upto_id, label_product, field_product + rest_buyer);
    assert(upto_product + rest_buyer == upto_id + rest_product);
    lemma_regroup(label_id, field_id, rest_product);
}

/// Three texts in a row are the same text however they are grouped.
proof fn lemma_regroup(a: Seq<u8>, b: Seq<u8>, c: Seq<u8>)
    ensures
        (a + b) + c == a + (b + c),
{
    assert((a + b) + c =~= a + (b + c));
}

/// The text of a transaction starts with the letter `T`.
proof fn lemma_transaction_text_starts(t: TransactionView)
    ensures
        transaction_text(t).len() > 0,
        transaction_text(t)[0] == 84,
{
    lemma_fixed_pieces();
    let empty = Seq::<u8>::empty();
    lemma_text_from_id(t, empty);
    assert(transaction_text(t) =~= transaction_text(t) + empty);
    assert(from_id(t, empty)[0] == encode_utf8("Transaction { id: "@)[0]);
}

/// The joined text of two or more transactions is the text of the first, the
/// separator, and the joined text of the others.
proof fn lemma_joined_front(transactions: Seq<TransactionView>)
    requires
        transactions.len() >= 2,
    ensures
        joined_transactions_text(transactions) == transaction_text(transactions[0]) + (encode_utf8(
            ", "@,
        ) + joined_transactions_text(transactions.drop_first())),
    decreases transactions.len(),
{
    let separator = encode_utf8(", "@);
    let front = transactions.drop_last();
    let back = transactions.drop_first();
    if transactions.len() == 2 {
        assert(front[0] == transactions[0]);
        assert(joined_transactions_text(front) == transaction_text(transactions[0]));
        assert(back[0] == transactions.last());
        assert(joined_transactions_text(back) == transaction_text(transactions.last()));
        assert(joined_transactions_text(transactions) =~= transaction_text(transactions[0]) + (
        separator + joined_transactions_text(back)));
    } else {
        lemma_joined_front(front);
        assert(front[0] == transactions[0]);
        assert(front.drop_first() =~= back.drop_last());
        assert(back.last() == transactions.last());
        assert(joined_transactions_text(back) == joined_transactions_text(back.drop_last())
            + separator + transaction_text(transactions.last()));
        assert(joined_transactions_text(transactions) =~= transaction_text(transactions[0]) + (
        separator + joined_transactions_text(back)));
    }
}

/// The joined text of one or more transactions starts with the letter `T`.
proof fn lemma_joined_starts(transactions: Seq<TransactionView>)
    requires
        transactions.len() > 0,
    ensures
        joined_transactions_text(transactions).len() > 0,
        joined_transactions_text(transactions)[0] == 84,
{
    lemma_transaction_text_starts(transactions[0]);
    if transactions.len() >= 2 {
        lemma_joined_front(transactions);
    }
}

/// The joined text of transactions can be read off the front of a text when a
/// closing bracket follows it.
proof fn lemma_joined_delimited(
    a: Seq<TransactionView>,
    after_a: Seq<u8>,
    b: Seq<TransactionView>,
    after_b: Seq<u8>,
)
    requires
        joined_transactions_text(a) + (encode_utf8("]"@) + after_a) == joined_transactions_text(b)
            + (encode_utf8("]"@) + after_b),
    ensures
        a == b,
        after_a == after_b,
    decreases a.len(),
{
    lemma_fixed_pieces();
    let close = encode_utf8("]"@);
    let separator = encode_utf8(", "@);
    let left = joined_transactions_text(a) + (close + after_a);
    let right = joined_transactions_text(b) + (close + after_b);
    if a.len() == 0 {
        assert(left =~= close + after_a);
        if b.len() > 0 {
            lemma_joined_starts(b);
            assert(right[0] == joined_transactions_text(b)[0]);
            assert(left[0] == close[0]);
            assert(false);
        }
        assert(right =~= close + after_b);
        lemma_same_start(close, after_a, after_b);
        assert(a =~= b);
    } else if b.len() == 0 {
        lemma_joined_starts(a);
        assert(right =~= close + after_b);
        assert(left[0] == joined_transactions_text(a)[0]);
        assert(right[0] == close[0]);
        assert(false);
    } else {
        let rest_a = if a.len() == 1 {
            close + after_a
        } else {
            separator + (joined_transactions_text(a.drop_first()) + (close + after_a))
        };
        let rest_b = if b.len() == 1 {
            close + after_b
        } else {
            separator + (joined_transactions_text(b.drop_first()) + (close + after_b))
        };
        if a.len() >= 2 {
            lemma_joined_front(a);
        }
        if b.len() >= 2 {
            lemma_joined_front(b);
        }
        assert(left =~= transaction_text(a[0]) + rest_a);
        assert(right =~= transaction_text(b[0]) + rest_b);
        lemma_transaction_text_delimited(a[0], rest_a, b[0], rest_b);
        if a.len() == 1 {
            if b.len() >= 2 {
                assert(rest_a[0] == close[0]);
                assert(rest_b[0] == separator[0]);
                assert(false);
            }
            lemma_same_start(close, after_a, after_b);
            assert(a =~= b);
        } else {
            if b.len() == 1 {
                assert(rest_a[0] == separator[0]);
                assert(rest_b[0] == close[0]);
                assert(false);
            }
            lemma_same_start(
                separator,
                joined_transactions_text(a.drop_first()) + (close + after_a),
                joined_transactions_text(b.drop_first()) + (close + after_b),
            );
            lemma_joined_delimited(a.drop_first(), after_a, b.drop_first(), after_b);
            assert(a =~= seq![a[0]] + a.drop_first());
            assert(b =~= seq![b[0]] + b.drop_first());
        }
    }
}

/// A list of transactions can be read off the front of a text: the list and
/// what follows it are both determined.
pub proof fn lemma_transactions_text_delimited(
    a: Seq<TransactionView>,
    after_a: Seq<u8>,
    b: Seq<TransactionView>,
    after_b: Seq<u8>,
)
    requires
        transactions_text(a) + after_a == transactions_text(b) + after_b,
    ensures
        a == b,
        after_a == after_b,
{
    let open = encode_utf8("["@);
    let close = encode_utf8("]"@);
    let inner_a = joined_transactions_text(a) + (close + after_a);
    let inner_b = joined_transactions_text(b) + (close + after_b);
    assert(transactions_text(a) + after_a =~= open + inner_a);
    assert(transactions_text(b) + after_b =~= open + inner_b);
    lemma_same_start(open, inner_a, inner_b);
    lemma_joined_delimited(a, after_a, b, after_b);
}

/// Different lists of transactions have different texts: a change to any
/// field of any transaction, to their number or to their order shows.
pub proof fn lemma_transactions_text_injective(a: Seq<TransactionView>, b: Seq<TransactionView>)
    requires
        transactions_text(a) == transactions_text(b),
    ensures
        a == b,
{
    let empty = Seq::<u8>::empty();
    lemma_transactions_text_delimited(a, empty, b, empty);
}

/// The byte that opens the text of a list of transactions.
pub const OPEN_BRACKET: u8 = 91;

/// The text of a list of transactions starts with an opening bracket.
pub proof fn lemma_transactions_text_starts(transactions: Seq<TransactionView>)
    ensures
        transactions_text(transactions).len() > 0,
        transactions_text(transactions)[0] == OPEN_BRACKET,
{
    lemma_fixed_pieces();
    let open = encode_utf8("["@);
    let rest = joined_transactions_text(transactions) + encode_utf8("]"@);
    assert(transactions_text(transactions) =~= open + rest);
}

} // verus!
