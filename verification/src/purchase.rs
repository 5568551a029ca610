//! A purchase: look the product up, record the sale in a new block, and take
//! the items out of the stock.

use crate::ambient::{fresh_identifier, unix_time};
use crate::block::{block_digest, calculate_hash};
use crate::canonical::{append_decimal, decimal_text};
use crate::catalog::{
    decrement_stock, find_product, lemma_position_of, position_of, product_views, Product,
    ProductView,
};
use crate::error::{error_message, PurchaseError};
use crate::ledger::{is_mined, no_winning_nonce, Blockchain, BlockchainView};
use crate::transaction::{Transaction, TransactionView};
use vstd::prelude::*;
use vstd::string::StringExecFns;

verus! {

/// What a buyer asks for.
#[derive(Debug, PartialEq, Eq)]
pub struct PurchaseRequest {
    pub product_id: String,
    pub buyer_address: String,
    pub quantity: u32,
}

/// What a purchase request holds, as mathematical values.
pub ghost struct PurchaseRequestView {
    pub product_id: Seq<char>,
    pub buyer_address: Seq<char>,
    pub quantity: nat,
}

impl View for PurchaseRequest {
    type V = PurchaseRequestView;

    open spec fn view(&self) -> PurchaseRequestView {
        PurchaseRequestView {
            product_id: self.product_id@,
            buyer_address: self.buyer_address@,
            quantity: self.quantity as nat,
        }
    }
}

/// What a buyer is told.
#[derive(Debug, PartialEq, Eq)]
pub struct PurchaseResponse {
    pub success: bool,
    pub transaction_id: String,
    pub transaction_hash: String,
    pub message: String,
}

/// What a purchase response holds, as mathematical values.
pub ghost struct PurchaseResponseView {
    pub success: bool,
    pub transaction_id: Seq<char>,
    pub transaction_hash: Seq<char>,
    pub message: Seq<char>,
}

impl View for PurchaseResponse {
    type V = PurchaseResponseView;

    open spec fn view(&self) -> PurchaseResponseView {
        PurchaseResponseView {
            success: self.success,
            transaction_id: self.transaction_id@,
            transaction_hash: self.transaction_hash@,
            message: self.message@,
        }
    }
}

/// The address every sale is credited to.
pub open spec fn store_address() -> Seq<char> {
    "0x1234567890abcdef"@
}

/// The hash of a transaction that does not carry one yet, made while the
/// chain holds `position` blocks.
///
/// It is the block hash of the transaction alone, at the transaction's own
/// timestamp and previous hash and at nonce 0, with the length of the chain
/// in the place of the index.
pub open spec fn transaction_digest(position: nat, unsigned: TransactionView) -> Seq<char> {
    block_digest(position, unsigned.timestamp, seq![unsigned], unsigned.previous_hash, 0)
}

/// The transaction that records a purchase.
pub open spec fn purchase_transaction(
    position: nat,
    previous_hash: Seq<char>,
    product_id: Seq<char>,
    buyer_address: Seq<char>,
    amount: nat,
    id: Seq<char>,
    timestamp: int,
) -> TransactionView {
    let unsigned = TransactionView {
        id,
        product_id,
        buyer_address,
        seller_address: store_address(),
        amount,
        timestamp,
        hash: Seq::<char>::empty(),
        previous_hash,
        nonce: 0,
    };
    TransactionView { hash: transaction_digest(position, unsigned), ..unsigned }
}

/// The sentence that confirms a purchase of `quantity` items of the product
/// called `name`.
pub open spec fn success_message_text(name: Seq<char>, quantity: nat) -> Seq<char> {
    "Successfully purchased "@ + name + " x"@ + decimal_text(quantity)
}

/// What the check of a request against the catalog must find: the position
/// of the product when it is there with enough stock, and otherwise why the
/// purchase is turned down.
pub open spec fn purchase_check(products: Seq<ProductView>, request: PurchaseRequestView) -> Result<
    int,
    PurchaseError,
> {
    match position_of(products, request.product_id) {
        None => Err(PurchaseError::ProductNotFound),
        Some(i) => if products[i].stock < request.quantity {
            Err(PurchaseError::InsufficientStock)
        } else {
            Ok(i)
        },
    }
}

/// What a purchase does, from the catalog and the ledger before it to the
/// catalog, the ledger and the answer after it.
///
/// `id` and `timestamp` go into the transaction, `block_timestamp` into the
/// block. A request that fails the check changes nothing. Otherwise the
/// transaction joins the pending pool; if a nonce wins, the pool is sealed
/// into a new block and the stock goes down, and if none does, the
/// transaction stays in the pool and the stock stays as it was.
pub open spec fn purchase_settled(
    products: Seq<ProductView>,
    ledger: BlockchainView,
    request: PurchaseRequestView,
    id: Seq<char>,
    timestamp: int,
    block_timestamp: int,
    new_products: Seq<ProductView>,
    new_ledger: BlockchainView,
    outcome: Result<PurchaseResponse, PurchaseError>,
) -> bool {
    match purchase_check(products, request) {
        Err(error) => {
            &&& outcome == Err::<PurchaseResponse, PurchaseError>(error)
            &&& new_products == products
            &&& new_ledger == ledger
        },
        Ok(i) => {
            let transaction = purchase_transaction(
                ledger.chain.len(),
                ledger.chain.last().hash,
                request.product_id,
                request.buyer_address,
                products[i].price * request.quantity,
                id,
                timestamp,
            );
            let pending = ledger.pending_transactions.push(transaction);
            if no_winning_nonce(
                ledger.chain.len(),
                block_timestamp,
                pending,
                ledger.chain.last().hash,
                ledger.difficulty,
            ) {
                &&& outcome matches Err(PurchaseError::MiningFailed)
                &&& new_products == products
                &&& new_ledger == (BlockchainView { pending_transactions: pending, ..ledger })
            } else {
                &&& outcome matches Ok(response) && response@ == (PurchaseResponseView {
                    success: true,
                    transaction_id: id,
                    transaction_hash: transaction.hash,
                    message: success_message_text(products[i].name, request.quantity),
                })
                &&& new_products == products.update(
                    i,
                    ProductView {
                        stock: (products[i].stock - request.quantity) as nat,
                        ..products[i]
                    },
                )
                &&& new_ledger.chain == ledger.chain.push(new_ledger.chain.last())
                &&& is_mined(
                    new_ledger.chain.last(),
                    ledger.chain.len(),
                    block_timestamp,
                    pending,
                    ledger.chain.last().hash,
                    ledger.difficulty,
                )
                &&& new_ledger.pending_transactions == Seq::<TransactionView>::empty()
                &&& new_ledger.difficulty == ledger.difficulty
            }
        },
    }
}

/// The answer that tells a buyer of `error`: no success, no transaction, and
/// the error's sentence.
pub fn failure_response(error: PurchaseError) -> (response: PurchaseResponse)
    ensures
        response@ == (PurchaseResponseView {
            success: false,
            transaction_id: Seq::<char>::empty(),
            transaction_hash: Seq::<char>::empty(),
            message: error_message(error),
        }),
{
    PurchaseResponse {
        success: false,
        transaction_id: String::new(),
        transaction_hash: String::new(),
        message: error.message(),
    }
}

/// The sentence that confirms a purchase of `quantity` items of the product
/// called `name`.
pub fn success_message(name: &str, quantity: u32) -> (message: String)
    ensures
        message@ == success_message_text(name@, quantity as nat),
{
    let mut message: String = "Successfully purchased ".to_owned();
    message.append(name);
    message.append(" x");
    append_decimal(&mut message, quantity as u64);
    message
}

/// Builds the transaction that records a purchase and gives it its hash.
///
/// `position` is the number of blocks in the chain at this moment.
pub fn build_transaction(
    position: u64,
    previous_hash: String,
    product_id: String,
    buyer_address: String,
    amount: u128,
    id: String,
    timestamp: i64,
) -> (transaction: Transaction)
    ensures
        transaction@ == purchase_transaction(
            position as nat,
            previous_hash@,
            product_id@,
            buyer_address@,
            amount as nat,
            id@,
            timestamp as int,
        ),
{
    let mut transaction = Transaction {
        id,
        product_id,
        buyer_address,
        seller_address: "0x1234567890abcdef".to_owned(),
        amount,
        timestamp,
        hash: String::new(),
        previous_hash,
        nonce: 0,
    };
    let mut alone: Vec<Transaction> = Vec::new();
    alone.push(transaction.clone());
    assert(alone@.map_values(|t: Transaction| t@) =~= seq![transaction@]);
    let hash = calculate_hash(
        position,
        timestamp,
        alone.as_slice(),
        transaction.previous_hash.as_str(),
        0,
    );
    transaction.hash = hash;
    transaction
}

/// Checks a request against the catalog, without changing anything: the
/// product must be there, and enough of it must be left.
pub fn check_purchase(products: &Vec<Product>, request: &PurchaseRequest) -> (checked: Result<
    usize,
    PurchaseError,
>)
    ensures
        match checked {
            Ok(i) => purchase_check(product_views(products@), request@) == Ok::<
                int,
                PurchaseError,
            >(i as int) && i < products@.len(),
            Err(error) => purchase_check(product_views(products@), request@) == Err::<
                int,
                PurchaseError,
            >(error),
        },
{
    match find_product(products, &request.product_id) {
        None => Err(PurchaseError::ProductNotFound),
        Some(index) => {
            if products[index].stock < request.quantity {
                Err(PurchaseError::InsufficientStock)
            } else {
                Ok(index)
            }
        },
    }
}

/// Carries out a purchase that `check_purchase` has let through: records the
/// sale in a new block and takes the items out of the stock.
fn settle_purchase(
    products: &mut Vec<Product>,
    blockchain: &mut Blockchain,
    request: &PurchaseRequest,
    index: usize,
    transaction_id: String,
    timestamp: i64,
    block_timestamp: i64,
) -> (outcome: Result<PurchaseResponse, PurchaseError>)
    requires
        old(blockchain).wf(),
        purchase_check(product_views(old(products)@), request@) == Ok::<int, PurchaseError>(
            index as int,
        ),
        index < old(products)@.len(),
    ensures
        final(blockchain).wf(),
        purchase_settled(
            product_views(old(products)@),
            old(blockchain)@,
            request@,
            transaction_id@,
            timestamp as int,
            block_timestamp as int,
            product_views(final(products)@),
            final(blockchain)@,
            outcome,
        ),
{
    let price: u64 = products[index].price;
    let quantity: u32 = request.quantity;
    assert(price * quantity <= u128::MAX) by (nonlinear_arith)
        requires
            price <= u64::MAX,
            quantity <= u32::MAX,
    ;
    let amount: u128 = (price as u128) * (quantity as u128);
    let previous_hash = blockchain.get_latest_block().hash.clone();
    let position: u64 = blockchain.chain().len() as u64;
    let transaction = build_transaction(
        position,
        previous_hash,
        request.product_id.clone(),
        request.buyer_address.clone(),
        amount,
        transaction_id,
        timestamp,
    );
    let transaction_id = transaction.id.clone();
    let transaction_hash = transaction.hash.clone();
    blockchain.add_transaction(transaction);
    match blockchain.mine_pending_transactions_at(block_timestamp) {
        None => Err(PurchaseError::MiningFailed),
        Some(_) => {
            let message = success_message(products[index].name.as_str(), quantity);
            match decrement_stock(&mut products[index], quantity) {
                Err(error) => Err(error),
                Ok(_) => {
                    proof {
                        let before = product_views(old(products)@);
                        assert(product_views(products@) =~= before.update(
                            index as int,
                            ProductView {
                                stock: (before[index as int].stock - quantity) as nat,
                                ..before[index as int]
                            },
                        ));
                    }
                    Ok(
                        PurchaseResponse {
                            success: true,
                            transaction_id,
                            transaction_hash,
                            message,
                        },
                    )
                },
            }
        },
    }
}

/// Buys `request.quantity` items of the product `request.product_id`, with
/// the identifier and the two timestamps given.
pub fn purchase_product_at(
    products: &mut Vec<Product>,
    blockchain: &mut Blockchain,
    request: &PurchaseRequest,
    transaction_id: String,
    timestamp: i64,
    block_timestamp: i64,
) -> (outcome: Result<PurchaseResponse, PurchaseError>)
    requires
        old(blockchain).wf(),
    ensures
        final(blockchain).wf(),
        purchase_settled(
            product_views(old(products)@),
            old(blockchain)@,
            request@,
            transaction_id@,
            timestamp as int,
            block_timestamp as int,
            product_views(final(products)@),
            final(blockchain)@,
            outcome,
        ),
{
    match check_purchase(products, request) {
        Err(error) => Err(error),
        Ok(index) => settle_purchase(
            products,
            blockchain,
            request,
            index,
            transaction_id,
            timestamp,
            block_timestamp,
        ),
    }
}

/// Buys `request.quantity` items of the product `request.product_id`.
///
/// Once the request has passed the check, the transaction gets a fresh
/// identifier and the clock's time, and the block the clock's time a moment
/// later.
pub fn purchase_product(
    products: &mut Vec<Product>,
    blockchain: &mut Blockchain,
    request: &PurchaseRequest,
) -> (outcome: Result<PurchaseResponse, PurchaseError>)
    requires
        old(blockchain).wf(),
    ensures
        final(blockchain).wf(),
        exists|id: Seq<char>, timestamp: int, block_timestamp: int| #[trigger]
            purchase_settled(
                product_views(old(products)@),
                old(blockchain)@,
                request@,
                id,
                timestamp,
                block_timestamp,
                product_views(final(products)@),
                final(blockchain)@,
                outcome,
            ),
        outcome matches Ok(response) ==> response@.transaction_id.len() == 36,
{
    match check_purchase(products, request) {
        Err(error) => {
            assert(purchase_settled(
                product_views(old(products)@),
                old(blockchain)@,
                request@,
                Seq::<char>::empty(),
                0,
                0,
                product_views(products@),
                blockchain@,
                Err::<PurchaseResponse, PurchaseError>(error),
            ));
            Err(error)
        },
        Ok(index) => {
            let transaction_id = fresh_identifier();
            let timestamp: i64 = unix_time();
            let block_timestamp: i64 = unix_time();
            let ghost id = transaction_id@;
            let outcome = settle_purchase(
                products,
                blockchain,
                request,
                index,
                transaction_id,
                timestamp,
                block_timestamp,
            );
            assert(purchase_settled(
                product_views(old(products)@),
                old(blockchain)@,
                request@,
                id,
                timestamp as int,
                block_timestamp as int,
                product_views(products@),
                blockchain@,
                outcome,
            ));
            outcome
        },
    }
}

/// A purchase that succeeds takes exactly the quantity out of the stock of
/// the product bought, leaves every other product alone, and adds exactly one
/// block to the chain. That block holds what was pending before and, last,
/// one new transaction for the product, the buyer and the amount.
pub proof fn lemma_successful_purchase(
    products: Seq<ProductView>,
    ledger: BlockchainView,
    request: PurchaseRequestView,
    id: Seq<char>,
    timestamp: int,
    block_timestamp: int,
    new_products: Seq<ProductView>,
    new_ledger: BlockchainView,
    outcome: Result<PurchaseResponse, PurchaseError>,
)
    requires
        purchase_settled(
            products,
            ledger,
            request,
            id,
            timestamp,
            block_timestamp,
            new_products,
            new_ledger,
            outcome,
        ),
        outcome is Ok,
    ensures
        position_of(products, request.product_id) is Some,
        ({
            let i = position_of(products, request.product_id)->0;
            &&& 0 <= i < products.len()
            &&& new_products.len() == products.len()
            &&& products[i].id == request.product_id
            &&& products[i].stock >= request.quantity
            &&& new_products[i].stock == products[i].stock - request.quantity
            &&& forall|k: int| 0 <= k < products.len() && k != i ==> new_products[k] == products[k]
            &&& new_ledger.chain.len() == ledger.chain.len() + 1
            &&& forall|k: int|
                0 <= k < ledger.chain.len() ==> new_ledger.chain[k] == ledger.chain[k]
            &&& new_ledger.chain.last().transactions.len() == ledger.pending_transactions.len()
                + 1
            &&& new_ledger.chain.last().transactions.drop_last() == ledger.pending_transactions
            &&& new_ledger.chain.last().transactions.last().id == id
            &&& new_ledger.chain.last().transactions.last().product_id == request.product_id
            &&& new_ledger.chain.last().transactions.last().buyer_address
                == request.buyer_address
            &&& new_ledger.chain.last().transactions.last().amount == products[i].price
                * request.quantity
            &&& new_ledger.pending_transactions.len() == 0
        }),
{
    lemma_position_of(products, request.product_id);
    let i = position_of(products, request.product_id)->0;
    let block = new_ledger.chain.last();
    assert(new_ledger.chain == ledger.chain.push(block));
    assert(block.transactions.drop_last() =~= ledger.pending_transactions);
}

/// A purchase that is turned down for an unknown product or for want of
/// stock changes neither the catalog nor the ledger.
pub proof fn lemma_refused_purchase(
    products: Seq<ProductView>,
    ledger: BlockchainView,
    request: PurchaseRequestView,
    id: Seq<char>,
    timestamp: int,
    block_timestamp: int,
    new_products: Seq<ProductView>,
    new_ledger: BlockchainView,
    outcome: Result<PurchaseResponse, PurchaseError>,
)
    requires
        purchase_settled(
            products,
            ledger,
            request,
            id,
            timestamp,
            block_timestamp,
            new_products,
            new_ledger,
            outcome,
        ),
        outcome matches Err(error) && error != PurchaseError::MiningFailed,
    ensures
        new_products == products,
        new_ledger == ledger,
{
}

} // verus!
