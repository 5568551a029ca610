use market_ledger::block::{calculate_hash, has_leading_zeros};
use market_ledger::catalog::{init_products, Product};
use market_ledger::error::PurchaseError;
use market_ledger::ledger::Blockchain;
use market_ledger::purchase::{
    build_transaction, check_purchase, failure_response, purchase_product, purchase_product_at,
    success_message, PurchaseRequest, PurchaseResponse,
};
use market_ledger::transaction::Transaction;

fn course(stock: u32) -> Product {
    Product {
        id: "course".to_string(),
        name: "Blockchain Developer Course".to_string(),
        description: "Complete guide".to_string(),
        price: 50,
        stock,
        image_url: "https://example.org/course.png".to_string(),
    }
}

fn kit(stock: u32) -> Product {
    Product {
        id: "kit".to_string(),
        name: "Web3 Starter Kit".to_string(),
        description: "Toolkit".to_string(),
        price: 150,
        stock,
        image_url: "https://example.org/kit.png".to_string(),
    }
}

fn request(product_id: &str, quantity: u32) -> PurchaseRequest {
    PurchaseRequest {
        product_id: product_id.to_string(),
        buyer_address: "0xbuyer".to_string(),
        quantity,
    }
}

#[test]
fn purchase_scenario_from_seeded_catalog() {
    let mut products = vec![course(100)];
    let mut ledger = Blockchain::new();

    let bought = purchase_product(&mut products, &mut ledger, &request("course", 10)).unwrap();
    assert!(bought.success);
    assert_eq!(products[0].stock, 90);
    assert_eq!(ledger.chain().len(), 2);
    let recorded = &ledger.chain()[1].transactions[0];
    assert_eq!(recorded.amount, 500);
    assert_eq!(recorded.amount as f64 / 100.0, 5.0);

    let refused = purchase_product(&mut products, &mut ledger, &request("course", 1000));
    assert_eq!(refused, Err(PurchaseError::InsufficientStock));
    assert_eq!(refused.unwrap_err().message(), "Insufficient stock");
    assert_eq!(products[0].stock, 90);
    assert_eq!(ledger.chain().len(), 2);

    let unknown = purchase_product(&mut products, &mut ledger, &request("nothing", 1));
    assert_eq!(unknown, Err(PurchaseError::ProductNotFound));
    assert_eq!(unknown.unwrap_err().message(), "Product not found");
    assert_eq!(products[0].stock, 90);
    assert_eq!(ledger.chain().len(), 2);
}

#[test]
fn successful_purchase_records_exactly_one_transaction() {
    let mut products = vec![course(100), kit(30)];
    let mut ledger = Blockchain::with_genesis(1700000000, 2);

    let response = purchase_product_at(
        &mut products,
        &mut ledger,
        &request("kit", 3),
        "tx-1".to_string(),
        1700000001,
        1700000002,
    )
    .unwrap();

    assert_eq!(products, vec![course(100), kit(27)]);
    assert_eq!(ledger.chain().len(), 2);
    assert!(ledger.pending_transactions().is_empty());
    let block = &ledger.chain()[1];
    assert_eq!(block.index, 1);
    assert_eq!(block.timestamp, 1700000002);
    assert_eq!(block.previous_hash, "0");
    assert_eq!(block.transactions.len(), 1);
    let expected_hash = calculate_hash(
        1,
        1700000001,
        &[Transaction {
            id: "tx-1".to_string(),
            product_id: "kit".to_string(),
            buyer_address: "0xbuyer".to_string(),
            seller_address: "0x1234567890abcdef".to_string(),
            amount: 450,
            timestamp: 1700000001,
            hash: String::new(),
            previous_hash: "0".to_string(),
            nonce: 0,
        }],
        "0",
        0,
    );
    assert_eq!(
        block.transactions[0],
        Transaction {
            id: "tx-1".to_string(),
            product_id: "kit".to_string(),
            buyer_address: "0xbuyer".to_string(),
            seller_address: "0x1234567890abcdef".to_string(),
            amount: 450,
            timestamp: 1700000001,
            hash: expected_hash.clone(),
            previous_hash: "0".to_string(),
            nonce: 0,
        }
    );
    assert_eq!(
        response,
        PurchaseResponse {
            success: true,
            transaction_id: "tx-1".to_string(),
            transaction_hash: expected_hash,
            message: "Successfully purchased Web3 Starter Kit x3".to_string(),
        }
    );
    assert!(has_leading_zeros(&block.hash, 2));
    assert_eq!(
        block.hash,
        calculate_hash(1, 1700000002, &block.transactions, "0", block.nonce)
    );
}

#[test]
fn failed_purchase_changes_nothing() {
    let mut products = vec![course(5), kit(30)];
    let mut ledger = Blockchain::with_genesis(1700000000, 1);
    purchase_product_at(&mut products, &mut ledger, &request("kit", 1), "a".to_string(), 1, 2)
        .unwrap();
    let chain_before = ledger.chain().clone();

    let short = purchase_product_at(
        &mut products,
        &mut ledger,
        &request("course", 6),
        "b".to_string(),
        3,
        4,
    );
    assert_eq!(short, Err(PurchaseError::InsufficientStock));
    let missing = purchase_product_at(
        &mut products,
        &mut ledger,
        &request("", 1),
        "c".to_string(),
        5,
        6,
    );
    assert_eq!(missing, Err(PurchaseError::ProductNotFound));

    assert_eq!(products, vec![course(5), kit(29)]);
    assert_eq!(ledger.chain(), &chain_before);
    assert!(ledger.pending_transactions().is_empty());
}

#[test]
fn purchase_of_the_whole_stock_and_of_nothing() {
    let mut products = vec![course(5)];
    let mut ledger = Blockchain::with_genesis(1700000000, 1);
    let all = purchase_product_at(
        &mut products,
        &mut ledger,
        &request("course", 5),
        "a".to_string(),
        1,
        2,
    )
    .unwrap();
    assert_eq!(all.message, "Successfully purchased Blockchain Developer Course x5");
    assert_eq!(products[0].stock, 0);
    let none = purchase_product_at(
        &mut products,
        &mut ledger,
        &request("course", 0),
        "b".to_string(),
        3,
        4,
    )
    .unwrap();
    assert_eq!(none.message, "Successfully purchased Blockchain Developer Course x0");
    assert_eq!(products[0].stock, 0);
    assert_eq!(ledger.chain().len(), 3);
    assert_eq!(ledger.chain()[2].transactions[0].amount, 0);
    assert_eq!(ledger.chain()[2].transactions[0].previous_hash, ledger.chain()[1].hash);
    assert_eq!(ledger.chain()[2].previous_hash, ledger.chain()[1].hash);
}

#[test]
fn purchase_seals_what_was_already_pending() {
    let mut products = vec![course(5)];
    let mut ledger = Blockchain::with_genesis(1700000000, 1);
    let waiting = build_transaction(
        1,
        "0".to_string(),
        "course".to_string(),
        "early".to_string(),
        50,
        "w".to_string(),
        9,
    );
    ledger.add_transaction(waiting.clone());
    purchase_product_at(&mut products, &mut ledger, &request("course", 2), "a".to_string(), 10, 11)
        .unwrap();
    assert_eq!(ledger.chain().len(), 2);
    assert_eq!(ledger.chain()[1].transactions.len(), 2);
    assert_eq!(ledger.chain()[1].transactions[0], waiting);
    assert_eq!(ledger.chain()[1].transactions[1].id, "a");
    assert!(ledger.pending_transactions().is_empty());
    assert_eq!(products[0].stock, 3);
}

#[test]
fn purchases_one_after_the_other_grow_the_chain_in_step() {
    let mut products = init_products();
    let mut ledger = Blockchain::new();
    let ids: Vec<String> = products.iter().map(|p| p.id.clone()).collect();
    let mut transaction_ids: Vec<String> = Vec::new();
    for (round, id) in ids.iter().enumerate() {
        let response = purchase_product(&mut products, &mut ledger, &request(id, 1)).unwrap();
        assert!(response.success);
        assert_eq!(response.transaction_id.chars().count(), 36);
        assert_eq!(ledger.chain().len(), round + 2);
        transaction_ids.push(response.transaction_id);
    }
    let chain = ledger.chain();
    assert_eq!(chain.len(), 7);
    for i in 0..chain.len() {
        assert_eq!(chain[i].index, i as u64);
        for j in 0..i {
            assert_ne!(chain[i].hash, chain[j].hash);
        }
    }
    let listed = ledger.get_transactions();
    let listed_ids: Vec<String> = listed.iter().map(|t| t.id.clone()).collect();
    assert_eq!(listed_ids, transaction_ids);
    let stocks: Vec<u32> = products.iter().map(|p| p.stock).collect();
    assert_eq!(stocks, vec![99, 49, 74, 29, 199, 24]);
}

#[test]
fn transaction_hash_uses_the_chain_length_as_index() {
    let built = build_transaction(
        1,
        "0".to_string(),
        "widget".to_string(),
        "buyer".to_string(),
        500,
        "t1".to_string(),
        1700000000,
    );
    assert_eq!(
        built,
        Transaction {
            id: "t1".to_string(),
            product_id: "widget".to_string(),
            buyer_address: "buyer".to_string(),
            seller_address: "0x1234567890abcdef".to_string(),
            amount: 500,
            timestamp: 1700000000,
            hash: "de5458410098a57d1585d48f8ff55bfd9c817df37ff909c4ba624da9d155b462"
                .to_string(),
            previous_hash: "0".to_string(),
            nonce: 0,
        }
    );
    let elsewhere = build_transaction(
        2,
        "0".to_string(),
        "widget".to_string(),
        "buyer".to_string(),
        500,
        "t1".to_string(),
        1700000000,
    );
    assert_ne!(built.hash, elsewhere.hash);
}

#[test]
fn amount_is_price_times_quantity_without_overflow() {
    let mut products = vec![Product { price: u64::MAX, stock: u32::MAX, ..course(0) }];
    let mut ledger = Blockchain::with_genesis(0, 0);
    purchase_product_at(
        &mut products,
        &mut ledger,
        &request("course", u32::MAX),
        "big".to_string(),
        1,
        2,
    )
    .unwrap();
    assert_eq!(
        ledger.chain()[1].transactions[0].amount,
        (u64::MAX as u128) * (u32::MAX as u128)
    );
    assert_eq!(products[0].stock, 0);
}

#[test]
fn failure_response_carries_only_the_message() {
    assert_eq!(
        failure_response(PurchaseError::InsufficientStock),
        PurchaseResponse {
            success: false,
            transaction_id: String::new(),
            transaction_hash: String::new(),
            message: "Insufficient stock".to_string(),
        }
    );
    assert_eq!(
        failure_response(PurchaseError::ProductNotFound),
        PurchaseResponse {
            success: false,
            transaction_id: String::new(),
            transaction_hash: String::new(),
            message: "Product not found".to_string(),
        }
    );
    assert_eq!(failure_response(PurchaseError::MiningFailed).message, "Mining failed");
    assert_eq!(PurchaseError::MiningFailed.message(), "Mining failed");
}

#[test]
fn success_message_names_product_and_quantity() {
    assert_eq!(success_message("NFT Art Collection", 12), "Successfully purchased NFT Art Collection x12");
    assert_eq!(success_message("", 0), "Successfully purchased  x0");
    assert_eq!(success_message("a", u32::MAX), "Successfully purchased a x4294967295");
}

#[test]
fn check_finds_the_product_or_the_reason() {
    let products = vec![course(5), kit(0), course(50)];
    assert_eq!(check_purchase(&products, &request("course", 5)), Ok(0));
    assert_eq!(check_purchase(&products, &request("course", 0)), Ok(0));
    assert_eq!(
        check_purchase(&products, &request("course", 6)),
        Err(PurchaseError::InsufficientStock)
    );
    assert_eq!(check_purchase(&products, &request("kit", 0)), Ok(1));
    assert_eq!(
        check_purchase(&products, &request("kit", 1)),
        Err(PurchaseError::InsufficientStock)
    );
    assert_eq!(
        check_purchase(&products, &request("Course", 1)),
        Err(PurchaseError::ProductNotFound)
    );
    assert_eq!(
        check_purchase(&Vec::new(), &request("course", 1)),
        Err(PurchaseError::ProductNotFound)
    );
}

#[test]
fn purchase_with_the_first_of_two_products_of_one_name() {
    let mut products = vec![course(1), course(9)];
    let mut ledger = Blockchain::with_genesis(0, 1);
    let refused = purchase_product_at(
        &mut products,
        &mut ledger,
        &request("course", 2),
        "a".to_string(),
        1,
        2,
    );
    assert_eq!(refused, Err(PurchaseError::InsufficientStock));
    purchase_product_at(&mut products, &mut ledger, &request("course", 1), "b".to_string(), 3, 4)
        .unwrap();
    assert_eq!(products, vec![course(0), course(9)]);
}

#[test]
fn purchase_without_a_winning_nonce_leaves_the_transaction_pending() {
    let mut products = vec![course(5)];
    let mut ledger = Blockchain::with_genesis(1700000000, 65);
    let outcome = purchase_product_at(
        &mut products,
        &mut ledger,
        &request("course", 2),
        "tx-1".to_string(),
        1700000001,
        1700000002,
    );
    assert_eq!(outcome, Err(PurchaseError::MiningFailed));
    assert_eq!(products, vec![course(5)]);
    assert_eq!(ledger.chain().len(), 1);
    assert_eq!(ledger.pending_transactions().len(), 1);
    let waiting = &ledger.pending_transactions()[0];
    assert_eq!(waiting.id, "tx-1");
    assert_eq!(waiting.product_id, "course");
    assert_eq!(waiting.buyer_address, "0xbuyer");
    assert_eq!(waiting.amount, 100);
    assert_eq!(
        waiting,
        &build_transaction(
            1,
            "0".to_string(),
            "course".to_string(),
            "0xbuyer".to_string(),
            100,
            "tx-1".to_string(),
            1700000001,
        )
    );

    let by_clock = purchase_product(&mut products, &mut ledger, &request("course", 1));
    assert_eq!(by_clock, Err(PurchaseError::MiningFailed));
    assert_eq!(ledger.pending_transactions().len(), 2);
    assert_eq!(products[0].stock, 5);
}
