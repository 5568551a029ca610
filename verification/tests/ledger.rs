use market_ledger::block::{calculate_hash, has_leading_zeros, Block};
use market_ledger::block::HASH_LENGTH;
use market_ledger::ledger::{find_nonce, get_blockchain, Blockchain, DEFAULT_DIFFICULTY};
use market_ledger::transaction::Transaction;

fn signed_transaction(id: &str) -> Transaction {
    Transaction {
        id: id.to_string(),
        product_id: "widget".to_string(),
        buyer_address: "buyer".to_string(),
        seller_address: "0x1234567890abcdef".to_string(),
        amount: 500,
        timestamp: 1700000000,
        hash: "de5458410098a57d1585d48f8ff55bfd9c817df37ff909c4ba624da9d155b462".to_string(),
        previous_hash: "0".to_string(),
        nonce: 0,
    }
}

fn assert_chain_is_linked(ledger: &Blockchain) {
    let chain = ledger.chain();
    assert!(!chain.is_empty());
    assert_eq!(chain[0].index, 0);
    assert_eq!(chain[0].hash, "0");
    for i in 1..chain.len() {
        let block = &chain[i];
        assert_eq!(block.index, i as u64);
        assert_eq!(block.previous_hash, chain[i - 1].hash);
        let recomputed = calculate_hash(
            block.index,
            block.timestamp,
            &block.transactions,
            &block.previous_hash,
            block.nonce,
        );
        assert_eq!(block.hash, recomputed);
        assert!(has_leading_zeros(&block.hash, ledger.difficulty()));
    }
}

#[test]
fn new_ledger_holds_only_a_genesis_block() {
    let ledger = Blockchain::new();
    assert_eq!(ledger.chain().len(), 1);
    assert!(ledger.pending_transactions().is_empty());
    assert_eq!(ledger.difficulty(), 2);
    assert_eq!(DEFAULT_DIFFICULTY, 2);
    let genesis = &ledger.chain()[0];
    assert_eq!(genesis.index, 0);
    assert!(genesis.transactions.is_empty());
    assert_eq!(genesis.previous_hash, "0");
    assert_eq!(genesis.hash, "0");
    assert_eq!(genesis.nonce, 0);
}

#[test]
fn ledger_with_genesis_keeps_timestamp_and_difficulty() {
    let ledger = Blockchain::with_genesis(1700000000, 3);
    assert_eq!(ledger.difficulty(), 3);
    assert!(ledger.pending_transactions().is_empty());
    assert_eq!(
        ledger.chain(),
        &vec![Block {
            index: 0,
            timestamp: 1700000000,
            transactions: Vec::new(),
            previous_hash: "0".to_string(),
            hash: "0".to_string(),
            nonce: 0,
        }]
    );
}

#[test]
fn genesis_block_is_fixed_but_for_its_timestamp() {
    assert_eq!(
        Blockchain::create_genesis_block(-5),
        Block {
            index: 0,
            timestamp: -5,
            transactions: Vec::new(),
            previous_hash: "0".to_string(),
            hash: "0".to_string(),
            nonce: 0,
        }
    );
}

#[test]
fn latest_block_is_the_last_of_the_chain() {
    let mut ledger = Blockchain::with_genesis(1700000000, 1);
    assert_eq!(ledger.get_latest_block().index, 0);
    ledger.add_transaction(signed_transaction("t1"));
    let mined = ledger.mine_pending_transactions_at(1700000005).unwrap();
    assert_eq!(ledger.get_latest_block(), &mined);
    assert_eq!(ledger.get_latest_block().index, 1);
}

#[test]
fn ledger_hash_is_the_block_hash() {
    let transactions = vec![signed_transaction("t1")];
    assert_eq!(
        Blockchain::calculate_hash(4, 12, &transactions, "00aa", 3),
        calculate_hash(4, 12, &transactions, "00aa", 3)
    );
    assert_eq!(
        Blockchain::calculate_hash(0, 0, &[], "", 0),
        "66c1f978d80ce2da318e5c65283d0668fd5dfe593644ae9fd7496bd2f91be72b"
    );
}

#[test]
fn added_transactions_wait_in_order() {
    let mut ledger = Blockchain::with_genesis(1700000000, 2);
    ledger.add_transaction(signed_transaction("t1"));
    ledger.add_transaction(signed_transaction("t2"));
    assert_eq!(
        ledger.pending_transactions(),
        &vec![signed_transaction("t1"), signed_transaction("t2")]
    );
    assert_eq!(ledger.chain().len(), 1);
}

#[test]
fn search_returns_the_first_winning_nonce() {
    let transactions = vec![signed_transaction("t1")];
    let (nonce, hash) = find_nonce(1, 1700000005, &transactions, "0", 2).unwrap();
    assert_eq!(nonce, 141);
    assert_eq!(hash, "009cfe146e8a94513d6bde7a66a34f4bfa98380f91ccb5e03c2eaa94c5932642");
    for smaller in 0..nonce {
        let other = calculate_hash(1, 1700000005, &transactions, "0", smaller);
        assert!(!has_leading_zeros(&other, 2));
    }
    let (nonce, hash) = find_nonce(1, 1700000005, &transactions, "0", 1).unwrap();
    assert_eq!(nonce, 9);
    assert_eq!(hash, "01f40a76fbae76551f92a4e322b6e1349ea1824ce5fee4a36ce29094f185b03a");
}

#[test]
fn search_at_difficulty_zero_stops_at_nonce_zero() {
    let transactions = vec![signed_transaction("t1")];
    let (nonce, hash) = find_nonce(1, 1700000005, &transactions, "0", 0).unwrap();
    assert_eq!(nonce, 0);
    assert_eq!(hash, "4437a272fa3fd051d642fa21fa2e464fe4a9b31b3aa610e3851bc8137a5920ac");
}

#[test]
fn mined_block_holds_what_it_was_given() {
    let ledger = Blockchain::with_genesis(1700000000, 2);
    let block = ledger
        .mine_block_at(vec![signed_transaction("t1")], "0".to_string(), 1700000005)
        .unwrap();
    assert_eq!(
        block,
        Block {
            index: 1,
            timestamp: 1700000005,
            transactions: vec![signed_transaction("t1")],
            previous_hash: "0".to_string(),
            hash: "009cfe146e8a94513d6bde7a66a34f4bfa98380f91ccb5e03c2eaa94c5932642"
                .to_string(),
            nonce: 141,
        }
    );
    assert_eq!(ledger.chain().len(), 1);
}

#[test]
fn mining_the_same_fields_twice_gives_the_same_block() {
    let ledger = Blockchain::with_genesis(1700000000, 2);
    let first = ledger.mine_block_at(vec![signed_transaction("t1")], "0".to_string(), 77);
    let second = ledger.mine_block_at(vec![signed_transaction("t1")], "0".to_string(), 77);
    assert!(first.is_some());
    assert_eq!(first, second);
}

#[test]
fn mined_block_by_the_clock_is_sealed() {
    let ledger = Blockchain::new();
    let block = ledger.mine_block(vec![signed_transaction("t1")], "0".to_string()).unwrap();
    assert_eq!(block.index, 1);
    assert_eq!(block.transactions, vec![signed_transaction("t1")]);
    assert_eq!(block.previous_hash, "0");
    assert!(has_leading_zeros(&block.hash, 2));
    assert_eq!(
        block.hash,
        calculate_hash(1, block.timestamp, &block.transactions, "0", block.nonce)
    );
    for smaller in 0..block.nonce {
        let other = calculate_hash(1, block.timestamp, &block.transactions, "0", smaller);
        assert!(!has_leading_zeros(&other, 2));
    }
}

#[test]
fn nothing_pending_means_nothing_mined() {
    let mut ledger = Blockchain::with_genesis(1700000000, 2);
    assert_eq!(ledger.mine_pending_transactions_at(1700000005), None);
    assert_eq!(ledger.mine_pending_transactions(), None);
    assert_eq!(ledger.chain().len(), 1);
    assert!(ledger.pending_transactions().is_empty());
}

#[test]
fn pending_transactions_are_sealed_into_one_block() {
    let mut ledger = Blockchain::with_genesis(1700000000, 2);
    ledger.add_transaction(signed_transaction("t1"));
    ledger.add_transaction(signed_transaction("t2"));
    let mined = ledger.mine_pending_transactions_at(1700000005).unwrap();
    assert_eq!(mined.index, 1);
    assert_eq!(mined.timestamp, 1700000005);
    assert_eq!(mined.previous_hash, "0");
    assert_eq!(mined.transactions, vec![signed_transaction("t1"), signed_transaction("t2")]);
    assert!(ledger.pending_transactions().is_empty());
    assert_eq!(ledger.chain().len(), 2);
    assert_eq!(ledger.chain()[1], mined);
    assert_chain_is_linked(&ledger);
}

#[test]
fn pending_transactions_are_sealed_by_the_clock() {
    let mut ledger = Blockchain::new();
    ledger.add_transaction(signed_transaction("t1"));
    let mined = ledger.mine_pending_transactions().unwrap();
    assert_eq!(ledger.chain().len(), 2);
    assert_eq!(ledger.chain()[1], mined);
    assert!(ledger.pending_transactions().is_empty());
    assert_chain_is_linked(&ledger);
}

#[test]
fn every_block_names_the_hash_before_it() {
    let mut ledger = Blockchain::with_genesis(1700000000, 2);
    for round in 0..5 {
        ledger.add_transaction(signed_transaction(&format!("t{}", round)));
        if round % 2 == 0 {
            ledger.add_transaction(signed_transaction(&format!("u{}", round)));
        }
        assert!(ledger.mine_pending_transactions_at(1700000000 + round).is_some());
    }
    assert_eq!(ledger.chain().len(), 6);
    assert_chain_is_linked(&ledger);
}

#[test]
fn chain_grows_by_one_block_at_a_time_without_repeating_a_hash() {
    let mut ledger = Blockchain::with_genesis(1700000000, 1);
    for round in 0..8 {
        ledger.add_transaction(signed_transaction("same"));
        assert!(ledger.mine_pending_transactions_at(1700000000).is_some());
        assert_eq!(ledger.chain().len(), round + 2);
    }
    let chain = ledger.chain();
    for i in 0..chain.len() {
        assert_eq!(chain[i].index, i as u64);
        for j in 0..i {
            assert_ne!(chain[i].hash, chain[j].hash);
        }
    }
}

#[test]
fn transactions_are_listed_block_by_block() {
    let mut ledger = Blockchain::with_genesis(1700000000, 1);
    assert!(ledger.get_transactions().is_empty());
    ledger.add_transaction(signed_transaction("a"));
    ledger.add_transaction(signed_transaction("b"));
    ledger.mine_pending_transactions_at(1).unwrap();
    ledger.add_transaction(signed_transaction("c"));
    ledger.mine_pending_transactions_at(2).unwrap();
    ledger.add_transaction(signed_transaction("d"));
    ledger.add_transaction(signed_transaction("e"));
    ledger.add_transaction(signed_transaction("f"));
    ledger.mine_pending_transactions_at(3).unwrap();
    ledger.add_transaction(signed_transaction("still pending"));

    let listed = ledger.get_transactions();
    let ids: Vec<&str> = listed.iter().map(|t| t.id.as_str()).collect();
    assert_eq!(ids, vec!["a", "b", "c", "d", "e", "f"]);
    let total: usize = ledger.chain().iter().map(|b| b.transactions.len()).sum();
    assert_eq!(listed.len(), total);
}

#[test]
fn snapshot_of_the_ledger_holds_what_the_ledger_holds() {
    let mut ledger = Blockchain::with_genesis(1700000000, 1);
    ledger.add_transaction(signed_transaction("a"));
    ledger.mine_pending_transactions_at(1).unwrap();
    ledger.add_transaction(signed_transaction("b"));

    let snapshot = get_blockchain(&ledger);
    assert_eq!(snapshot.chain(), ledger.chain());
    assert_eq!(snapshot.pending_transactions(), ledger.pending_transactions());
    assert_eq!(snapshot.difficulty(), ledger.difficulty());
    assert_eq!(snapshot.chain().len(), 2);
    assert_eq!(snapshot.pending_transactions().len(), 1);

    ledger.mine_pending_transactions_at(2).unwrap();
    assert_eq!(snapshot.chain().len(), 2);
    assert_eq!(ledger.chain().len(), 3);
    let copy = ledger.clone();
    assert_eq!(copy.chain(), ledger.chain());
    assert!(copy.pending_transactions().is_empty());
}

#[test]
fn every_mined_hash_has_the_length_of_a_hash() {
    assert_eq!(HASH_LENGTH, 64);
    let mut ledger = Blockchain::with_genesis(1700000000, 1);
    for round in 0..3 {
        ledger.add_transaction(signed_transaction("a"));
        let block = ledger.mine_pending_transactions_at(round).unwrap();
        assert_eq!(block.hash.chars().count(), HASH_LENGTH);
    }
}

#[test]
fn no_hash_meets_a_difficulty_beyond_its_length() {
    let transactions = vec![signed_transaction("t1")];
    assert_eq!(find_nonce(1, 1700000005, &transactions, "0", HASH_LENGTH + 1), None);
    assert_eq!(find_nonce(1, 1700000005, &transactions, "0", usize::MAX), None);

    let mut ledger = Blockchain::with_genesis(1700000000, HASH_LENGTH + 1);
    assert_eq!(ledger.mine_block_at(transactions, "0".to_string(), 1700000005), None);
    assert_eq!(ledger.mine_block(vec![signed_transaction("t1")], "0".to_string()), None);

    ledger.add_transaction(signed_transaction("t1"));
    assert_eq!(ledger.mine_pending_transactions_at(1700000005), None);
    assert_eq!(ledger.mine_pending_transactions(), None);
    assert_eq!(ledger.chain().len(), 1);
    assert_eq!(ledger.pending_transactions(), &vec![signed_transaction("t1")]);
}
