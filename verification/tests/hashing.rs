use market_ledger::block::{calculate_hash, has_leading_zeros};
use market_ledger::canonical::{
    append_decimal, push_bytes, push_decimal, push_quoted, push_signed_decimal,
};
use market_ledger::transaction::{push_transaction, push_transactions, Transaction};

fn sample_transaction() -> Transaction {
    Transaction {
        id: "t1".to_string(),
        product_id: "widget".to_string(),
        buyer_address: "buyer".to_string(),
        seller_address: "0x1234567890abcdef".to_string(),
        amount: 500,
        timestamp: 1700000000,
        hash: String::new(),
        previous_hash: "0".to_string(),
        nonce: 0,
    }
}

fn awkward_transaction() -> Transaction {
    let mut t = sample_transaction();
    t.id = "a\"b\\c".to_string();
    t.buyer_address = "zo\u{eb}".to_string();
    t
}

#[test]
fn hash_of_empty_fields_is_known() {
    // SHA-256 of the text `00[]0`.
    assert_eq!(
        calculate_hash(0, 0, &[], "", 0),
        "66c1f978d80ce2da318e5c65283d0668fd5dfe593644ae9fd7496bd2f91be72b"
    );
}

#[test]
fn hash_with_negative_timestamp_is_known() {
    // SHA-256 of the text `3-42[]ab7`.
    assert_eq!(
        calculate_hash(3, -42, &[], "ab", 7),
        "675c7441b5d65c64b98594bd690791e4010c4537dbb5c0b65b7d10a06645ac8d"
    );
}

#[test]
fn hash_of_one_transaction_is_known() {
    assert_eq!(
        calculate_hash(1, 1700000000, &[sample_transaction()], "0", 0),
        "de5458410098a57d1585d48f8ff55bfd9c817df37ff909c4ba624da9d155b462"
    );
}

#[test]
fn hash_is_sixty_four_lower_case_hex_digits() {
    let hash = calculate_hash(7, 123, &[awkward_transaction()], "00ff", 99);
    assert_eq!(hash.len(), 64);
    assert!(hash.chars().all(|c| c.is_ascii_digit() || ('a'..='f').contains(&c)));
}

#[test]
fn hashing_is_deterministic() {
    let transactions = vec![sample_transaction(), awkward_transaction()];
    let first = calculate_hash(5, 1700000000, &transactions, "00ab", 17);
    let second = calculate_hash(5, 1700000000, &transactions, "00ab", 17);
    assert_eq!(first, second);
}

#[test]
fn changing_a_block_field_changes_the_hash() {
    let transactions = vec![sample_transaction()];
    let base = calculate_hash(5, 1700000000, &transactions, "00ab", 17);
    assert_ne!(base, calculate_hash(6, 1700000000, &transactions, "00ab", 17));
    assert_ne!(base, calculate_hash(5, 1700000001, &transactions, "00ab", 17));
    assert_ne!(base, calculate_hash(5, 1700000000, &[], "00ab", 17));
    assert_ne!(base, calculate_hash(5, 1700000000, &transactions, "00ac", 17));
    assert_ne!(base, calculate_hash(5, 1700000000, &transactions, "00ab", 18));
}

#[test]
fn changing_a_transaction_field_changes_the_hash() {
    let base = calculate_hash(5, 1700000000, &[sample_transaction()], "00ab", 17);
    let mut changed: Vec<Transaction> = Vec::new();
    for _ in 0..9 {
        changed.push(sample_transaction());
    }
    changed[0].id = "t2".to_string();
    changed[1].product_id = "gadget".to_string();
    changed[2].buyer_address = "other".to_string();
    changed[3].seller_address = "0x0".to_string();
    changed[4].amount = 501;
    changed[5].timestamp = 1700000001;
    changed[6].hash = "ff".to_string();
    changed[7].previous_hash = "1".to_string();
    changed[8].nonce = 1;
    for t in changed {
        assert_ne!(base, calculate_hash(5, 1700000000, &[t], "00ab", 17));
    }
}

#[test]
fn reordering_transactions_changes_the_hash() {
    let forward = vec![sample_transaction(), awkward_transaction()];
    let backward = vec![awkward_transaction(), sample_transaction()];
    assert_ne!(
        calculate_hash(5, 1700000000, &forward, "00ab", 17),
        calculate_hash(5, 1700000000, &backward, "00ab", 17)
    );
}

#[test]
fn transaction_text_names_every_field() {
    let mut out: Vec<u8> = Vec::new();
    push_transaction(&mut out, &sample_transaction());
    assert_eq!(
        String::from_utf8(out).unwrap(),
        "Transaction { id: \"t1\", product_id: \"widget\", buyer_address: \"buyer\", \
         seller_address: \"0x1234567890abcdef\", amount: 500, timestamp: 1700000000, \
         hash: \"\", previous_hash: \"0\", nonce: 0 }"
    );
}

#[test]
fn transaction_text_escapes_quotes_and_backslashes() {
    let mut out: Vec<u8> = Vec::new();
    push_transaction(&mut out, &awkward_transaction());
    assert_eq!(
        String::from_utf8(out).unwrap(),
        "Transaction { id: \"a\\\"b\\\\c\", product_id: \"widget\", buyer_address: \"zo\u{eb}\", \
         seller_address: \"0x1234567890abcdef\", amount: 500, timestamp: 1700000000, \
         hash: \"\", previous_hash: \"0\", nonce: 0 }"
    );
}

#[test]
fn transaction_list_text_is_bracketed_and_comma_separated() {
    let mut none: Vec<u8> = b"x".to_vec();
    push_transactions(&mut none, &[]);
    assert_eq!(none, b"x[]".to_vec());

    let mut one: Vec<u8> = Vec::new();
    push_transaction(&mut one, &sample_transaction());
    let mut other: Vec<u8> = Vec::new();
    push_transaction(&mut other, &awkward_transaction());

    let mut single: Vec<u8> = Vec::new();
    push_transactions(&mut single, &[sample_transaction()]);
    assert_eq!(single, [b"[".to_vec(), one.clone(), b"]".to_vec()].concat());

    let mut both: Vec<u8> = Vec::new();
    push_transactions(&mut both, &[sample_transaction(), awkward_transaction()]);
    assert_eq!(both, [b"[".to_vec(), one, b", ".to_vec(), other, b"]".to_vec()].concat());
}

#[test]
fn decimal_digits_of_unsigned_numbers() {
    let cases: Vec<(u128, &str)> = vec![
        (0, "0"),
        (9, "9"),
        (10, "10"),
        (1205, "1205"),
        (18446744073709551615, "18446744073709551615"),
        (u128::MAX, "340282366920938463463374607431768211455"),
    ];
    for (n, text) in cases {
        let mut out: Vec<u8> = b">".to_vec();
        push_decimal(&mut out, n);
        assert_eq!(String::from_utf8(out).unwrap(), format!(">{}", text));
    }
}

#[test]
fn decimal_digits_of_signed_numbers() {
    let cases: Vec<(i64, &str)> = vec![
        (0, "0"),
        (-1, "-1"),
        (42, "42"),
        (-1700000000, "-1700000000"),
        (i64::MAX, "9223372036854775807"),
        (i64::MIN, "-9223372036854775808"),
    ];
    for (n, text) in cases {
        let mut out: Vec<u8> = Vec::new();
        push_signed_decimal(&mut out, n);
        assert_eq!(String::from_utf8(out).unwrap(), text);
    }
}

#[test]
fn decimal_digits_appended_to_a_string() {
    let mut text = String::from("x");
    append_decimal(&mut text, 0);
    append_decimal(&mut text, 1000);
    append_decimal(&mut text, u64::MAX);
    assert_eq!(text, "x0100018446744073709551615");
}

#[test]
fn quoted_text_escapes_only_quote_and_backslash() {
    let mut out: Vec<u8> = Vec::new();
    push_quoted(&mut out, b"");
    push_quoted(&mut out, b"plain, text\n");
    push_quoted(&mut out, b"\"\\");
    assert_eq!(out, b"\"\"\"plain, text\n\"\"\\\"\\\\\"".to_vec());
}

#[test]
fn bytes_are_appended_in_order() {
    let mut out: Vec<u8> = vec![1, 2];
    push_bytes(&mut out, &[3, 4, 5]);
    push_bytes(&mut out, &[]);
    assert_eq!(out, vec![1, 2, 3, 4, 5]);
}

#[test]
fn leading_zeros_are_counted_in_characters() {
    assert!(has_leading_zeros("00ab", 0));
    assert!(has_leading_zeros("00ab", 1));
    assert!(has_leading_zeros("00ab", 2));
    assert!(!has_leading_zeros("00ab", 3));
    assert!(!has_leading_zeros("0a0b", 2));
    assert!(has_leading_zeros("", 0));
    assert!(!has_leading_zeros("", 1));
    assert!(!has_leading_zeros("0", 2));
    assert!(has_leading_zeros("000", 3));
    assert!(!has_leading_zeros("000", 4));
    assert!(has_leading_zeros("0\u{eb}0", 1));
    assert!(!has_leading_zeros("0\u{eb}0", 2));
    assert!(!has_leading_zeros("\u{eb}00", 1));
}
