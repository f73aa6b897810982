use tx_ledger::parser::{ParseError, Tx, TxType};

#[test]
fn parses_a_plain_deposit_line() {
    let tx = Tx::from_str("deposit,1,2,3.5").unwrap();
    assert_eq!(tx.tx_type, TxType::Deposit);
    assert_eq!(tx.client, 1);
    assert_eq!(tx.tx_id, 2);
    assert_eq!(tx.amount, Some(35_000));
}

#[test]
fn accepts_semicolons_and_field_whitespace() {
    let tx = Tx::from_str("withdrawal ; 10 ;\t20 ; 0.5 ").unwrap();
    assert_eq!(tx.tx_type, TxType::Withdrawal);
    assert_eq!(tx.client, 10);
    assert_eq!(tx.tx_id, 20);
    assert_eq!(tx.amount, Some(5_000));
}

#[test]
fn reference_records_carry_no_amount() {
    let tx = Tx::from_str("dispute,1,7").unwrap();
    assert_eq!(tx.tx_type, TxType::Dispute);
    assert_eq!(tx.amount, None);
    let tx = Tx::from_str("resolve,2,8").unwrap();
    assert_eq!(tx.tx_type, TxType::Resolve);
    let tx = Tx::from_str("chargeback,3,9").unwrap();
    assert_eq!(tx.tx_type, TxType::Chargeback);
}

#[test]
fn unknown_keyword_is_a_hard_error() {
    assert_eq!(Tx::from_str("transfer,1,2,3.0"), Err(ParseError::InvalidType));
    assert_eq!(Tx::from_str("Deposit,1,2,3.0"), Err(ParseError::InvalidType));
    assert_eq!(Tx::from_str(""), Err(ParseError::InvalidType));
}

#[test]
fn missing_and_invalid_fields_are_named() {
    assert_eq!(Tx::from_str("deposit"), Err(ParseError::MissingClient));
    assert_eq!(Tx::from_str("deposit,abc,1"), Err(ParseError::InvalidClient));
    assert_eq!(Tx::from_str("deposit,70000,1"), Err(ParseError::InvalidClient));
    assert_eq!(Tx::from_str("deposit,1"), Err(ParseError::MissingTx));
    assert_eq!(Tx::from_str("deposit,1,xyz"), Err(ParseError::InvalidTx));
    assert_eq!(
        Tx::from_str("deposit,1,99999999999"),
        Err(ParseError::InvalidTx)
    );
}

#[test]
fn malformed_amount_counts_as_zero() {
    assert_eq!(Tx::from_str("deposit,1,1,abc").unwrap().amount, Some(0));
    assert_eq!(Tx::from_str("deposit,1,1,-5").unwrap().amount, Some(0));
    assert_eq!(Tx::from_str("deposit,1,1,1e3").unwrap().amount, Some(0));
    assert_eq!(Tx::from_str("deposit,1,1,1.2.3").unwrap().amount, Some(0));
    assert_eq!(Tx::from_str("deposit,1,1,").unwrap().amount, Some(0));
}

#[test]
fn fields_beyond_the_fourth_are_ignored() {
    assert_eq!(
        Tx::from_str("deposit,1,1,2.0,extra").unwrap().amount,
        Some(20_000)
    );
    let tx = Tx::from_str("deposit,1,2,3.0,extra").unwrap();
    assert_eq!(tx.tx_type, TxType::Deposit);
    assert_eq!(tx.client, 1);
    assert_eq!(tx.tx_id, 2);
    assert_eq!(tx.amount, Some(30_000));
    // a malformed fifth field changes nothing either
    assert_eq!(
        Tx::from_str("withdrawal,4,5,1.5,,,;garbage").unwrap().amount,
        Some(15_000)
    );
}

#[test]
fn amount_grammar_corner_cases() {
    assert_eq!(Tx::from_str("deposit,1,1,5.").unwrap().amount, Some(50_000));
    assert_eq!(Tx::from_str("deposit,1,1,.5").unwrap().amount, Some(5_000));
    assert_eq!(Tx::from_str("deposit,1,1,+1.5").unwrap().amount, Some(15_000));
    assert_eq!(Tx::from_str("deposit,1,1,0").unwrap().amount, Some(0));
    // digits beyond the fourth fractional place are truncated
    assert_eq!(
        Tx::from_str("deposit,1,1,0.12345").unwrap().amount,
        Some(1_234)
    );
    assert_eq!(
        Tx::from_str("deposit,1,1,0.00001").unwrap().amount,
        Some(0)
    );
}

#[test]
fn signed_client_and_tx_accept_a_plus() {
    let tx = Tx::from_str("deposit,+12,+34,1.0").unwrap();
    assert_eq!(tx.client, 12);
    assert_eq!(tx.tx_id, 34);
}

#[test]
fn keyword_lookup_matches_exactly_five_kinds() {
    assert_eq!(TxType::from_keyword("deposit"), Some(TxType::Deposit));
    assert_eq!(TxType::from_keyword("withdrawal"), Some(TxType::Withdrawal));
    assert_eq!(TxType::from_keyword("dispute"), Some(TxType::Dispute));
    assert_eq!(TxType::from_keyword("resolve"), Some(TxType::Resolve));
    assert_eq!(TxType::from_keyword("chargeback"), Some(TxType::Chargeback));
    assert_eq!(TxType::from_keyword("deposits"), None);
    assert_eq!(TxType::from_keyword(""), None);
}
