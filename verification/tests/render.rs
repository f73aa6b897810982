use tx_ledger::engine::{Account, TxEngine};
use tx_ledger::parser::Tx;

#[test]
fn account_renders_as_fixed_point_csv() {
    let account = Account {
        client: 7,
        available: 25_000,
        held: 0,
        total: 25_000,
        locked: false,
    };
    assert_eq!(account.to_csv_line(), "7,2.5000,0.0000,2.5000,false");
}

#[test]
fn negative_balances_get_a_sign() {
    let account = Account {
        client: 1,
        available: -5_000,
        held: 15_000,
        total: 10_000,
        locked: true,
    };
    assert_eq!(account.to_csv_line(), "1,-0.5000,1.5000,1.0000,true");
}

#[test]
fn snapshot_lists_accounts_in_creation_order() {
    let mut engine = TxEngine::new();
    engine.process_tx(Tx::from_str("deposit,2,1,1.0").unwrap());
    engine.process_tx(Tx::from_str("deposit,1,2,2.25").unwrap());
    engine.process_tx(Tx::from_str("deposit,2,3,0.5").unwrap());
    assert_eq!(
        engine.summarize_accounts(),
        "client,available,held,total,locked\n\
         2,1.5000,0.0000,1.5000,false\n\
         1,2.2500,0.0000,2.2500,false\n"
    );
}
