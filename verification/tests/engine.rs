use tx_ledger::engine::TxEngine;
use tx_ledger::parser::{Tx, TxType};

// Amounts are fixed-point counts of 1/10000 currency units.
const UNIT: u64 = tx_ledger::AMOUNT_SCALE;

fn feed(engine: &mut TxEngine, line: &str) {
    let tx = Tx::from_str(line).expect("record line must parse");
    engine.process_tx(tx);
}

#[test]
fn test_dispute_resolve_and_chargeback_flow() {
    let mut engine = TxEngine::new();

    engine.process_tx(Tx {
        tx_type: TxType::Deposit,
        client: 1,
        tx_id: 1,
        amount: Some(1000 * UNIT),
    });
    engine.process_tx(Tx {
        tx_type: TxType::Deposit,
        client: 1,
        tx_id: 2,
        amount: Some(500 * UNIT),
    });

    engine.process_tx(Tx {
        tx_type: TxType::Dispute,
        client: 1,
        tx_id: 1,
        amount: None,
    });

    {
        let account = engine.get_account(1).unwrap();
        assert_eq!(account.available, (500 * UNIT) as i128);
        assert_eq!(account.held, (1000 * UNIT) as i128);
        assert_eq!(account.total, (1500 * UNIT) as i128);
        assert!(!account.locked);
    }

    engine.process_tx(Tx {
        tx_type: TxType::Resolve,
        client: 1,
        tx_id: 1,
        amount: None,
    });

    {
        let account = engine.get_account(1).unwrap();
        assert_eq!(account.available, (1500 * UNIT) as i128);
        assert_eq!(account.held, 0);
        assert_eq!(account.total, (1500 * UNIT) as i128);
        assert!(!account.locked);
    }

    engine.process_tx(Tx {
        tx_type: TxType::Dispute,
        client: 1,
        tx_id: 2,
        amount: None,
    });
    engine.process_tx(Tx {
        tx_type: TxType::Chargeback,
        client: 1,
        tx_id: 2,
        amount: None,
    });

    {
        let account = engine.get_account(1).unwrap();
        assert_eq!(account.available, (1000 * UNIT) as i128);
        assert_eq!(account.held, 0);
        assert_eq!(account.total, (1000 * UNIT) as i128);
        assert!(account.locked);
    }
}

#[test]
fn scenario_dispute_holds_funds() {
    let mut engine = TxEngine::new();
    feed(&mut engine, "deposit,1,1,1000.0");
    feed(&mut engine, "deposit,1,2,500.0");
    feed(&mut engine, "dispute,1,1");
    let account = engine.get_account(1).unwrap();
    assert_eq!(account.available, (500 * UNIT) as i128);
    assert_eq!(account.held, (1000 * UNIT) as i128);
    assert_eq!(account.total, (1500 * UNIT) as i128);
    assert!(!account.locked);
}

#[test]
fn scenario_resolve_releases_funds() {
    let mut engine = TxEngine::new();
    feed(&mut engine, "deposit,1,1,1000.0");
    feed(&mut engine, "deposit,1,2,500.0");
    feed(&mut engine, "dispute,1,1");
    feed(&mut engine, "resolve,1,1");
    let account = engine.get_account(1).unwrap();
    assert_eq!(account.available, (1500 * UNIT) as i128);
    assert_eq!(account.held, 0);
    assert_eq!(account.total, (1500 * UNIT) as i128);
    assert!(!account.locked);
}

#[test]
fn scenario_chargeback_locks_account() {
    let mut engine = TxEngine::new();
    feed(&mut engine, "deposit,1,1,1000.0");
    feed(&mut engine, "deposit,1,2,500.0");
    feed(&mut engine, "dispute,1,1");
    feed(&mut engine, "resolve,1,1");
    feed(&mut engine, "dispute,1,2");
    feed(&mut engine, "chargeback,1,2");
    let account = engine.get_account(1).unwrap();
    assert_eq!(account.available, (1000 * UNIT) as i128);
    assert_eq!(account.held, 0);
    assert_eq!(account.total, (1000 * UNIT) as i128);
    assert!(account.locked);
}

#[test]
fn scenario_insufficient_withdrawal_is_noop() {
    let mut engine = TxEngine::new();
    feed(&mut engine, "deposit,2,10,100.0");
    feed(&mut engine, "withdrawal,2,11,500.0");
    let account = engine.get_account(2).unwrap();
    assert_eq!(account.available, (100 * UNIT) as i128);
    assert_eq!(account.held, 0);
    assert_eq!(account.total, (100 * UNIT) as i128);
    assert!(!account.locked);
}

#[test]
fn scenario_unknown_dispute_leaves_state_untouched() {
    let mut engine = TxEngine::new();
    feed(&mut engine, "dispute,3,999");
    assert!(engine.get_account(3).is_none());
    // no account was created, so the snapshot is just the header
    assert_eq!(
        engine.summarize_accounts(),
        "client,available,held,total,locked\n"
    );
}

#[test]
fn withdrawal_within_funds_debits_account() {
    let mut engine = TxEngine::new();
    feed(&mut engine, "deposit,5,50,10.5");
    feed(&mut engine, "withdrawal,5,51,4.25");
    let account = engine.get_account(5).unwrap();
    assert_eq!(account.available, 62_500);
    assert_eq!(account.held, 0);
    assert_eq!(account.total, 62_500);
}

#[test]
fn resolve_without_open_dispute_applies_the_reversal() {
    // the chosen policy: a resolve for any recorded transaction moves its
    // amount from held to available, even when no dispute is open
    let mut engine = TxEngine::new();
    feed(&mut engine, "deposit,1,1,100.0");
    feed(&mut engine, "resolve,1,1");
    let account = engine.get_account(1).unwrap();
    assert_eq!(account.available, (200 * UNIT) as i128);
    assert_eq!(account.held, -((100 * UNIT) as i128));
    assert_eq!(account.total, (100 * UNIT) as i128);
}

#[test]
fn resolve_for_unknown_tx_is_noop() {
    let mut engine = TxEngine::new();
    feed(&mut engine, "deposit,1,1,100.0");
    feed(&mut engine, "resolve,1,42");
    let account = engine.get_account(1).unwrap();
    assert_eq!(account.available, (100 * UNIT) as i128);
    assert_eq!(account.held, 0);
    assert_eq!(account.total, (100 * UNIT) as i128);
}

#[test]
fn locked_account_ignores_deposits_and_withdrawals() {
    let mut engine = TxEngine::new();
    feed(&mut engine, "deposit,1,1,100.0");
    feed(&mut engine, "dispute,1,1");
    feed(&mut engine, "chargeback,1,1");
    let before = engine.get_account(1).unwrap();
    assert!(before.locked);
    feed(&mut engine, "deposit,1,2,50.0");
    feed(&mut engine, "withdrawal,1,3,10.0");
    let after = engine.get_account(1).unwrap();
    assert_eq!(after.available, before.available);
    assert_eq!(after.held, before.held);
    assert_eq!(after.total, before.total);
    assert!(after.locked);
}

#[test]
fn deposit_without_amount_only_creates_the_account() {
    let mut engine = TxEngine::new();
    feed(&mut engine, "deposit,9,90");
    let account = engine.get_account(9).unwrap();
    assert_eq!(account.available, 0);
    assert_eq!(account.held, 0);
    assert_eq!(account.total, 0);
    assert!(!account.locked);
}

#[test]
fn total_stays_sum_of_available_and_held() {
    let mut engine = TxEngine::new();
    let lines = [
        "deposit,1,1,10.0",
        "deposit,1,2,3.5",
        "withdrawal,1,3,2.25",
        "dispute,1,2",
        "resolve,1,2",
        "dispute,1,1",
        "chargeback,1,1",
        "deposit,2,4,7.0",
        "withdrawal,2,5,100.0",
    ];
    for line in lines {
        feed(&mut engine, line);
        for client in [1u16, 2u16] {
            if let Some(a) = engine.get_account(client) {
                assert_eq!(a.total, a.available + a.held);
            }
        }
    }
}
