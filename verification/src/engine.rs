//! The ledger engine: per-client accounts, the per-transaction state
//! machine that mutates them, and the invariants that keep
//! available/held/total consistent.
//!
//! All balances are fixed-point: signed counts of 1/10000 currency units.
//! Available funds may go negative while a dispute is open. Arithmetic
//! that would leave the 128-bit range makes that record's financial
//! effect a no-op, like the other semantic errors (unknown reference,
//! insufficient funds, locked account), which are silent by design.

use crate::parser::{Tx, TxType};
use crate::render::{account_line_chars, snapshot_chars, snapshot_rows};
use std::collections::HashMap;
use vstd::prelude::*;
use vstd::string::StringExecFns;

verus! {

broadcast use vstd::std_specs::hash::group_hash_axioms;

/// One client's balances. `total` must always equal `available + held`.
#[derive(Clone, Copy, Debug, PartialEq, Eq, Structural)]
pub struct Account {
    pub client: u16,
    pub available: i128,
    pub held: i128,
    pub total: i128,
    pub locked: bool,
}

/// The full mathematical state of the engine: the account table, the
/// account-creation order, the ledger of accepted deposit/withdrawal
/// records, and the records currently or formerly under dispute.
pub ghost struct LedgerView {
    pub accounts: Map<u16, Account>,
    pub clients: Seq<u16>,
    pub txs: Map<u32, Tx>,
    pub disputes: Map<u32, Tx>,
}

impl LedgerView {
    /// The state of a freshly created engine.
    pub open spec fn init() -> LedgerView {
        LedgerView {
            accounts: Map::empty(),
            clients: Seq::empty(),
            txs: Map::empty(),
            disputes: Map::empty(),
        }
    }

    /// Everything the engine relies on between transactions:
    /// each account is keyed by its own client id and balances are
    /// consistent; the creation order lists exactly the known clients,
    /// once each; every ledger record is keyed by its own transaction id,
    /// carries an amount, and belongs to a known account; every dispute
    /// references a ledger record.
    pub open spec fn wf(self) -> bool {
        &&& forall|c: u16| #[trigger]
            self.accounts.contains_key(c) ==> self.accounts[c].client == c
                && self.accounts[c].total == self.accounts[c].available + self.accounts[c].held
        &&& forall|c: u16| #[trigger] self.accounts.contains_key(c) ==> self.clients.contains(c)
        &&& forall|i: int|
            0 <= i < self.clients.len() ==> self.accounts.contains_key(
                #[trigger] self.clients[i],
            )
        &&& forall|i: int, j: int|
            0 <= i < j < self.clients.len() ==> self.clients[i] != self.clients[j]
        &&& forall|id: u32| #[trigger]
            self.txs.contains_key(id) ==> self.txs[id].tx_id == id && self.txs[id].amount is Some
                && self.accounts.contains_key(self.txs[id].client)
        &&& forall|id: u32| #[trigger] self.disputes.contains_key(id) ==> self.txs.contains_key(id)
    }
}

/// The account for `c`, or a fresh zero-balance account if none exists.
pub open spec fn account_or_new(accounts: Map<u16, Account>, c: u16) -> Account {
    if accounts.contains_key(c) {
        accounts[c]
    } else {
        Account { client: c, available: 0, held: 0, total: 0, locked: false }
    }
}

/// Effect of a deposit or withdrawal record. The account is created if
/// missing, even when nothing else applies. A locked account, or a record
/// without an amount, gets no further effect. A deposit is stored in the
/// ledger and, when the sums stay in range, credited. A withdrawal is
/// stored in the ledger regardless, but debits the balances only when the
/// available funds suffice.
pub open spec fn step_deposit_withdrawal(v: LedgerView, t: Tx) -> LedgerView {
    let acct = account_or_new(v.accounts, t.client);
    let v1 = LedgerView {
        accounts: if v.accounts.contains_key(t.client) {
            v.accounts
        } else {
            v.accounts.insert(t.client, acct)
        },
        clients: if v.accounts.contains_key(t.client) {
            v.clients
        } else {
            v.clients.push(t.client)
        },
        txs: v.txs,
        disputes: v.disputes,
    };
    if acct.locked {
        v1
    } else {
        match t.amount {
            Option::None => v1,
            Option::Some(a) => {
                if t.tx_type == TxType::Deposit {
                    let v2 = LedgerView { txs: v1.txs.insert(t.tx_id, t), ..v1 };
                    if acct.available + a <= i128::MAX && acct.total + a <= i128::MAX {
                        LedgerView {
                            accounts: v2.accounts.insert(
                                t.client,
                                Account {
                                    available: (acct.available + a) as i128,
                                    total: (acct.total + a) as i128,
                                    ..acct
                                },
                            ),
                            ..v2
                        }
                    } else {
                        v2
                    }
                } else {
                    let v2 = LedgerView { txs: v1.txs.insert(t.tx_id, t), ..v1 };
                    if a <= acct.available {
                        LedgerView {
                            accounts: v2.accounts.insert(
                                t.client,
                                Account {
                                    available: (acct.available - a) as i128,
                                    total: (acct.total - a) as i128,
                                    ..acct
                                },
                            ),
                            ..v2
                        }
                    } else {
                        v2
                    }
                }
            },
        }
    }
}

/// Effect of a dispute referencing ledger record `id`: the record's amount
/// moves from available to held and the dispute is recorded. A reference
/// to an unknown record is a silent no-op, as is arithmetic that would
/// leave the 128-bit range.
pub open spec fn step_dispute(v: LedgerView, id: u32) -> LedgerView {
    if v.txs.contains_key(id) {
        let t = v.txs[id];
        match t.amount {
            Option::None => v,
            Option::Some(a) => {
                if v.accounts.contains_key(t.client) {
                    let acct = v.accounts[t.client];
                    if acct.available - a >= i128::MIN && acct.held + a <= i128::MAX {
                        LedgerView {
                            accounts: v.accounts.insert(
                                t.client,
                                Account {
                                    available: (acct.available - a) as i128,
                                    held: (acct.held + a) as i128,
                                    ..acct
                                },
                            ),
                            disputes: v.disputes.insert(id, t),
                            ..v
                        }
                    } else {
                        v
                    }
                } else {
                    v
                }
            },
        }
    } else {
        v
    }
}

/// Effect of a resolve referencing ledger record `id`: the record's amount
/// moves back from held to available and the record is noted among the
/// disputes. The reversal applies whenever the record exists, whether or
/// not a dispute is open. Unknown references and out-of-range arithmetic
/// are silent no-ops.
pub open spec fn step_resolve(v: LedgerView, id: u32) -> LedgerView {
    if v.txs.contains_key(id) {
        let t = v.txs[id];
        match t.amount {
            Option::None => v,
            Option::Some(a) => {
                if v.accounts.contains_key(t.client) {
                    let acct = v.accounts[t.client];
                    if acct.available + a <= i128::MAX && acct.held - a >= i128::MIN {
                        LedgerView {
                            accounts: v.accounts.insert(
                                t.client,
                                Account {
                                    available: (acct.available + a) as i128,
                                    held: (acct.held - a) as i128,
                                    ..acct
                                },
                            ),
                            disputes: v.disputes.insert(id, t),
                            ..v
                        }
                    } else {
                        v
                    }
                } else {
                    v
                }
            },
        }
    } else {
        v
    }
}

/// Effect of a chargeback referencing ledger record `id`: the record's
/// amount leaves both held and total, and the account is permanently
/// locked. Unknown references and out-of-range arithmetic are silent
/// no-ops.
pub open spec fn step_chargeback(v: LedgerView, id: u32) -> LedgerView {
    if v.txs.contains_key(id) {
        let t = v.txs[id];
        match t.amount {
            Option::None => v,
            Option::Some(a) => {
                if v.accounts.contains_key(t.client) {
                    let acct = v.accounts[t.client];
                    if acct.total - a >= i128::MIN && acct.held - a >= i128::MIN {
                        LedgerView {
                            accounts: v.accounts.insert(
                                t.client,
                                Account {
                                    total: (acct.total - a) as i128,
                                    held: (acct.held - a) as i128,
                                    locked: true,
                                    ..acct
                                },
                            ),
                            ..v
                        }
                    } else {
                        v
                    }
                } else {
                    v
                }
            },
        }
    } else {
        v
    }
}

/// Effect of one transaction record on the engine state, dispatched
/// purely on its kind.
pub open spec fn step(v: LedgerView, t: Tx) -> LedgerView {
    match t.tx_type {
        TxType::Deposit => step_deposit_withdrawal(v, t),
        TxType::Withdrawal => step_deposit_withdrawal(v, t),
        TxType::Dispute => step_dispute(v, t.tx_id),
        TxType::Resolve => step_resolve(v, t.tx_id),
        TxType::Chargeback => step_chargeback(v, t.tx_id),
    }
}

/// The transaction engine: sole owner and mutator of the ledger state.
pub struct TxEngine {
    accounts: HashMap<u16, Account>,
    clients: Vec<u16>,
    txs: HashMap<u32, Tx>,
    disputes: HashMap<u32, Tx>,
}

impl View for TxEngine {
    type V = LedgerView;

    closed spec fn view(&self) -> LedgerView {
        LedgerView {
            accounts: self.accounts@,
            clients: self.clients@,
            txs: self.txs@,
            disputes: self.disputes@,
        }
    }
}

impl TxEngine {
    /// A fresh engine with no accounts and an empty ledger.
    pub fn new() -> (r: TxEngine)
        ensures
            r@ == LedgerView::init(),
            r@.wf(),
    {
        let r = TxEngine {
            accounts: HashMap::new(),
            clients: Vec::new(),
            txs: HashMap::new(),
            disputes: HashMap::new(),
        };
        proof {
            assert(r@ =~= LedgerView::init()) by {
                assert(r@.accounts =~= Map::<u16, Account>::empty());
                assert(r@.clients =~= Seq::<u16>::empty());
                assert(r@.txs =~= Map::<u32, Tx>::empty());
                assert(r@.disputes =~= Map::<u32, Tx>::empty());
            }
        }
        r
    }

    /// The account for `client`, if one has been created.
    pub fn get_account(&self, client: u16) -> (r: Option<Account>)
        ensures
            match r {
                Option::Some(a) => self@.accounts.contains_key(client)
                    && a == self@.accounts[client],
                Option::None => !self@.accounts.contains_key(client),
            },
    {
        match self.accounts.get(&client) {
            Option::Some(a) => Some(*a),
            Option::None => None,
        }
    }

    /// Applies one record to the ledger: the state becomes exactly
    /// `step` of the old state and the record, and stays well formed.
    pub fn process_tx(&mut self, tx: Tx)
        requires
            old(self)@.wf(),
        ensures
            final(self)@ == step(old(self)@, tx),
            final(self)@.wf(),
    {
        match tx.tx_type {
            TxType::Deposit => self.process_deposit_and_withdrawal(tx),
            TxType::Withdrawal => self.process_deposit_and_withdrawal(tx),
            TxType::Dispute => self.process_dispute(tx.tx_id),
            TxType::Resolve => self.process_resolve(tx.tx_id),
            TxType::Chargeback => self.process_chargeback(tx.tx_id),
        }
        proof {
            lemma_step_preserves_wf(old(self)@, tx);
        }
    }

    /// Renders the current account table: the header line, then one row
    /// per account in creation order, each line ended by a newline.
    #[verifier::loop_isolation(false)]
    pub fn summarize_accounts(&self) -> (r: String)
        requires
            self@.wf(),
        ensures
            r@ == snapshot_chars(self@),
    {
        let mut out = String::from_str("client,available,held,total,locked");
        proof {
            reveal_strlit("\n");
        }
        out.append("\n");
        let mut i: usize = 0;
        while i < self.clients.len()
            invariant
                i <= self.clients@.len(),
                out@ + snapshot_rows(self@, i as int) == snapshot_chars(self@),
            decreases self.clients@.len() - i,
        {
            let c = self.clients[i];
            let acct = match self.accounts.get(&c) {
                Option::Some(a) => *a,
                Option::None => {
                    proof {
                        assert(false);
                    }
                    Account { client: c, available: 0, held: 0, total: 0, locked: false }
                },
            };
            let line = acct.to_csv_line();
            out.append(line.as_str());
            out.append("\n");
            proof {
                assert(out@ + snapshot_rows(self@, i + 1) =~= snapshot_chars(self@));
            }
            i = i + 1;
        }
        proof {
            assert(out@ =~= snapshot_chars(self@));
        }
        out
    }

    fn process_deposit_and_withdrawal(&mut self, tx: Tx)
        requires
            old(self)@.wf(),
            tx.tx_type == TxType::Deposit || tx.tx_type == TxType::Withdrawal,
        ensures
            final(self)@ == step_deposit_withdrawal(old(self)@, tx),
    {
        let acct = match self.accounts.get(&tx.client) {
            Option::Some(a) => *a,
            Option::None => {
                let fresh = Account {
                    client: tx.client,
                    available: 0,
                    held: 0,
                    total: 0,
                    locked: false,
                };
                self.accounts.insert(tx.client, fresh);
                self.clients.push(tx.client);
                fresh
            },
        };
        if acct.locked {
            return ;
        }
        let a = match tx.amount {
            Option::Some(a) => a,
            Option::None => {
                return ;
            },
        };
        match tx.tx_type {
            TxType::Deposit => {
                self.txs.insert(tx.tx_id, tx);
                let av = acct.available.checked_add_unsigned(a as u128);
                let tot = acct.total.checked_add_unsigned(a as u128);
                match (av, tot) {
                    (Option::Some(av), Option::Some(tot)) => {
                        self.accounts.insert(
                            tx.client,
                            Account { available: av, total: tot, ..acct },
                        );
                    },
                    _ => {},
                }
            },
            _ => {
                self.txs.insert(tx.tx_id, tx);
                if a as i128 <= acct.available {
                    let av = acct.available - a as i128;
                    let tot = acct.total - a as i128;
                    self.accounts.insert(tx.client, Account { available: av, total: tot, ..acct });
                }
            },
        }
    }

    fn process_dispute(&mut self, tx_id: u32)
        requires
            old(self)@.wf(),
        ensures
            final(self)@ == step_dispute(old(self)@, tx_id),
    {
        let t = match self.txs.get(&tx_id) {
            Option::Some(t) => *t,
            Option::None => {
                return ;
            },
        };
        let a = match t.amount {
            Option::Some(a) => a,
            Option::None => {
                return ;
            },
        };
        let acct = match self.accounts.get(&t.client) {
            Option::Some(x) => *x,
            Option::None => {
                proof {
                    assert(false);
                }
                return ;
            },
        };
        let av = acct.available.checked_sub_unsigned(a as u128);
        let hd = acct.held.checked_add_unsigned(a as u128);
        match (av, hd) {
            (Option::Some(av), Option::Some(hd)) => {
                self.accounts.insert(t.client, Account { available: av, held: hd, ..acct });
                self.disputes.insert(tx_id, t);
            },
            _ => {},
        }
    }

    fn process_resolve(&mut self, tx_id: u32)
        requires
            old(self)@.wf(),
        ensures
            final(self)@ == step_resolve(old(self)@, tx_id),
    {
        let t = match self.txs.get(&tx_id) {
            Option::Some(t) => *t,
            Option::None => {
                return ;
            },
        };
        let a = match t.amount {
            Option::Some(a) => a,
            Option::None => {
                return ;
            },
        };
        let acct = match self.accounts.get(&t.client) {
            Option::Some(x) => *x,
            Option::None => {
                proof {
                    assert(false);
                }
                return ;
            },
        };
        let av = acct.available.checked_add_unsigned(a as u128);
        let hd = acct.held.checked_sub_unsigned(a as u128);
        match (av, hd) {
            (Option::Some(av), Option::Some(hd)) => {
                self.accounts.insert(t.client, Account { available: av, held: hd, ..acct });
                self.disputes.insert(tx_id, t);
            },
            _ => {},
        }
    }

    fn process_chargeback(&mut self, tx_id: u32)
        requires
            old(self)@.wf(),
        ensures
            final(self)@ == step_chargeback(old(self)@, tx_id),
    {
        let t = match self.txs.get(&tx_id) {
            Option::Some(t) => *t,
            Option::None => {
                return ;
            },
        };
        let a = match t.amount {
            Option::Some(a) => a,
            Option::None => {
                return ;
            },
        };
        let acct = match self.accounts.get(&t.client) {
            Option::Some(x) => *x,
            Option::None => {
                proof {
                    assert(false);
                }
                return ;
            },
        };
        let tot = acct.total.checked_sub_unsigned(a as u128);
        let hd = acct.held.checked_sub_unsigned(a as u128);
        match (tot, hd) {
            (Option::Some(tot), Option::Some(hd)) => {
                self.accounts.insert(
                    t.client,
                    Account { total: tot, held: hd, locked: true, ..acct },
                );
            },
            _ => {},
        }
    }
}

proof fn lemma_step_dw_preserves_wf(v: LedgerView, t: Tx)
    requires
        v.wf(),
    ensures
        step_deposit_withdrawal(v, t).wf(),
{
    broadcast use vstd::seq_lib::lemma_seq_contains_after_push;

    let r = step_deposit_withdrawal(v, t);
    if !v.accounts.contains_key(t.client) {
        assert forall|i: int| 0 <= i < v.clients.len() implies v.clients[i] != t.client by {
            assert(v.accounts.contains_key(v.clients[i]));
        }
        assert(v.clients.push(t.client)[v.clients.len() as int] == t.client);
    }
}

/// Applying any record to a well-formed state leaves it well formed; in
/// particular `total == available + held` holds for every account after
/// every mutation.
pub proof fn lemma_step_preserves_wf(v: LedgerView, t: Tx)
    requires
        v.wf(),
    ensures
        step(v, t).wf(),
{
    match t.tx_type {
        TxType::Deposit => lemma_step_dw_preserves_wf(v, t),
        TxType::Withdrawal => lemma_step_dw_preserves_wf(v, t),
        _ => {},
    }
}

/// The state after a whole sequence of records, applied in order.
pub open spec fn run(v: LedgerView, ts: Seq<Tx>) -> LedgerView
    decreases ts.len(),
{
    if ts.len() == 0 {
        v
    } else {
        run(step(v, ts[0]), ts.skip(1))
    }
}

/// The ledger invariant holds at every point in time: however many
/// records a well-formed state absorbs, it stays well formed — so
/// `total == available + held` holds for every account after every
/// record.
pub proof fn lemma_run_preserves_wf(v: LedgerView, ts: Seq<Tx>)
    requires
        v.wf(),
    ensures
        run(v, ts).wf(),
    decreases ts.len(),
{
    if ts.len() > 0 {
        lemma_step_preserves_wf(v, ts[0]);
        lemma_run_preserves_wf(step(v, ts[0]), ts.skip(1));
    }
}

/// A lock is permanent, and it gates deposits and withdrawals: once an
/// account is locked, no record unlocks it, and no deposit or withdrawal
/// record — for this client or any other — changes any of its fields.
pub proof fn lemma_locked_is_final(v: LedgerView, t: Tx, c: u16)
    requires
        v.wf(),
        v.accounts.contains_key(c),
        v.accounts[c].locked,
    ensures
        step(v, t).accounts.contains_key(c),
        step(v, t).accounts[c].locked,
        t.tx_type == TxType::Deposit || t.tx_type == TxType::Withdrawal ==> step(v, t).accounts[c]
            == v.accounts[c],
{
}

/// Once an account is locked it stays locked through any further
/// sequence of records.
pub proof fn lemma_locked_stays_locked_over_run(v: LedgerView, ts: Seq<Tx>, c: u16)
    requires
        v.wf(),
        v.accounts.contains_key(c),
        v.accounts[c].locked,
    ensures
        run(v, ts).accounts.contains_key(c),
        run(v, ts).accounts[c].locked,
    decreases ts.len(),
{
    if ts.len() > 0 {
        lemma_step_preserves_wf(v, ts[0]);
        lemma_locked_is_final(v, ts[0], c);
        lemma_locked_stays_locked_over_run(step(v, ts[0]), ts.skip(1), c);
    }
}

/// Replaying a resolve for a record that is not under an open dispute
/// cannot corrupt the ledger. The chosen policy is a well-defined
/// reversal: an unknown id leaves the state untouched, and a known id
/// moves the record's amount from held back to available on its owner's
/// account — total untouched — or does nothing when the sums would leave
/// the 128-bit range. The state stays well formed either way.
pub proof fn lemma_resolve_any_time_safe(v: LedgerView, id: u32, a: u64)
    requires
        v.wf(),
        v.txs.contains_key(id) ==> v.txs[id].amount == Some(a),
    ensures
        step_resolve(v, id).wf(),
        !v.txs.contains_key(id) ==> step_resolve(v, id) == v,
        v.txs.contains_key(id) ==> {
            let acct = v.accounts[v.txs[id].client];
            let r = step_resolve(v, id);
            if acct.available + a <= i128::MAX && acct.held - a >= i128::MIN {
                &&& r.accounts[v.txs[id].client].available == acct.available + a
                &&& r.accounts[v.txs[id].client].held == acct.held - a
                &&& r.accounts[v.txs[id].client].total == acct.total
                &&& forall|c2: u16|
                    c2 != v.txs[id].client && #[trigger] v.accounts.contains_key(c2)
                        ==> r.accounts[c2] == v.accounts[c2]
            } else {
                r == v
            }
        },
{
    lemma_step_preserves_wf(v, Tx { tx_type: TxType::Resolve, tx_id: id, client: 0, amount: None });
}

/// Dispute then resolve on the same record restores available and held to
/// their pre-dispute values, and total is unchanged throughout — provided
/// the dispute itself stays in the 128-bit range (the reversal then always
/// does).
pub proof fn lemma_dispute_resolve_round_trip(v: LedgerView, id: u32, a: u64)
    requires
        v.wf(),
        v.txs.contains_key(id),
        v.txs[id].amount == Some(a),
        v.accounts[v.txs[id].client].available - a >= i128::MIN,
        v.accounts[v.txs[id].client].held + a <= i128::MAX,
    ensures
        ({
            let c = v.txs[id].client;
            let s1 = step_dispute(v, id);
            let s2 = step_resolve(s1, id);
            &&& s1.accounts[c].total == v.accounts[c].total
            &&& s2.accounts[c].total == v.accounts[c].total
            &&& s2.accounts[c].available == v.accounts[c].available
            &&& s2.accounts[c].held == v.accounts[c].held
            &&& s2.accounts[c].locked == v.accounts[c].locked
        }),
{
}

} // verus!
