//! The reference domain for the engine: a sender/receiver balance pair, a
//! debiting and a crediting operation, and the transfer-fee schedule.

use vstd::prelude::*;

use crate::tx::{all_enabled, apply_all, TxError, TxOp, TxResult};

verus! {

/// The shared state the example operations mutate: two account balances.
#[derive(Debug, Clone, Copy, PartialEq, Eq, Structural)]
pub struct TxData {
    pub sender: u32,
    pub receiver: u32,
}

/// Debits the sender account by a fixed amount; fails on insufficient funds.
#[derive(Debug, Clone, Copy)]
pub struct OpDebitSender {
    pub amount: u32,
}

impl OpDebitSender {
    /// An operation that will subtract `amount` from the sender balance.
    pub fn new(amount: u32) -> (r: Self)
        ensures
            r.amount == amount,
    {
        OpDebitSender { amount }
    }
}

impl TxOp for OpDebitSender {
    type TxState = TxData;

    open spec fn enabled(&self, s: TxData) -> bool {
        s.sender >= self.amount
    }

    open spec fn effect(&self, s: TxData) -> TxData {
        TxData { sender: (s.sender - self.amount) as u32, receiver: s.receiver }
    }

    open spec fn undo(&self, s: TxData) -> TxData {
        TxData { sender: (s.sender + self.amount) as u32, receiver: s.receiver }
    }

    open spec fn failure_reason(&self) -> Seq<char> {
        "Insufficient funds"@
    }

    proof fn undo_inverts(&self, s: TxData) {
    }

    fn apply(&self, state: &mut TxData) -> (r: TxResult) {
        if state.sender < self.amount {
            return Err(TxError::new("Insufficient funds"));
        }
        state.sender = state.sender - self.amount;
        Ok(())
    }

    fn rollback(&self, state: &mut TxData) {
        proof {
            let p = choose|p: TxData| self.enabled(p) && self.effect(p) == *state;
            assert(state.sender + self.amount == p.sender);
        }
        state.sender = state.sender + self.amount;
    }
}

/// Credits the receiver account with a fixed amount; fails only when the
/// receiver balance cannot hold the sum.
#[derive(Debug, Clone, Copy)]
pub struct OpCreditReceiver {
    pub amount: u32,
}

impl OpCreditReceiver {
    /// An operation that will add `amount` to the receiver balance.
    pub fn new(amount: u32) -> (r: Self)
        ensures
            r.amount == amount,
    {
        OpCreditReceiver { amount }
    }
}

impl TxOp for OpCreditReceiver {
    type TxState = TxData;

    open spec fn enabled(&self, s: TxData) -> bool {
        s.receiver + self.amount <= u32::MAX
    }

    open spec fn effect(&self, s: TxData) -> TxData {
        TxData { sender: s.sender, receiver: (s.receiver + self.amount) as u32 }
    }

    open spec fn undo(&self, s: TxData) -> TxData {
        TxData { sender: s.sender, receiver: (s.receiver - self.amount) as u32 }
    }

    open spec fn failure_reason(&self) -> Seq<char> {
        "Balance overflow"@
    }

    proof fn undo_inverts(&self, s: TxData) {
    }

    fn apply(&self, state: &mut TxData) -> (r: TxResult) {
        if self.amount > u32::MAX - state.receiver {
            return Err(TxError::new("Balance overflow"));
        }
        state.receiver = state.receiver + self.amount;
        Ok(())
    }

    fn rollback(&self, state: &mut TxData) {
        proof {
            let p = choose|p: TxData| self.enabled(p) && self.effect(p) == *state;
            assert(state.receiver >= self.amount);
        }
        state.receiver = state.receiver - self.amount;
    }
}

/// One heterogeneous operation over the account pair, so that a single
/// transaction can mix debits and credits.
#[derive(Debug, Clone, Copy)]
pub enum AccountOp {
    Debit(OpDebitSender),
    Credit(OpCreditReceiver),
}

impl TxOp for AccountOp {
    type TxState = TxData;

    open spec fn enabled(&self, s: TxData) -> bool {
        match self {
            AccountOp::Debit(op) => op.enabled(s),
            AccountOp::Credit(op) => op.enabled(s),
        }
    }

    open spec fn effect(&self, s: TxData) -> TxData {
        match self {
            AccountOp::Debit(op) => op.effect(s),
            AccountOp::Credit(op) => op.effect(s),
        }
    }

    open spec fn undo(&self, s: TxData) -> TxData {
        match self {
            AccountOp::Debit(op) => op.undo(s),
            AccountOp::Credit(op) => op.undo(s),
        }
    }

    open spec fn failure_reason(&self) -> Seq<char> {
        match self {
            AccountOp::Debit(op) => op.failure_reason(),
            AccountOp::Credit(op) => op.failure_reason(),
        }
    }

    proof fn undo_inverts(&self, s: TxData) {
        match self {
            AccountOp::Debit(op) => op.undo_inverts(s),
            AccountOp::Credit(op) => op.undo_inverts(s),
        }
    }

    fn apply(&self, state: &mut TxData) -> (r: TxResult) {
        match self {
            AccountOp::Debit(op) => op.apply(state),
            AccountOp::Credit(op) => op.apply(state),
        }
    }

    fn rollback(&self, state: &mut TxData) {
        match self {
            AccountOp::Debit(op) => op.rollback(state),
            AccountOp::Credit(op) => op.rollback(state),
        }
    }
}

/// The fee owed for transferring `val`: a bracketed schedule with a
/// proportional tail.
pub open spec fn fee_for(val: u32) -> u32 {
    if val <= 10 {
        2
    } else if val <= 100 {
        5
    } else if val <= 500 {
        10
    } else {
        val / 50
    }
}

/// Computes the transfer fee for `val` according to the bracket schedule.
pub fn tx_fees(val: u32) -> (r: u32)
    ensures
        r == fee_for(val),
{
    if val <= 10 {
        2
    } else if val <= 100 {
        5
    } else if val <= 500 {
        10
    } else {
        val / 50
    }
}

/// The sum of all amounts debited from the sender by `ops`.
pub open spec fn debit_total(ops: Seq<AccountOp>) -> int
    decreases ops.len(),
{
    if ops.len() == 0 {
        0
    } else {
        (match ops[0] {
            AccountOp::Debit(op) => op.amount as int,
            AccountOp::Credit(_) => 0,
        }) + debit_total(ops.drop_first())
    }
}

/// The sum of all amounts credited to the receiver by `ops`.
pub open spec fn credit_total(ops: Seq<AccountOp>) -> int
    decreases ops.len(),
{
    if ops.len() == 0 {
        0
    } else {
        (match ops[0] {
            AccountOp::Credit(op) => op.amount as int,
            AccountOp::Debit(_) => 0,
        }) + credit_total(ops.drop_first())
    }
}

/// A transaction that goes through moves the balances by exactly its sums:
/// the sender loses every debited amount, the receiver gains every credited
/// amount, and nothing else changes.
pub proof fn lemma_success_balance_totals(ops: Seq<AccountOp>, s: TxData)
    requires
        all_enabled(ops, s),
    ensures
        apply_all(ops, s).sender == s.sender - debit_total(ops),
        apply_all(ops, s).receiver == s.receiver + credit_total(ops),
    decreases ops.len(),
{
    if ops.len() > 0 {
        let e0 = ops[0].effect(s);
        lemma_success_balance_totals(ops.drop_first(), e0);
    }
}

/// The state left behind by running the transactions of `txs` one after
/// another, each against the state the previous ones left: exactly what the
/// exclusive lock enforces when several callers share one state.
pub open spec fn serial_outcome(txs: Seq<Seq<AccountOp>>, s: TxData) -> TxData
    decreases txs.len(),
{
    if txs.len() == 0 {
        s
    } else {
        serial_outcome(txs.drop_first(), crate::tx::outcome_state(txs[0], s))
    }
}

/// The sum of the debits of exactly those transactions in `txs` that go
/// through, each judged against the state the previous ones left.
pub open spec fn serial_debit_total(txs: Seq<Seq<AccountOp>>, s: TxData) -> int
    decreases txs.len(),
{
    if txs.len() == 0 {
        0
    } else {
        (if all_enabled(txs[0], s) {
            debit_total(txs[0])
        } else {
            0
        }) + serial_debit_total(txs.drop_first(), crate::tx::outcome_state(txs[0], s))
    }
}

/// The sum of the credits of exactly those transactions in `txs` that go
/// through, each judged against the state the previous ones left.
pub open spec fn serial_credit_total(txs: Seq<Seq<AccountOp>>, s: TxData) -> int
    decreases txs.len(),
{
    if txs.len() == 0 {
        0
    } else {
        (if all_enabled(txs[0], s) {
            credit_total(txs[0])
        } else {
            0
        }) + serial_credit_total(txs.drop_first(), crate::tx::outcome_state(txs[0], s))
    }
}

/// Serialized transactions never lose an update and never leak a partial
/// one: after any number of transactions run one at a time against the same
/// pair, the sender balance is the initial one minus the debits of exactly
/// the successful transactions, and the receiver balance is the initial one
/// plus their credits. A failed transaction contributes nothing at all.
pub proof fn lemma_serialized_conservation(txs: Seq<Seq<AccountOp>>, s: TxData)
    ensures
        serial_outcome(txs, s).sender == s.sender - serial_debit_total(txs, s),
        serial_outcome(txs, s).receiver == s.receiver + serial_credit_total(txs, s),
    decreases txs.len(),
{
    if txs.len() > 0 {
        let next = crate::tx::outcome_state(txs[0], s);
        if all_enabled(txs[0], s) {
            lemma_success_balance_totals(txs[0], s);
        }
        lemma_serialized_conservation(txs.drop_first(), next);
    }
}

} // verus!
