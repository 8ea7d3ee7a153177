use atomic_tx::account::{tx_fees, AccountOp, OpCreditReceiver, OpDebitSender, TxData};
use atomic_tx::tx::{run, TxError, TxOp};

fn debit(amount: u32) -> AccountOp {
    AccountOp::Debit(OpDebitSender::new(amount))
}

fn credit(amount: u32) -> AccountOp {
    AccountOp::Credit(OpCreditReceiver::new(amount))
}

#[test]
fn empty_pipeline_succeeds() {
    let ops: Vec<AccountOp> = vec![];
    let mut state = TxData { sender: 10, receiver: 20 };
    let r = run(&ops, &mut state);
    assert!(r.is_ok());
    assert_eq!(state, TxData { sender: 10, receiver: 20 });
}

#[test]
fn debit_credit_transfer() {
    let ops = vec![debit(2), debit(8), credit(8)];
    let mut state = TxData { sender: 10, receiver: 20 };
    let r = run(&ops, &mut state);
    assert!(r.is_ok());
    assert_eq!(state, TxData { sender: 0, receiver: 28 });
}

#[test]
fn insufficient_funds_rolls_back() {
    let ops = vec![debit(10), debit(90)];
    let mut state = TxData { sender: 80, receiver: 100 };
    let r = run(&ops, &mut state);
    match r {
        Err((completed, e)) => {
            assert_eq!(completed, 1);
            assert_eq!(e.description(), "Insufficient funds");
        }
        Ok(()) => panic!("the second debit must fail"),
    }
    assert_eq!(state, TxData { sender: 80, receiver: 100 });
}

#[test]
fn failure_after_two_ops_restores_state() {
    let ops = vec![debit(5), credit(7), debit(1000)];
    let mut state = TxData { sender: 10, receiver: 0 };
    let r = run(&ops, &mut state);
    match r {
        Err((completed, e)) => {
            assert_eq!(completed, 2);
            assert_eq!(e.description(), "Insufficient funds");
        }
        Ok(()) => panic!("the last debit must fail"),
    }
    assert_eq!(state, TxData { sender: 10, receiver: 0 });
}

#[test]
fn first_op_failure_completes_none() {
    let ops = vec![debit(1)];
    let mut state = TxData { sender: 0, receiver: 0 };
    let r = run(&ops, &mut state);
    match r {
        Err((completed, e)) => {
            assert_eq!(completed, 0);
            assert_eq!(e.description(), "Insufficient funds");
        }
        Ok(()) => panic!("debiting an empty account must fail"),
    }
    assert_eq!(state, TxData { sender: 0, receiver: 0 });
}

#[test]
fn credit_overflow_fails() {
    let ops = vec![credit(1)];
    let mut state = TxData { sender: 5, receiver: u32::MAX };
    let r = run(&ops, &mut state);
    match r {
        Err((completed, e)) => {
            assert_eq!(completed, 0);
            assert_eq!(e.description(), "Balance overflow");
        }
        Ok(()) => panic!("the credit cannot fit"),
    }
    assert_eq!(state, TxData { sender: 5, receiver: u32::MAX });
}

#[test]
fn credit_overflow_mid_pipeline_rolls_back() {
    let ops = vec![debit(3), credit(6)];
    let mut state = TxData { sender: 10, receiver: u32::MAX - 5 };
    let r = run(&ops, &mut state);
    match r {
        Err((completed, e)) => {
            assert_eq!(completed, 1);
            assert_eq!(e.description(), "Balance overflow");
        }
        Ok(()) => panic!("the credit cannot fit"),
    }
    assert_eq!(state, TxData { sender: 10, receiver: u32::MAX - 5 });
}

#[test]
fn serialized_transfers_reach_the_summed_balances() {
    // Four transfers against one shared pair, run one at a time, as the
    // exclusive lock admits them.
    let mut state = TxData { sender: 200, receiver: 305 };
    for i in 0..4u32 {
        let transfer = 10 * i;
        let ops = vec![debit(tx_fees(transfer)), debit(transfer), credit(transfer)];
        let r = run(&ops, &mut state);
        assert!(r.is_ok());
    }
    // Fees: 2 + 2 + 5 + 5; transfers: 0 + 10 + 20 + 30.
    assert_eq!(state, TxData { sender: 126, receiver: 365 });
}

#[test]
fn serialized_transfers_in_another_order_agree() {
    let mut state = TxData { sender: 200, receiver: 305 };
    for i in [3u32, 1, 0, 2] {
        let transfer = 10 * i;
        let ops = vec![debit(tx_fees(transfer)), debit(transfer), credit(transfer)];
        let r = run(&ops, &mut state);
        assert!(r.is_ok());
    }
    assert_eq!(state, TxData { sender: 126, receiver: 365 });
}

#[test]
fn fee_schedule_brackets() {
    assert_eq!(tx_fees(0), 2);
    assert_eq!(tx_fees(10), 2);
    assert_eq!(tx_fees(11), 5);
    assert_eq!(tx_fees(100), 5);
    assert_eq!(tx_fees(101), 10);
    assert_eq!(tx_fees(500), 10);
    assert_eq!(tx_fees(501), 10);
    assert_eq!(tx_fees(1000), 20);
    assert_eq!(tx_fees(5000), 100);
}

#[test]
fn error_carries_its_description() {
    let e = TxError::new("Insufficient funds");
    assert_eq!(e.description(), "Insufficient funds");
}

#[test]
fn debit_apply_and_rollback_invert() {
    let op = OpDebitSender::new(4);
    let mut state = TxData { sender: 10, receiver: 1 };
    assert!(op.apply(&mut state).is_ok());
    assert_eq!(state, TxData { sender: 6, receiver: 1 });
    op.rollback(&mut state);
    assert_eq!(state, TxData { sender: 10, receiver: 1 });
}

#[test]
fn credit_apply_and_rollback_invert() {
    let op = OpCreditReceiver::new(7);
    let mut state = TxData { sender: 3, receiver: 20 };
    assert!(op.apply(&mut state).is_ok());
    assert_eq!(state, TxData { sender: 3, receiver: 27 });
    op.rollback(&mut state);
    assert_eq!(state, TxData { sender: 3, receiver: 20 });
}

#[test]
fn failed_debit_leaves_state_untouched() {
    let op = OpDebitSender::new(5);
    let mut state = TxData { sender: 3, receiver: 0 };
    let r = op.apply(&mut state);
    match r {
        Err(e) => assert_eq!(e.description(), "Insufficient funds"),
        Ok(()) => panic!("the debit must fail"),
    }
    assert_eq!(state, TxData { sender: 3, receiver: 0 });
}
