use payments_engine::data_models::{
    Amount, ClientId, ClientSummary, PaymentRecord, TransactionId, TransactionType,
};
use payments_engine::ledger::{Outcome, RejectReason};
use payments_engine::transactions::process_transaction;

fn rec(t: TransactionType, tx: u32, amount: Option<i64>) -> PaymentRecord {
    PaymentRecord {
        transaction_type: t,
        client: ClientId { value: 1 },
        tx: TransactionId { value: tx },
        amount: amount.map(|value| Amount { value }),
    }
}

fn apply(s: &mut ClientSummary, r: PaymentRecord) -> Outcome {
    process_transaction(s, &r)
}

#[test]
fn balance_identity_holds_after_each_step() {
    let mut s = ClientSummary::new();
    let steps = vec![
        rec(TransactionType::Deposit, 1, Some(100_000)),
        rec(TransactionType::Withdrawal, 2, Some(30_000)),
        rec(TransactionType::Dispute, 1, None),
        rec(TransactionType::Resolve, 1, None),
        rec(TransactionType::Dispute, 2, None),
    ];
    for r in steps {
        apply(&mut s, r);
        assert_eq!(s.total().value, s.available.value + s.held.value);
    }
    assert_eq!(s.available.value, 100_000);
    assert_eq!(s.held.value, -30_000);
    assert_eq!(s.total().value, 70_000);
}

#[test]
fn replayed_deposit_and_withdrawal_are_rejected() {
    let mut s = ClientSummary::new();
    assert_eq!(apply(&mut s, rec(TransactionType::Deposit, 1, Some(50_000))), Outcome::Applied);
    assert_eq!(
        apply(&mut s, rec(TransactionType::Deposit, 1, Some(50_000))),
        Outcome::Rejected(RejectReason::DuplicateTransaction)
    );
    assert_eq!(apply(&mut s, rec(TransactionType::Withdrawal, 2, Some(10_000))), Outcome::Applied);
    assert_eq!(
        apply(&mut s, rec(TransactionType::Withdrawal, 2, Some(10_000))),
        Outcome::Rejected(RejectReason::DuplicateTransaction)
    );
    assert_eq!(s.available.value, 40_000);
    assert_eq!(s.previous_processed_transactions.len(), 2);
}

#[test]
fn dispute_then_resolve_restores_the_ledger() {
    let mut s = ClientSummary::new();
    apply(&mut s, rec(TransactionType::Deposit, 1, Some(100_000)));
    assert_eq!(apply(&mut s, rec(TransactionType::Dispute, 1, None)), Outcome::Applied);
    assert_eq!(s.available.value, 0);
    assert_eq!(s.held.value, 100_000);
    assert_eq!(apply(&mut s, rec(TransactionType::Resolve, 1, None)), Outcome::Applied);
    assert_eq!(s.available.value, 100_000);
    assert_eq!(s.held.value, 0);
    assert!(!s.locked);
    assert!(s.contested_transactions.is_empty());
}

#[test]
fn dispute_then_chargeback_locks_the_account() {
    let mut s = ClientSummary::new();
    apply(&mut s, rec(TransactionType::Deposit, 1, Some(100_000)));
    apply(&mut s, rec(TransactionType::Dispute, 1, None));
    assert_eq!(apply(&mut s, rec(TransactionType::Chargeback, 1, None)), Outcome::Applied);
    assert_eq!(s.available.value, 0);
    assert_eq!(s.held.value, 0);
    assert!(s.locked);
}

#[test]
fn withdrawal_beyond_funds_is_rejected() {
    let mut s = ClientSummary::new();
    apply(&mut s, rec(TransactionType::Deposit, 1, Some(50_000)));
    assert_eq!(
        apply(&mut s, rec(TransactionType::Withdrawal, 2, Some(100_000))),
        Outcome::Rejected(RejectReason::InsufficientFunds)
    );
    assert_eq!(s.available.value, 50_000);
    assert!(!s.locked);
    assert!(!s.previous_processed_transactions.contains_key(&2));
}

#[test]
fn dispute_of_unknown_transaction_is_recorded() {
    let mut s = ClientSummary::new();
    apply(&mut s, rec(TransactionType::Deposit, 1, Some(50_000)));
    assert_eq!(apply(&mut s, rec(TransactionType::Dispute, 99, None)), Outcome::Applied);
    assert_eq!(s.available.value, 50_000);
    assert_eq!(s.held.value, 0);
    assert!(s.contested_transactions.contains(&99));
    assert_eq!(
        apply(&mut s, rec(TransactionType::Dispute, 99, None)),
        Outcome::Rejected(RejectReason::AlreadyDisputed)
    );
}

#[test]
fn resolve_and_chargeback_need_a_dispute() {
    let mut s = ClientSummary::new();
    apply(&mut s, rec(TransactionType::Deposit, 1, Some(50_000)));
    assert_eq!(
        apply(&mut s, rec(TransactionType::Resolve, 1, None)),
        Outcome::Rejected(RejectReason::NotDisputed)
    );
    assert_eq!(
        apply(&mut s, rec(TransactionType::Chargeback, 1, None)),
        Outcome::Rejected(RejectReason::NotDisputed)
    );
    assert!(!s.locked);
    assert_eq!(s.available.value, 50_000);
}

#[test]
fn deposit_without_amount_is_rejected_by_the_processor() {
    let mut s = ClientSummary::new();
    assert_eq!(
        apply(&mut s, rec(TransactionType::Deposit, 1, None)),
        Outcome::Rejected(RejectReason::MissingAmount)
    );
    assert_eq!(s.available.value, 0);
}

#[test]
fn overflowing_deposit_is_rejected() {
    let mut s = ClientSummary::new();
    apply(&mut s, rec(TransactionType::Deposit, 1, Some(i64::MAX)));
    assert_eq!(
        apply(&mut s, rec(TransactionType::Deposit, 2, Some(1))),
        Outcome::Rejected(RejectReason::Overflow)
    );
    assert_eq!(s.available.value, i64::MAX);
}

#[test]
fn locked_account_still_takes_deposits() {
    let mut s = ClientSummary::new();
    apply(&mut s, rec(TransactionType::Deposit, 1, Some(10_000)));
    apply(&mut s, rec(TransactionType::Dispute, 1, None));
    apply(&mut s, rec(TransactionType::Chargeback, 1, None));
    assert_eq!(apply(&mut s, rec(TransactionType::Deposit, 2, Some(20_000))), Outcome::Applied);
    assert!(s.locked);
    assert_eq!(s.available.value, 20_000);
}

#[test]
fn flipped_amount() {
    assert_eq!(Amount { value: 15_000 }.get_flipped_value().value, -15_000);
}
