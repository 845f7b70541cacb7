//! The mathematical model of a client ledger and the transition rules that the
//! processor follows, with the laws they obey.
use vstd::prelude::*;

use crate::data_models::{Amount, PaymentRecord, TransactionType};

verus! {

/// A client ledger as mathematical values.
pub struct Ledger {
    pub available: int,
    pub held: int,
    pub locked: bool,
    /// Signed amount of each applied deposit (positive) or withdrawal (negative).
    pub applied: Map<u32, int>,
    /// Transactions currently under dispute.
    pub disputed: Set<u32>,
}

impl Ledger {
    pub open spec fn empty() -> Ledger {
        Ledger { available: 0, held: 0, locked: false, applied: Map::empty(), disputed: Set::empty() }
    }

    pub open spec fn total(self) -> int {
        self.available + self.held
    }
}

/// Why a record was skipped without changing the ledger.
#[derive(Debug, Clone, Copy, PartialEq, Eq, Structural)]
pub enum RejectReason {
    /// A deposit or withdrawal carried no amount.
    MissingAmount,
    /// A deposit or withdrawal reused a transaction id already applied.
    DuplicateTransaction,
    /// A withdrawal asked for more than the total balance.
    InsufficientFunds,
    /// A dispute named a transaction already under dispute.
    AlreadyDisputed,
    /// A resolve or chargeback named a transaction not under dispute.
    NotDisputed,
    /// The new balances would not fit the amount representation.
    Overflow,
}

/// The result of offering one record to a ledger.
#[derive(Debug, Clone, Copy, PartialEq, Eq, Structural)]
pub enum Outcome {
    Applied,
    Rejected(RejectReason),
}

pub open spec fn fits_i64(v: int) -> bool {
    i64::MIN <= v <= i64::MAX
}

/// Balances, and their sum, are representable.
pub open spec fn ledger_ok(l: Ledger) -> bool {
    fits_i64(l.available) && fits_i64(l.held) && fits_i64(l.available + l.held)
}

/// Accept `n` if it is representable, else keep `l` and report an overflow.
pub open spec fn commit(l: Ledger, n: Ledger) -> (Ledger, Outcome) {
    if ledger_ok(n) {
        (n, Outcome::Applied)
    } else {
        (l, Outcome::Rejected(RejectReason::Overflow))
    }
}

/// The effect of one record on a ledger, and the outcome reported.
pub open spec fn step(l: Ledger, r: PaymentRecord) -> (Ledger, Outcome) {
    let t = r.tx.value;
    match r.transaction_type {
        TransactionType::Deposit => match r.amount {
            None => (l, Outcome::Rejected(RejectReason::MissingAmount)),
            Some(a) => if l.applied.contains_key(t) {
                (l, Outcome::Rejected(RejectReason::DuplicateTransaction))
            } else {
                commit(l, Ledger {
                    available: l.available + a.value,
                    applied: l.applied.insert(t, a.value as int),
                    ..l
                })
            },
        },
        TransactionType::Withdrawal => match r.amount {
            None => (l, Outcome::Rejected(RejectReason::MissingAmount)),
            Some(a) => if l.total() < a.value {
                (l, Outcome::Rejected(RejectReason::InsufficientFunds))
            } else if l.applied.contains_key(t) {
                (l, Outcome::Rejected(RejectReason::DuplicateTransaction))
            } else if a.value == i64::MIN {
                (l, Outcome::Rejected(RejectReason::Overflow))
            } else {
                commit(l, Ledger {
                    available: l.available - a.value,
                    applied: l.applied.insert(t, -a.value),
                    ..l
                })
            },
        },
        TransactionType::Dispute => if l.disputed.contains(t) {
            (l, Outcome::Rejected(RejectReason::AlreadyDisputed))
        } else if l.applied.contains_key(t) {
            let v = l.applied[t];
            commit(l, Ledger {
                available: l.available - v,
                held: l.held + v,
                disputed: l.disputed.insert(t),
                ..l
            })
        } else {
            (Ledger { disputed: l.disputed.insert(t), ..l }, Outcome::Applied)
        },
        TransactionType::Resolve => if !l.disputed.contains(t) {
            (l, Outcome::Rejected(RejectReason::NotDisputed))
        } else if l.applied.contains_key(t) {
            let v = l.applied[t];
            commit(l, Ledger {
                available: l.available + v,
                held: l.held - v,
                disputed: l.disputed.remove(t),
                ..l
            })
        } else {
            (Ledger { disputed: l.disputed.remove(t), ..l }, Outcome::Applied)
        },
        TransactionType::Chargeback => if !l.disputed.contains(t) {
            (l, Outcome::Rejected(RejectReason::NotDisputed))
        } else if l.applied.contains_key(t) {
            let v = l.applied[t];
            commit(l, Ledger {
                held: l.held - v,
                locked: true,
                disputed: l.disputed.remove(t),
                ..l
            })
        } else {
            (Ledger { disputed: l.disputed.remove(t), ..l }, Outcome::Applied)
        },
    }
}

/// The ledger after applying `rs` in order, starting from `l`.
pub open spec fn run(l: Ledger, rs: Seq<PaymentRecord>) -> Ledger
    decreases rs.len(),
{
    if rs.len() == 0 {
        l
    } else {
        step(run(l, rs.drop_last()), rs.last()).0
    }
}

/// One step keeps the balances, and their sum, representable.
pub proof fn lemma_step_keeps_ledger_ok(l: Ledger, r: PaymentRecord)
    requires
        ledger_ok(l),
    ensures
        ledger_ok(step(l, r).0),
{
}

/// At every point of processing, the balances of a ledger fit the amount
/// representation, so its total is always `available + held`.
pub proof fn lemma_balance_identity(l: Ledger, rs: Seq<PaymentRecord>)
    requires
        ledger_ok(l),
    ensures
        ledger_ok(run(l, rs)),
        fits_i64(run(l, rs).total()),
        run(l, rs).total() == run(l, rs).available + run(l, rs).held,
    decreases rs.len(),
{
    if rs.len() > 0 {
        lemma_balance_identity(l, rs.drop_last());
        lemma_step_keeps_ledger_ok(run(l, rs.drop_last()), rs.last());
    }
}

/// Offering the same deposit or withdrawal twice leaves the ledger as offering
/// it once; the second offer is always rejected.
pub proof fn lemma_duplicate_replay(l: Ledger, r: PaymentRecord)
    requires
        ledger_ok(l),
        r.transaction_type is Deposit || r.transaction_type is Withdrawal,
    ensures
        step(step(l, r).0, r).0 == step(l, r).0,
        step(step(l, r).0, r).1 is Rejected,
{
}

/// A dispute followed by a resolve of the same transaction, when the
/// transaction was not already under dispute, restores the ledger exactly.
pub proof fn lemma_dispute_resolve_round_trip(l: Ledger, d: PaymentRecord, s: PaymentRecord)
    requires
        ledger_ok(l),
        d.transaction_type is Dispute,
        s.transaction_type is Resolve,
        d.tx == s.tx,
        !l.disputed.contains(d.tx.value),
    ensures
        step(step(l, d).0, s).0 == l,
{
    let t = d.tx.value;
    assert(l.disputed.insert(t).remove(t) =~= l.disputed);
}

/// A dispute followed by a chargeback of the same applied transaction removes
/// its amount from the available balance, leaves the held balance as before the
/// dispute, and locks the account.
pub proof fn lemma_dispute_chargeback(l: Ledger, d: PaymentRecord, c: PaymentRecord)
    requires
        ledger_ok(l),
        d.transaction_type is Dispute,
        c.transaction_type is Chargeback,
        d.tx == c.tx,
        l.applied.contains_key(d.tx.value),
        !l.disputed.contains(d.tx.value),
        step(l, d).1 is Applied,
        fits_i64(l.total() - l.applied[d.tx.value]),
    ensures
        ({
            let after = step(step(l, d).0, c);
            &&& after.1 is Applied
            &&& after.0.available == l.available - l.applied[d.tx.value]
            &&& after.0.held == l.held
            &&& after.0.locked
            &&& after.0.applied == l.applied
            &&& !after.0.disputed.contains(d.tx.value)
        }),
{
}

/// On a fresh ledger, a deposit then a dispute and a resolve of it leave the
/// deposit available and nothing held, as if the dispute had never occurred.
pub proof fn lemma_deposit_dispute_resolve(dep: PaymentRecord, d: PaymentRecord, s: PaymentRecord)
    requires
        dep.transaction_type is Deposit,
        dep.amount is Some,
        d.transaction_type is Dispute,
        s.transaction_type is Resolve,
        dep.tx == d.tx,
        d.tx == s.tx,
    ensures
        run(Ledger::empty(), seq![dep, d, s]) == run(Ledger::empty(), seq![dep]),
        run(Ledger::empty(), seq![dep]).available == dep.amount->Some_0.value,
        run(Ledger::empty(), seq![dep]).held == 0,
        !run(Ledger::empty(), seq![dep]).locked,
{
    reveal_with_fuel(run, 4);
    assert(seq![dep, d, s].drop_last() =~= seq![dep, d]);
    assert(seq![dep, d].drop_last() =~= seq![dep]);
    assert(seq![dep].drop_last() =~= Seq::<PaymentRecord>::empty());
    let l1 = run(Ledger::empty(), seq![dep]);
    lemma_dispute_resolve_round_trip(l1, d, s);
}

/// On a fresh ledger, a deposit then a dispute and a chargeback of it leave
/// nothing available, nothing held, and the account locked.
pub proof fn lemma_deposit_dispute_chargeback(dep: PaymentRecord, d: PaymentRecord, c: PaymentRecord)
    requires
        dep.transaction_type is Deposit,
        dep.amount is Some,
        d.transaction_type is Dispute,
        c.transaction_type is Chargeback,
        dep.tx == d.tx,
        d.tx == c.tx,
    ensures
        run(Ledger::empty(), seq![dep, d, c]).available == 0,
        run(Ledger::empty(), seq![dep, d, c]).held == 0,
        run(Ledger::empty(), seq![dep, d, c]).locked,
{
    reveal_with_fuel(run, 4);
    assert(seq![dep, d, c].drop_last() =~= seq![dep, d]);
    assert(seq![dep, d].drop_last() =~= seq![dep]);
    assert(seq![dep].drop_last() =~= Seq::<PaymentRecord>::empty());
}

/// A withdrawal of more than the total balance is rejected and changes
/// nothing: in particular its id is not recorded as applied.
pub proof fn lemma_insufficient_funds(l: Ledger, w: PaymentRecord)
    requires
        w.transaction_type is Withdrawal,
        w.amount is Some,
        w.amount->Some_0.value > l.total(),
    ensures
        step(l, w) == (l, Outcome::Rejected(RejectReason::InsufficientFunds)),
        !l.applied.contains_key(w.tx.value) ==> !step(l, w).0.applied.contains_key(w.tx.value),
{
}

/// A dispute of an applied transaction not yet under dispute moves its signed
/// amount from the available to the held balance and records the dispute,
/// wherever the moved balances stay representable.
pub proof fn lemma_dispute_known_target(l: Ledger, d: PaymentRecord)
    requires
        ledger_ok(l),
        d.transaction_type is Dispute,
        l.applied.contains_key(d.tx.value),
        !l.disputed.contains(d.tx.value),
        fits_i64(l.available - l.applied[d.tx.value]),
        fits_i64(l.held + l.applied[d.tx.value]),
    ensures
        step(l, d).1 is Applied,
        step(l, d).0.available == l.available - l.applied[d.tx.value],
        step(l, d).0.held == l.held + l.applied[d.tx.value],
        step(l, d).0.disputed == l.disputed.insert(d.tx.value),
        step(l, d).0.applied == l.applied,
        step(l, d).0.locked == l.locked,
{
}

/// A dispute of a transaction that was never applied is recorded, leaves the
/// balances unchanged, and makes a second dispute of it a rejection.
pub proof fn lemma_unknown_dispute_target(l: Ledger, d: PaymentRecord)
    requires
        d.transaction_type is Dispute,
        !l.applied.contains_key(d.tx.value),
        !l.disputed.contains(d.tx.value),
    ensures
        step(l, d).1 is Applied,
        step(l, d).0.available == l.available,
        step(l, d).0.held == l.held,
        step(l, d).0.locked == l.locked,
        step(l, d).0.disputed.contains(d.tx.value),
        step(step(l, d).0, d) == (step(l, d).0, Outcome::Rejected(RejectReason::AlreadyDisputed)),
{
}

} // verus!
