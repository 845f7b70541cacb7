//! Plain data carried through the ledger: identifiers, fixed-point amounts,
//! transaction records and the per-client ledger state.
use std::collections::{HashMap, HashSet};
use vstd::prelude::*;

use crate::ledger::{ledger_ok, Ledger};

verus! {

/// Number of amount units in one whole currency unit (four decimal places).
pub const AMOUNT_SCALE: i64 = 10000;

#[derive(Debug, Clone, Copy, PartialEq, Eq, Structural)]
pub enum TransactionType {
    Deposit,
    Withdrawal,
    Dispute,
    Resolve,
    Chargeback,
}

#[derive(Default, Debug, Eq, PartialEq, Structural, Hash, Copy, Clone)]
pub struct ClientId {
    pub value: u16,
}

#[derive(Default, Debug, Eq, PartialEq, Structural, Hash, Copy, Clone)]
pub struct TransactionId {
    pub value: u32,
}

/// A signed fixed-point quantity, counted in ten-thousandths of a unit.
#[derive(Default, Debug, Eq, PartialEq, Structural, Copy, Clone)]
pub struct Amount {
    pub value: i64,
}

impl Amount {
    /// The same quantity with the opposite sign.
    pub fn get_flipped_value(self) -> (r: Amount)
        requires
            self.value != i64::MIN,
        ensures
            r.value == -self.value,
    {
        Amount { value: -self.value }
    }
}

#[derive(Debug, Clone, Copy, PartialEq, Eq, Structural)]
pub struct PaymentRecord {
    pub transaction_type: TransactionType,
    pub client: ClientId,
    pub tx: TransactionId,
    pub amount: Option<Amount>,
}

/// The ledger of one client. `previous_processed_transactions` maps each applied
/// deposit or withdrawal to its signed amount (negative for a withdrawal);
/// `contested_transactions` holds the transaction ids currently under dispute.
#[derive(Debug)]
pub struct ClientSummary {
    pub available: Amount,
    pub held: Amount,
    pub locked: bool,
    pub previous_processed_transactions: HashMap<u32, Amount>,
    pub contested_transactions: HashSet<u32>,
}

impl View for ClientSummary {
    type V = Ledger;

    open spec fn view(&self) -> Ledger {
        Ledger {
            available: self.available.value as int,
            held: self.held.value as int,
            locked: self.locked,
            applied: self.previous_processed_transactions@.map_values(|a: Amount| a.value as int),
            disputed: self.contested_transactions@,
        }
    }
}

impl ClientSummary {
    /// A fresh ledger: no funds, unlocked, nothing applied or disputed.
    pub fn new() -> (r: ClientSummary)
        ensures
            r@ == Ledger::empty(),
            r.wf(),
    {
        let r = ClientSummary {
            available: Amount { value: 0 },
            held: Amount { value: 0 },
            locked: false,
            previous_processed_transactions: HashMap::new(),
            contested_transactions: HashSet::new(),
        };
        assert(r@.applied =~= Map::empty());
        r
    }

    /// The balances and their sum fit the amount representation.
    pub open spec fn wf(&self) -> bool {
        ledger_ok(self@)
    }

    /// The total balance, `available + held`.
    pub fn total(&self) -> (r: Amount)
        requires
            self.wf(),
        ensures
            r.value == self.available.value + self.held.value,
            r.value == self@.total(),
    {
        Amount { value: self.available.value + self.held.value }
    }
}

/// The validated records of one client, in arrival order, with its ledger.
#[derive(Debug)]
pub struct ClientTransactions {
    pub client: ClientId,
    pub transactions: Vec<PaymentRecord>,
    pub client_summary: ClientSummary,
}

} // verus!
