//! The transaction processor and the record validator.
use vstd::prelude::*;

use crate::data_models::{
    Amount, ClientId, ClientSummary, ClientTransactions, PaymentRecord, TransactionType,
};
use crate::errors::TransactionReaderError;
use crate::ledger::{run, step, Ledger, Outcome, RejectReason};

verus! {

broadcast use vstd::std_specs::hash::group_hash_axioms;

/// Applies one record to a client's ledger, or rejects it and leaves the ledger
/// as it was.
pub fn process_transaction(client_summary: &mut ClientSummary, transaction: &PaymentRecord) -> (r: Outcome)
    requires
        old(client_summary).wf(),
    ensures
        final(client_summary).wf(),
        (final(client_summary)@, r) == step(old(client_summary)@, *transaction),
{
    let t = transaction.tx.value;
    match transaction.transaction_type {
        TransactionType::Deposit => match transaction.amount {
            None => Outcome::Rejected(RejectReason::MissingAmount),
            Some(amount) => {
                if client_summary.previous_processed_transactions.contains_key(&t) {
                    return Outcome::Rejected(RejectReason::DuplicateTransaction);
                }
                let available = client_summary.available.value as i128 + amount.value as i128;
                let total = available + client_summary.held.value as i128;
                if available < i64::MIN as i128 || available > i64::MAX as i128
                    || total < i64::MIN as i128 || total > i64::MAX as i128 {
                    return Outcome::Rejected(RejectReason::Overflow);
                }
                client_summary.available = Amount { value: available as i64 };
                client_summary.previous_processed_transactions.insert(t, amount);
                proof {
                    assert(client_summary@.applied =~= old(client_summary)@.applied.insert(t, amount.value as int));
                }
                Outcome::Applied
            },
        },
        TransactionType::Withdrawal => match transaction.amount {
            None => Outcome::Rejected(RejectReason::MissingAmount),
            Some(amount) => {
                if client_summary.total().value < amount.value {
                    return Outcome::Rejected(RejectReason::InsufficientFunds);
                }
                if client_summary.previous_processed_transactions.contains_key(&t) {
                    return Outcome::Rejected(RejectReason::DuplicateTransaction);
                }
                if amount.value == i64::MIN {
                    return Outcome::Rejected(RejectReason::Overflow);
                }
                let available = client_summary.available.value as i128 - amount.value as i128;
                let total = available + client_summary.held.value as i128;
                if available < i64::MIN as i128 || available > i64::MAX as i128
                    || total < i64::MIN as i128 || total > i64::MAX as i128 {
                    return Outcome::Rejected(RejectReason::Overflow);
                }
                client_summary.available = Amount { value: available as i64 };
                client_summary.previous_processed_transactions.insert(t, amount.get_flipped_value());
                proof {
                    assert(client_summary@.applied =~= old(client_summary)@.applied.insert(t, -amount.value));
                }
                Outcome::Applied
            },
        },
        TransactionType::Dispute => {
            if client_summary.contested_transactions.contains(&t) {
                return Outcome::Rejected(RejectReason::AlreadyDisputed);
            }
            match client_summary.previous_processed_transactions.get(&t) {
                Some(disputed) => {
                    let v = disputed.value;
                    let available = client_summary.available.value as i128 - v as i128;
                    let held = client_summary.held.value as i128 + v as i128;
                    if available < i64::MIN as i128 || available > i64::MAX as i128
                        || held < i64::MIN as i128 || held > i64::MAX as i128 {
                        return Outcome::Rejected(RejectReason::Overflow);
                    }
                    client_summary.available = Amount { value: available as i64 };
                    client_summary.held = Amount { value: held as i64 };
                },
                None => {},
            }
            client_summary.contested_transactions.insert(t);
            Outcome::Applied
        },
        TransactionType::Resolve => {
            if !client_summary.contested_transactions.contains(&t) {
                return Outcome::Rejected(RejectReason::NotDisputed);
            }
            match client_summary.previous_processed_transactions.get(&t) {
                Some(resolved) => {
                    let v = resolved.value;
                    let available = client_summary.available.value as i128 + v as i128;
                    let held = client_summary.held.value as i128 - v as i128;
                    if available < i64::MIN as i128 || available > i64::MAX as i128
                        || held < i64::MIN as i128 || held > i64::MAX as i128 {
                        return Outcome::Rejected(RejectReason::Overflow);
                    }
                    client_summary.available = Amount { value: available as i64 };
                    client_summary.held = Amount { value: held as i64 };
                },
                None => {},
            }
            client_summary.contested_transactions.remove(&t);
            Outcome::Applied
        },
        TransactionType::Chargeback => {
            if !client_summary.contested_transactions.contains(&t) {
                return Outcome::Rejected(RejectReason::NotDisputed);
            }
            match client_summary.previous_processed_transactions.get(&t) {
                Some(charged) => {
                    let held = client_summary.held.value as i128 - charged.value as i128;
                    let total = client_summary.available.value as i128 + held;
                    if held < i64::MIN as i128 || held > i64::MAX as i128
                        || total < i64::MIN as i128 || total > i64::MAX as i128 {
                        return Outcome::Rejected(RejectReason::Overflow);
                    }
                    client_summary.held = Amount { value: held as i64 };
                    client_summary.locked = true;
                },
                None => {},
            }
            client_summary.contested_transactions.remove(&t);
            Outcome::Applied
        },
    }
}

/// The structural error of a record, if any: deposits and withdrawals need an
/// amount, disputes, resolves and chargebacks must not carry one.
pub open spec fn structural_error(r: PaymentRecord) -> Option<TransactionReaderError> {
    match r.transaction_type {
        TransactionType::Withdrawal => if r.amount is None {
            Some(TransactionReaderError::InvalidWithdrawal(r.tx))
        } else {
            None
        },
        TransactionType::Deposit => if r.amount is None {
            Some(TransactionReaderError::InvalidDeposit(r.tx))
        } else {
            None
        },
        TransactionType::Dispute => if r.amount is Some {
            Some(TransactionReaderError::InvalidDisputeFormat(r.tx))
        } else {
            None
        },
        TransactionType::Resolve => if r.amount is Some {
            Some(TransactionReaderError::InvalidResolveFormat(r.tx))
        } else {
            None
        },
        TransactionType::Chargeback => if r.amount is Some {
            Some(TransactionReaderError::InvalidChargebackFormat(r.tx))
        } else {
            None
        },
    }
}

/// Checks that a record carries an amount exactly when its type needs one.
pub fn check_structure(transaction: &PaymentRecord) -> (r: Result<(), TransactionReaderError>)
    ensures
        match r {
            Err(e) => structural_error(*transaction) == Some(e),
            Ok(()) => structural_error(*transaction) is None,
        },
{
    match transaction.transaction_type {
        TransactionType::Withdrawal => if transaction.amount.is_none() {
            return Err(TransactionReaderError::InvalidWithdrawal(transaction.tx));
        },
        TransactionType::Deposit => if transaction.amount.is_none() {
            return Err(TransactionReaderError::InvalidDeposit(transaction.tx));
        },
        TransactionType::Dispute => if transaction.amount.is_some() {
            return Err(TransactionReaderError::InvalidDisputeFormat(transaction.tx));
        },
        TransactionType::Resolve => if transaction.amount.is_some() {
            return Err(TransactionReaderError::InvalidResolveFormat(transaction.tx));
        },
        TransactionType::Chargeback => if transaction.amount.is_some() {
            return Err(TransactionReaderError::InvalidChargebackFormat(transaction.tx));
        },
    }
    Ok(())
}

/// The records of `rs` that belong to client `c`, in order.
pub open spec fn records_of(rs: Seq<PaymentRecord>, c: ClientId) -> Seq<PaymentRecord> {
    rs.filter(|r: PaymentRecord| r.client == c)
}

/// Whether some record of `rs` belongs to client `c`.
pub open spec fn occurs(rs: Seq<PaymentRecord>, c: ClientId) -> bool {
    exists|j: int| 0 <= j < rs.len() && rs[j].client == c
}

/// Whether some entry of the client map belongs to `c`.
pub open spec fn has_client(m: Seq<ClientTransactions>, c: ClientId) -> bool {
    exists|k: int| 0 <= k < m.len() && m[k].client == c
}

/// A client map before processing: one entry per client, each ledger fresh.
pub open spec fn pending_ok(m: Seq<ClientTransactions>) -> bool {
    &&& forall|i: int, j: int| 0 <= i < j < m.len() ==> m[i].client != m[j].client
    &&& forall|i: int| 0 <= i < m.len() ==> m[i].client_summary@ == Ledger::empty()
}

/// Checks a record's structure and, if it is sound, appends it to its client's
/// entry, creating the entry at the end of the map on the client's first record.
pub fn validate_pre_process_record(
    client_map: &mut Vec<ClientTransactions>,
    transaction: PaymentRecord,
) -> (r: Result<(), TransactionReaderError>)
    requires
        pending_ok(old(client_map)@),
    ensures
        pending_ok(final(client_map)@),
        match r {
            Err(e) => structural_error(transaction) == Some(e) && final(client_map)@ == old(client_map)@,
            Ok(()) => structural_error(transaction) is None,
        },
        r is Ok ==> {
            &&& final(client_map)@.len() == old(client_map)@.len() + if has_client(old(client_map)@, transaction.client) { 0int } else { 1int }
            &&& forall|k: int| 0 <= k < old(client_map)@.len() ==> final(client_map)@[k].client == old(client_map)@[k].client
            &&& forall|k: int| old(client_map)@.len() <= k < final(client_map)@.len() ==> final(client_map)@[k].client == transaction.client
            &&& forall|k: int| 0 <= k < final(client_map)@.len() ==> final(client_map)@[k].transactions@ == {
                let prev = if k < old(client_map)@.len() { old(client_map)@[k].transactions@ } else { Seq::empty() };
                if final(client_map)@[k].client == transaction.client { prev.push(transaction) } else { prev }
            }
        },
{
    if let Err(e) = check_structure(&transaction) {
        return Err(e);
    }
    let n = client_map.len();
    let mut i: usize = 0;
    while i < n
        invariant
            n == client_map@.len(),
            client_map@ == old(client_map)@,
            pending_ok(client_map@),
            structural_error(transaction) is None,
            0 <= i <= n,
            forall|k: int| 0 <= k < i ==> client_map@[k].client != transaction.client,
        decreases n - i,
    {
        if client_map[i].client == transaction.client {
            let mut entry = client_map.remove(i);
            entry.transactions.push(transaction);
            let ghost e = entry;
            client_map.insert(i, entry);
            proof {
                assert(client_map@ =~= old(client_map)@.update(i as int, e));
                assert(has_client(old(client_map)@, transaction.client));
            }
            return Ok(());
        }
        i = i + 1;
    }
    let mut transactions: Vec<PaymentRecord> = Vec::new();
    transactions.push(transaction);
    let entry = ClientTransactions {
        client: transaction.client,
        transactions,
        client_summary: ClientSummary::new(),
    };
    let ghost e = entry;
    client_map.push(entry);
    proof {
        assert(client_map@ =~= old(client_map)@.push(e));
        assert(!has_client(old(client_map)@, transaction.client));
    }
    Ok(())
}

/// Validates every record, in order, and groups them by client. The first
/// structurally unsound record aborts the whole grouping with its error.
pub fn group_records(records: &Vec<PaymentRecord>) -> (r: Result<Vec<ClientTransactions>, TransactionReaderError>)
    ensures
        match r {
            Ok(m) => {
                &&& pending_ok(m@)
                &&& forall|j: int| 0 <= j < records@.len() ==> structural_error(#[trigger] records@[j]) is None
                &&& forall|k: int| 0 <= k < m@.len() ==> m@[k].transactions@ == records_of(records@, m@[k].client)
                &&& forall|j: int| 0 <= j < records@.len() ==> has_client(m@, #[trigger] records@[j].client)
                &&& forall|k: int| 0 <= k < m@.len() ==> occurs(records@, #[trigger] m@[k].client)
            },
            Err(e) => exists|j: int| {
                &&& 0 <= j < records@.len()
                &&& structural_error(#[trigger] records@[j]) == Some(e)
                &&& forall|q: int| 0 <= q < j ==> structural_error(#[trigger] records@[q]) is None
            },
        },
{
    let mut client_map: Vec<ClientTransactions> = Vec::new();
    let mut i: usize = 0;
    while i < records.len()
        invariant
            0 <= i <= records@.len(),
            pending_ok(client_map@),
            forall|j: int| 0 <= j < i ==> structural_error(#[trigger] records@[j]) is None,
            forall|k: int| 0 <= k < client_map@.len() ==> client_map@[k].transactions@ == records_of(records@.take(i as int), client_map@[k].client),
            forall|j: int| 0 <= j < i ==> has_client(client_map@, #[trigger] records@[j].client),
            forall|k: int| 0 <= k < client_map@.len() ==> occurs(records@.take(i as int), #[trigger] client_map@[k].client),
        decreases records@.len() - i,
    {
        let rec = records[i];
        let ghost before = client_map@;
        match validate_pre_process_record(&mut client_map, rec) {
            Err(e) => {
                return Err(e);
            },
            Ok(()) => {},
        }
        proof {
            let s = records@.take(i as int + 1);
            assert(s.drop_last() =~= records@.take(i as int));
            assert(s.last() == rec);
            assert forall|k: int| 0 <= k < client_map@.len() implies client_map@[k].transactions@ == records_of(s, client_map@[k].client) by {
                let c = client_map@[k].client;
                let t = records@.take(i as int);
                let p = |r: PaymentRecord| r.client == c;
                reveal(Seq::filter);
                assert(s.filter(p) == if p(s.last()) { s.drop_last().filter(p).push(s.last()) } else { s.drop_last().filter(p) });
                assert(records_of(s, c) == if rec.client == c { records_of(t, c).push(rec) } else { records_of(t, c) });
                if k >= before.len() {
                    assert(!has_client(before, rec.client));
                    assert(records_of(records@.take(i as int), rec.client) =~= Seq::empty()) by {
                        let p = |r: PaymentRecord| r.client == rec.client;
                        let t = records@.take(i as int);
                        assert forall|x: int| 0 <= x < t.len() implies !p(t[x]) by {
                            assert(has_client(before, t[x].client));
                        }
                        t.lemma_all_neg_filter_empty(p);
                    }
                }
            }
            assert forall|k: int| 0 <= k < client_map@.len() implies occurs(s, #[trigger] client_map@[k].client) by {
                if k < before.len() {
                    let c = before[k].client;
                    assert(occurs(records@.take(i as int), c));
                    let j = choose|j: int| 0 <= j < i && records@.take(i as int)[j].client == c;
                    assert(s[j] == records@.take(i as int)[j]);
                } else {
                    assert(s[i as int] == rec);
                }
            }
            assert forall|j: int| 0 <= j <= i implies has_client(client_map@, #[trigger] records@[j].client) by {
                if j < i {
                    let k = choose|k: int| 0 <= k < before.len() && before[k].client == records@[j].client;
                    assert(client_map@[k].client == records@[j].client);
                } else if has_client(before, rec.client) {
                    let k = choose|k: int| 0 <= k < before.len() && before[k].client == rec.client;
                    assert(client_map@[k].client == rec.client);
                } else {
                    assert(client_map@[before.len() as int].client == rec.client);
                }
            }
        }
        i = i + 1;
    }
    proof {
        assert(records@.take(records@.len() as int) =~= records@);
    }
    Ok(client_map)
}

/// Runs every record of one client, in order, through its ledger, and reports
/// the outcome of each.
pub fn process_client_transactions(client: &mut ClientTransactions) -> (r: Vec<Outcome>)
    requires
        old(client).client_summary.wf(),
    ensures
        final(client).client == old(client).client,
        final(client).transactions@ == old(client).transactions@,
        final(client).client_summary.wf(),
        final(client).client_summary@ == run(old(client).client_summary@, old(client).transactions@),
        r@.len() == old(client).transactions@.len(),
        forall|j: int| 0 <= j < r@.len() ==> r@[j] == step(
            run(old(client).client_summary@, old(client).transactions@.take(j)),
            old(client).transactions@[j],
        ).1,
{
    let ghost start = client.client_summary@;
    let mut outcomes: Vec<Outcome> = Vec::new();
    let mut i: usize = 0;
    while i < client.transactions.len()
        invariant
            0 <= i <= client.transactions@.len(),
            client.client == old(client).client,
            client.transactions@ == old(client).transactions@,
            start == old(client).client_summary@,
            client.client_summary.wf(),
            client.client_summary@ == run(start, client.transactions@.take(i as int)),
            outcomes@.len() == i,
            forall|j: int| 0 <= j < i ==> outcomes@[j] == step(
                run(start, client.transactions@.take(j)),
                client.transactions@[j],
            ).1,
        decreases client.transactions@.len() - i,
    {
        let rec = client.transactions[i];
        proof {
            let s = client.transactions@.take(i as int + 1);
            assert(s.drop_last() =~= client.transactions@.take(i as int));
        }
        let o = process_transaction(&mut client.client_summary, &rec);
        outcomes.push(o);
        i = i + 1;
    }
    proof {
        assert(client.transactions@.take(i as int) =~= client.transactions@);
    }
    outcomes
}

} // verus!
