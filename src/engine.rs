//! The whole run: rows of comma-separated text in, the per-client summary out.
use vstd::prelude::*;

use crate::data_models::{ClientTransactions, PaymentRecord};
use crate::errors::TransactionReaderError;
use crate::ledger::{run, Ledger};
use crate::records::{decode_record, fields_view, parse_columns, columns_of, record_value, Columns};
use crate::render::{header_text, render_output, rows_text};
use crate::transactions::{
    check_structure, group_records, has_client, occurs, pending_ok, process_client_transactions, records_of,
    structural_error,
};

verus! {

/// Rows as byte sequences.
pub open spec fn rows_view(rows: Seq<Vec<Vec<u8>>>) -> Seq<Seq<Seq<u8>>> {
    rows.map_values(|r: Vec<Vec<u8>>| fields_view(r))
}

/// The error that data row `j` of `rows` (the header is row 0) raises, if any.
pub open spec fn row_error(c: Columns, rows: Seq<Seq<Seq<u8>>>, j: int) -> Option<TransactionReaderError> {
    match record_value(c, rows[j]) {
        None => Some(TransactionReaderError::InvalidField(j as usize)),
        Some(r) => structural_error(r),
    }
}

/// The records held by the data rows, that is all rows but the header.
pub open spec fn decoded(c: Columns, rows: Seq<Seq<Seq<u8>>>) -> Seq<PaymentRecord> {
    rows.skip(1).map_values(|row: Seq<Seq<u8>>| record_value(c, row)->Some_0)
}

/// `m` summarises `rs`: one entry per client of `rs`, and each ledger is the
/// result of that client's records applied in order to a fresh ledger.
pub open spec fn summarised(rs: Seq<PaymentRecord>, m: Seq<ClientTransactions>) -> bool {
    &&& forall|i: int, j: int| 0 <= i < j < m.len() ==> m[i].client != m[j].client
    &&& forall|k: int| 0 <= k < m.len() ==> (#[trigger] m[k]).client_summary.wf()
    &&& forall|k: int| 0 <= k < m.len() ==> (#[trigger] m[k]).client_summary@ == run(Ledger::empty(), records_of(rs, m[k].client))
    &&& forall|k: int| 0 <= k < m.len() ==> (#[trigger] m[k]).transactions@ == records_of(rs, m[k].client)
    &&& forall|j: int| 0 <= j < rs.len() ==> has_client(m, #[trigger] rs[j].client)
    &&& forall|k: int| 0 <= k < m.len() ==> occurs(rs, #[trigger] m[k].client)
}

pub open spec fn bytes_result(r: Result<Vec<u8>, TransactionReaderError>) -> Result<Seq<u8>, TransactionReaderError> {
    match r {
        Ok(b) => Ok(b@),
        Err(e) => Err(e),
    }
}

/// What a run over the rows `v` (the header first) yields: the header alone for
/// no rows; an error if the header lacks a required column; else the error of
/// the first data row that does not decode or is structurally unsound, if any;
/// else the header followed by the summary row of each client, each client once.
pub open spec fn run_outcome(v: Seq<Seq<Seq<u8>>>, o: Result<Seq<u8>, TransactionReaderError>) -> bool {
    if v.len() == 0 {
        o == Ok::<Seq<u8>, TransactionReaderError>(header_text())
    } else {
        match columns_of(v[0]) {
            None => o matches Err(TransactionReaderError::MissingColumn),
            Some(c) => {
                &&& o is Ok <==> forall|j: int| 1 <= j < v.len() ==> row_error(c, v, j) is None
                &&& o is Err ==> exists|j: int| {
                    &&& 1 <= j < v.len()
                    &&& row_error(c, v, j) == Some(o->Err_0)
                    &&& forall|q: int| 1 <= q < j ==> row_error(c, v, q) is None
                }
                &&& o is Ok ==> exists|m: Seq<ClientTransactions>| {
                    &&& summarised(decoded(c, v), m)
                    &&& o->Ok_0 == header_text() + rows_text(m)
                }
            },
        }
    }
}

/// A data row holding a withdrawal without an amount, with no faulty row before
/// it, aborts the whole run with an error that names its transaction.
pub proof fn lemma_withdrawal_without_amount_aborts(
    v: Seq<Seq<Seq<u8>>>,
    o: Result<Seq<u8>, TransactionReaderError>,
    j: int,
)
    requires
        run_outcome(v, o),
        1 <= j < v.len(),
        columns_of(v[0]) is Some,
        record_value(columns_of(v[0])->Some_0, v[j]) matches Some(r) && r.transaction_type is Withdrawal && r.amount is None,
        forall|q: int| 1 <= q < j ==> row_error(columns_of(v[0])->Some_0, v, q) is None,
    ensures
        o == Err::<Seq<u8>, TransactionReaderError>(
            TransactionReaderError::InvalidWithdrawal(record_value(columns_of(v[0])->Some_0, v[j])->Some_0.tx),
        ),
{
    let c = columns_of(v[0])->Some_0;
    assert(row_error(c, v, j) is Some);
    let k = choose|k: int| {
        &&& 1 <= k < v.len()
        &&& row_error(c, v, k) == Some(o->Err_0)
        &&& forall|q: int| 1 <= q < k ==> row_error(c, v, q) is None
    };
    if k < j {
        assert(row_error(c, v, k) is None);
    } else if k > j {
        assert(row_error(c, v, j) is None);
    }
}

/// Decodes and checks every data row, in order; the first row that does not
/// decode, or holds a structurally unsound record, aborts with its error.
pub fn decode_rows(cols: &Columns, rows: &Vec<Vec<Vec<u8>>>) -> (r: Result<Vec<PaymentRecord>, TransactionReaderError>)
    requires
        rows@.len() >= 1,
    ensures
        match r {
            Ok(rs) => {
                &&& rs@ == decoded(*cols, rows_view(rows@))
                &&& forall|j: int| 1 <= j < rows@.len() ==> row_error(*cols, rows_view(rows@), j) is None
            },
            Err(e) => exists|j: int| {
                &&& 1 <= j < rows@.len()
                &&& row_error(*cols, rows_view(rows@), j) == Some(e)
                &&& forall|q: int| 1 <= q < j ==> row_error(*cols, rows_view(rows@), q) is None
            },
        },
{
    let ghost v = rows_view(rows@);
    let mut out: Vec<PaymentRecord> = Vec::new();
    let mut j: usize = 1;
    while j < rows.len()
        invariant
            1 <= j <= rows@.len(),
            v == rows_view(rows@),
            out@.len() == j - 1,
            forall|q: int| 1 <= q < j ==> row_error(*cols, v, q) is None,
            forall|q: int| 1 <= q < j ==> out@[q - 1] == record_value(*cols, v[q])->Some_0,
        decreases rows@.len() - j,
    {
        proof {
            assert(v[j as int] == fields_view(rows@[j as int]));
        }
        let rec = match decode_record(cols, &rows[j]) {
            Some(rec) => rec,
            None => {
                proof {
                    assert(row_error(*cols, v, j as int) == Some(TransactionReaderError::InvalidField(j)));
                }
                return Err(TransactionReaderError::InvalidField(j));
            },
        };
        if let Err(e) = check_structure(&rec) {
            proof {
                assert(row_error(*cols, v, j as int) == Some(e));
            }
            return Err(e);
        }
        out.push(rec);
        j = j + 1;
    }
    proof {
        assert(out@ =~= decoded(*cols, v));
    }
    Ok(out)
}

/// Runs every client's records through its ledger. The entries come back in
/// reverse order, each with its ledger after all its records.
pub fn process_clients(clients: Vec<ClientTransactions>) -> (r: Vec<ClientTransactions>)
    requires
        forall|k: int| 0 <= k < clients@.len() ==> (#[trigger] clients@[k]).client_summary.wf(),
    ensures
        r@.len() == clients@.len(),
        forall|k: int| 0 <= k < r@.len() ==> {
            &&& (#[trigger] r@[k]).client == clients@[clients@.len() - 1 - k].client
            &&& r@[k].transactions@ == clients@[clients@.len() - 1 - k].transactions@
            &&& r@[k].client_summary.wf()
            &&& r@[k].client_summary@ == run(
                clients@[clients@.len() - 1 - k].client_summary@,
                clients@[clients@.len() - 1 - k].transactions@,
            )
        },
{
    let ghost orig = clients@;
    let mut rest = clients;
    let mut done: Vec<ClientTransactions> = Vec::new();
    while rest.len() > 0
        invariant
            rest@ == orig.take(rest@.len() as int),
            rest@.len() + done@.len() == orig.len(),
            forall|k: int| 0 <= k < orig.len() ==> (#[trigger] orig[k]).client_summary.wf(),
            forall|k: int| 0 <= k < done@.len() ==> {
                &&& (#[trigger] done@[k]).client == orig[orig.len() - 1 - k].client
                &&& done@[k].transactions@ == orig[orig.len() - 1 - k].transactions@
                &&& done@[k].client_summary.wf()
                &&& done@[k].client_summary@ == run(
                    orig[orig.len() - 1 - k].client_summary@,
                    orig[orig.len() - 1 - k].transactions@,
                )
            },
        decreases rest@.len(),
    {
        let ghost n = rest@.len();
        let mut c = match rest.pop() {
            Some(c) => c,
            None => {
                return done;
            },
        };
        assert(c == orig[n - 1]);
        assert(rest@ =~= orig.take(n - 1));
        process_client_transactions(&mut c);
        done.push(c);
    }
    done
}

pub open spec fn groups_result(
    r: Result<Vec<ClientTransactions>, TransactionReaderError>,
) -> Result<Seq<ClientTransactions>, TransactionReaderError> {
    match r {
        Ok(m) => Ok(m@),
        Err(e) => Err(e),
    }
}

/// `m` groups `rs` by client: one fresh entry per client of `rs`, holding that
/// client's records in order.
pub open spec fn grouped(rs: Seq<PaymentRecord>, m: Seq<ClientTransactions>) -> bool {
    &&& pending_ok(m)
    &&& forall|k: int| 0 <= k < m.len() ==> (#[trigger] m[k]).transactions@ == records_of(rs, m[k].client)
    &&& forall|j: int| 0 <= j < rs.len() ==> has_client(m, #[trigger] rs[j].client)
    &&& forall|k: int| 0 <= k < m.len() ==> occurs(rs, #[trigger] m[k].client)
}

/// What validating the rows `v` (the header first) yields: no clients for no
/// rows; an error if the header lacks a required column; else the error of the
/// first data row that does not decode or is structurally unsound, if any;
/// else the records grouped by client.
pub open spec fn grouping_outcome(v: Seq<Seq<Seq<u8>>>, o: Result<Seq<ClientTransactions>, TransactionReaderError>) -> bool {
    if v.len() == 0 {
        o is Ok && o->Ok_0.len() == 0
    } else {
        match columns_of(v[0]) {
            None => o matches Err(TransactionReaderError::MissingColumn),
            Some(c) => {
                &&& o is Ok <==> forall|j: int| 1 <= j < v.len() ==> row_error(c, v, j) is None
                &&& o is Err ==> exists|j: int| {
                    &&& 1 <= j < v.len()
                    &&& row_error(c, v, j) == Some(o->Err_0)
                    &&& forall|q: int| 1 <= q < j ==> row_error(c, v, q) is None
                }
                &&& o is Ok ==> grouped(decoded(c, v), o->Ok_0)
            },
        }
    }
}

/// Validates the rows of a comma-separated input whose first row is the header,
/// and groups their records by client.
pub fn group_rows(rows: &Vec<Vec<Vec<u8>>>) -> (r: Result<Vec<ClientTransactions>, TransactionReaderError>)
    ensures
        grouping_outcome(rows_view(rows@), groups_result(r)),
{
    if rows.len() == 0 {
        return Ok(Vec::new());
    }
    let ghost v = rows_view(rows@);
    assert(fields_view(rows@[0]) == v[0]);
    let cols = match parse_columns(&rows[0]) {
        Some(c) => c,
        None => {
            return Err(TransactionReaderError::MissingColumn);
        },
    };
    let records = match decode_rows(&cols, rows) {
        Ok(rs) => rs,
        Err(e) => {
            return Err(e);
        },
    };
    match group_records(&records) {
        Ok(m) => Ok(m),
        Err(e) => {
            proof {
                let j = choose|j: int| 0 <= j < records@.len() && structural_error(records@[j]) == Some(e);
                assert(row_error(cols, v, j + 1) is None);
                assert(records@[j] == record_value(cols, v[j + 1])->Some_0);
            }
            Err(e)
        },
    }
}

/// Summarises the rows of a comma-separated input whose first row is the
/// header. No rows give the header alone.
pub fn process_rows(rows: &Vec<Vec<Vec<u8>>>) -> (r: Result<Vec<u8>, TransactionReaderError>)
    ensures
        run_outcome(rows_view(rows@), bytes_result(r)),
{
    let ghost v = rows_view(rows@);
    let grouped = match group_rows(rows) {
        Ok(m) => m,
        Err(e) => {
            return Err(e);
        },
    };
    let ghost cols = columns_of(v[0])->Some_0;
    let ghost records = if v.len() == 0 { Seq::empty() } else { decoded(cols, v) };
    let ghost g = grouped@;
    let processed = process_clients(grouped);
    proof {
        assert forall|k: int| 0 <= k < processed@.len() implies processed@[k].client_summary.wf() by {
            assert(processed@[k] == processed@[k]);
        }
    }
    let out = render_output(&processed);
    proof {
        let rs = records;
        let m = processed@;
        let n = g.len();
        assert forall|k: int| 0 <= k < m.len() implies (#[trigger] m[k]).client_summary@ == run(Ledger::empty(), records_of(rs, m[k].client)) by {
            assert(m[k] == m[k]);
            assert(g[n - 1 - k].client_summary@ == Ledger::empty());
        }
        assert forall|k: int| 0 <= k < m.len() implies (#[trigger] m[k]).transactions@ == records_of(rs, m[k].client) by {
            assert(m[k] == m[k]);
            assert(g[n - 1 - k].transactions@ == records_of(rs, g[n - 1 - k].client));
        }
        assert forall|k: int| 0 <= k < m.len() implies occurs(rs, #[trigger] m[k].client) by {
            assert(m[k] == m[k]);
            assert(occurs(rs, g[n - 1 - k].client));
        }
        assert forall|i: int, j: int| 0 <= i < j < m.len() implies m[i].client != m[j].client by {
            assert(m[i] == m[i]);
            let a = n - 1 - i;
            let b = n - 1 - j;
            assert(g[a].client == m[i].client);
            assert(g[b].client == m[j].client);
        }
        assert forall|j: int| 0 <= j < rs.len() implies has_client(m, #[trigger] rs[j].client) by {
            assert(has_client(g, rs[j].client));
            let k = choose|k: int| 0 <= k < g.len() && g[k].client == rs[j].client;
            let i = n - 1 - k;
            assert(g[n - 1 - i] == g[k]);
            assert(m[i].client == g[k].client);
        }
        assert(summarised(rs, m));
        if v.len() == 0 {
            assert(m =~= Seq::<ClientTransactions>::empty());
        }
    }
    Ok(out)
}

} // verus!
