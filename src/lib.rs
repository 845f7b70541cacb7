//! A per-client payments ledger: transaction records are validated, grouped by
//! client, applied in arrival order to each client's ledger, and summarised.
use vstd::prelude::*;

pub mod data_models;
pub mod engine;
pub mod errors;
pub mod ledger;
pub mod records;
pub mod render;
pub mod transactions;

use crate::data_models::ClientTransactions;
use crate::engine::{
    bytes_result, group_rows, grouping_outcome, groups_result, process_rows, rows_view, run_outcome,
};
use crate::errors::TransactionReaderError;

verus! {

/// The rows of fields that csv reads from an input, or `None` where it fails.
pub uninterp spec fn csv_rows_of(input: Seq<u8>) -> Option<Seq<Seq<Seq<u8>>>>;

/// Relies on csv's `ReaderBuilder` (every row read as data, every field
/// trimmed) and `Reader::records`: the rows of fields that the input holds, or
/// the first error met; either depends on the input alone.
#[verifier::external_body]
fn read_csv_rows(input: &[u8]) -> (r: Result<Vec<Vec<Vec<u8>>>, csv::Error>)
    ensures
        match r {
            Ok(rows) => csv_rows_of(input@) == Some(rows_view(rows@)),
            Err(_) => csv_rows_of(input@) is None,
        },
{
    let mut reader = csv::ReaderBuilder::new().has_headers(false).trim(csv::Trim::All).from_reader(input);
    let mut rows = Vec::new();
    for record in reader.records() {
        rows.push(record?.iter().map(|f| f.as_bytes().to_vec()).collect());
    }
    Ok(rows)
}

/// Reads the comma-separated records of `input`, checks them, and groups them
/// by client, each client's records in arrival order, ready to be processed.
pub fn read_client_transactions(input: &[u8]) -> (r: Result<Vec<ClientTransactions>, TransactionReaderError>)
    ensures
        match csv_rows_of(input@) {
            None => r matches Err(TransactionReaderError::CSVReaderError(_)),
            Some(v) => grouping_outcome(v, groups_result(r)),
        },
{
    match read_csv_rows(input) {
        Ok(rows) => group_rows(&rows),
        Err(e) => Err(TransactionReaderError::CSVReaderError(e)),
    }
}

/// The outcome of a run as it shows in the output: the bytes appended to it,
/// or the error returned.
pub open spec fn written(
    r: Result<(), TransactionReaderError>,
    before: Seq<u8>,
    after: Seq<u8>,
) -> Result<Seq<u8>, TransactionReaderError> {
    match r {
        Ok(()) => Ok(after.skip(before.len() as int)),
        Err(e) => Err(e),
    }
}

/// Reads the comma-separated records of `input` (header `type, client, tx,
/// amount`), applies each client's records in order to its ledger, and appends
/// the summary to `output`. A structural error, a field that does not decode,
/// or input that is not comma-separated text, aborts the run and leaves
/// `output` as it was. Amounts are exact in ten-thousandths: one with more than
/// four fractional digits, or above 922337203685477.5807 in magnitude, does not
/// decode and aborts the run with `InvalidField`.
pub fn read_and_parse_transactions(input: &[u8], output: &mut Vec<u8>) -> (r: Result<(), TransactionReaderError>)
    ensures
        match csv_rows_of(input@) {
            None => r matches Err(TransactionReaderError::CSVReaderError(_)) && final(output)@ == old(output)@,
            Some(v) => {
                &&& run_outcome(v, written(r, old(output)@, final(output)@))
                &&& final(output)@.take(old(output)@.len() as int) == old(output)@
                &&& r is Err ==> final(output)@ == old(output)@
            },
        },
{
    let rows = match read_csv_rows(input) {
        Ok(rows) => rows,
        Err(e) => {
            return Err(TransactionReaderError::CSVReaderError(e));
        },
    };
    let res = process_rows(&rows);
    let ghost o = bytes_result(res);
    match res {
        Ok(bytes) => {
            let mut bytes = bytes;
            output.append(&mut bytes);
            proof {
                assert(output@.skip(old(output)@.len() as int) =~= o->Ok_0);
                assert(output@.take(old(output)@.len() as int) =~= old(output)@);
                assert(written(Ok(()), old(output)@, output@) == o);
            }
            Ok(())
        },
        Err(e) => Err(e),
    }
}

} // verus!
