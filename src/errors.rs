//! Structural errors: they abort the whole run.
use vstd::prelude::*;

use crate::data_models::TransactionId;

verus! {

#[verifier::external_type_specification]
#[verifier::external_body]
pub struct ExCsvError(csv::Error);

#[derive(Debug)]
pub enum TransactionReaderError {
    /// The input is not well-formed comma-separated text.
    CSVReaderError(csv::Error),
    /// The header row lacks one of the columns `type`, `client`, `tx`.
    MissingColumn,
    /// A field of the record on the given row (the header is row 0) cannot be decoded.
    InvalidField(usize),
    InvalidWithdrawal(TransactionId),
    InvalidDeposit(TransactionId),
    InvalidDisputeFormat(TransactionId),
    InvalidResolveFormat(TransactionId),
    InvalidChargebackFormat(TransactionId),
}

} // verus!
