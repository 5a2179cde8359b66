//! Errors of the desk's operations.
use vstd::prelude::*;

use crate::ids::{AccountId, AdjustmentId, InvoiceId, PartyId, ReceiptId, SettlementId};

verus! {

/// Why an operation of the desk failed.
#[derive(Clone, Debug)]
pub enum SableError {
    ArithmeticOverflow,
    InvalidBasisPoints(u16),
    InvalidRatio,
    CounterpartyNotFound(PartyId),
    AccountNotFound(AccountId),
    InvoiceNotFound(InvoiceId),
    ReceiptNotFound(ReceiptId),
    AdjustmentNotFound(AdjustmentId),
    SettlementNotFound(SettlementId),
    DuplicateId(String),
    InvalidTransition(String),
    UnbalancedJournal { debits: i64, credits: i64 },
    PolicyRejected(String),
    Serialization(String),
    UnknownScenario(String),
}

pub type SableResult<T> = Result<T, SableError>;

} // verus!
