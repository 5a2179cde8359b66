//! Receivables, ledger, settlement and close logic of a clearing desk.
pub mod keyed;
pub mod text;
pub mod ids;
pub mod error;
pub mod amount;
pub mod invoice;
pub mod ledger;
pub mod receipts;
pub mod settlement;
pub mod adjustments;
pub mod party;
pub mod policy;
pub mod analytics;
pub mod codec;
pub mod close;
pub mod fixtures;
pub mod scenarios;
