//! Settlement receipts: money received against an invoice.
use vstd::prelude::*;

use crate::amount::Money;
use crate::ids::{InvoiceId, PartyId, ReceiptId, TxId};

verus! {

/// The rail a payment arrived on.
#[derive(Clone, Copy, Debug, PartialEq, Eq, Structural, Hash)]
pub enum PaymentChannel {
    Ach,
    Wire,
    CardNetwork,
    StablecoinRail,
    InternalTransfer,
}

/// Where a receipt stands in its processing.
#[derive(Clone, Copy, Debug, PartialEq, Eq, Structural, Hash)]
pub enum ReceiptStatus {
    Imported,
    Matched,
    Posted,
    Reversed,
    Suspense,
}

/// Money received from a payer for an invoice.
#[derive(Clone, Debug, PartialEq, Eq)]
pub struct SettlementReceipt {
    pub id: ReceiptId,
    pub invoice_id: InvoiceId,
    pub payer: PartyId,
    pub payee: PartyId,
    pub channel: PaymentChannel,
    pub bank_ref: String,
    pub amount: Money,
    pub received_day: u32,
    pub status: ReceiptStatus,
    pub journal_tx: Option<TxId>,
}

impl SettlementReceipt {
    /// A freshly imported receipt, not yet posted.
    pub fn new(
        id: ReceiptId,
        invoice_id: InvoiceId,
        payer: PartyId,
        payee: PartyId,
        channel: PaymentChannel,
        bank_ref: String,
        amount: Money,
        received_day: u32,
    ) -> (r: SettlementReceipt)
        ensures
            r == (SettlementReceipt {
                id,
                invoice_id,
                payer,
                payee,
                channel,
                bank_ref,
                amount,
                received_day,
                status: ReceiptStatus::Imported,
                journal_tx: None,
            }),
    {
        SettlementReceipt {
            id,
            invoice_id,
            payer,
            payee,
            channel,
            bank_ref,
            amount,
            received_day,
            status: ReceiptStatus::Imported,
            journal_tx: None,
        }
    }

    /// An imported receipt becomes matched; any other status stays.
    pub fn mark_matched(&mut self)
        ensures
            *final(self) == (SettlementReceipt {
                status: if old(self).status == ReceiptStatus::Imported {
                    ReceiptStatus::Matched
                } else {
                    old(self).status
                },
                ..*old(self)
            }),
    {
        if self.status == ReceiptStatus::Imported {
            self.status = ReceiptStatus::Matched;
        }
    }

    pub fn mark_posted(&mut self, tx_id: TxId)
        ensures
            *final(self) == (SettlementReceipt {
                status: ReceiptStatus::Posted,
                journal_tx: Some(tx_id),
                ..*old(self)
            }),
    {
        self.status = ReceiptStatus::Posted;
        self.journal_tx = Some(tx_id);
    }

    pub fn reverse(&mut self)
        ensures
            *final(self) == (SettlementReceipt { status: ReceiptStatus::Reversed, ..*old(self) }),
    {
        self.status = ReceiptStatus::Reversed;
    }
}

} // verus!
