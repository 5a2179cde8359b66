//! What an invoice leaves to present for settlement, and the claims that present it.
use vstd::prelude::*;

use crate::amount::{fits_i64, trunc_div, Money};
use crate::ids::{BatchId, InvoiceId, PartyId, SettlementId, TxId};
use crate::invoice::model::{Invoice, InvoiceStatus};
use crate::keyed::BookKey;

verus! {

/// What an invoice still leaves to present for settlement.
#[derive(Clone, Debug, PartialEq, Eq)]
pub struct SettlementObligation {
    pub invoice_id: InvoiceId,
    pub buyer: PartyId,
    pub merchant: PartyId,
    pub due_day: u32,
    pub original_amount: Money,
    pub collected_amount: Money,
    pub presentable_amount: Money,
    pub status: InvoiceStatus,
}

/// Whether an invoice leaves something to present: issued (neither draft nor void) and
/// not fully collected.
pub open spec fn has_obligation(inv: Invoice) -> bool {
    !(inv.status == InvoiceStatus::Draft || inv.status == InvoiceStatus::Voided)
        && inv.presentation_open() != 0
}

/// Whether deriving an obligation from this invoice computes its gross.
pub open spec fn obligation_computes(inv: Invoice) -> bool {
    !(inv.status == InvoiceStatus::Draft || inv.status == InvoiceStatus::Voided)
}

/// The obligation an invoice leaves.
pub open spec fn obligation_of(inv: Invoice) -> SettlementObligation {
    SettlementObligation {
        invoice_id: inv.id,
        buyer: inv.buyer,
        merchant: inv.merchant,
        due_day: inv.due_day,
        original_amount: Money { cents: inv.gross() as i64 },
        collected_amount: inv.receipts_applied,
        presentable_amount: Money { cents: inv.presentation_open() as i64 },
        status: inv.status,
    }
}

/// Priority of an obligation on `day`: ten points a day overdue, plus one per whole unit
/// presentable.
pub open spec fn priority(o: SettlementObligation, day: u32) -> int {
    (if day > o.due_day {
        day - o.due_day
    } else {
        0
    }) * 10 + trunc_div(o.presentable_amount@, 100)
}

/// A claim is in flight, and keeps its invoice from being claimed again, while it is prepared
/// or posted; once settled, frozen or cancelled it no longer is.
pub proof fn lemma_claim_in_flight(s: ClaimStatus)
    ensures
        s.active() <==> (s is Prepared || s is Posted),
{
}

/// Each further day an obligation stays overdue raises its priority by ten points.
pub proof fn lemma_priority_rises_each_overdue_day(o: SettlementObligation, day: u32)
    requires
        o.due_day <= day < u32::MAX,
    ensures
        priority(o, (day + 1) as u32) == priority(o, day) + 10,
{
}

/// Of two obligations presenting the same amount and both due by `day`, the one due earlier
/// leads by ten points for each day it has been overdue longer, so it is claimed first.
pub proof fn lemma_priority_by_age(o1: SettlementObligation, o2: SettlementObligation, day: u32)
    requires
        o1.presentable_amount == o2.presentable_amount,
        o1.due_day <= o2.due_day <= day,
    ensures
        priority(o1, day) == priority(o2, day) + 10 * (o2.due_day - o1.due_day),
        o1.due_day < o2.due_day ==> priority(o1, day) > priority(o2, day),
{
}

/// Up to its due day an obligation scores only its presentable amount: one point for each
/// whole hundred cents.
pub proof fn lemma_priority_before_due(o: SettlementObligation, day: u32)
    requires
        day <= o.due_day,
        o.presentable_amount@ >= 0,
    ensures
        priority(o, day) * 100 <= o.presentable_amount@ < priority(o, day) * 100 + 100,
{
    let a = o.presentable_amount@;
    assert(priority(o, day) == a / 100);
    assert(a / 100 * 100 <= a < a / 100 * 100 + 100) by (nonlinear_arith)
        requires
            a >= 0,
    ;
}

impl SettlementObligation {
    pub fn from_invoice(invoice: &Invoice) -> (r: Option<SettlementObligation>)
        requires
            obligation_computes(*invoice) ==> fits_i64(invoice.gross()),
        ensures
            r == if has_obligation(*invoice) {
                Some(obligation_of(*invoice))
            } else {
                None
            },
    {
        if matches!(invoice.status, InvoiceStatus::Draft | InvoiceStatus::Voided) {
            return None;
        }
        let presentable_amount = invoice.presentation_outstanding();
        if presentable_amount.is_zero() {
            return None;
        }
        Some(
            SettlementObligation {
                invoice_id: invoice.id.duplicate(),
                buyer: invoice.buyer.duplicate(),
                merchant: invoice.merchant.duplicate(),
                due_day: invoice.due_day,
                original_amount: invoice.gross_obligation(),
                collected_amount: invoice.receipts_applied,
                presentable_amount,
                status: invoice.status,
            },
        )
    }

    pub fn is_due(&self, day: u32) -> (r: bool)
        ensures
            r == (day >= self.due_day),
    {
        day >= self.due_day
    }

    pub fn priority_score(&self, day: u32) -> (r: i64)
        ensures
            r == priority(*self, day),
    {
        let age: i64 = if day > self.due_day {
            (day - self.due_day) as i64
        } else {
            0
        };
        let c = self.presentable_amount.cents as i128;
        let amount_score: i64 = if c >= 0 {
            (c / 100) as i64
        } else {
            (-((-c) / 100)) as i64
        };
        age * 10 + amount_score
    }
}

/// Where a settlement claim stands.
#[derive(Clone, Copy, Debug, PartialEq, Eq, Structural, Hash)]
pub enum ClaimStatus {
    Prepared,
    Posted,
    Settled,
    Frozen,
    Cancelled,
}

/// The name of a claim status, as its debug rendering prints it.
pub open spec fn claim_status_name(s: ClaimStatus) -> Seq<char> {
    match s {
        ClaimStatus::Prepared => "Prepared"@,
        ClaimStatus::Posted => "Posted"@,
        ClaimStatus::Settled => "Settled"@,
        ClaimStatus::Frozen => "Frozen"@,
        ClaimStatus::Cancelled => "Cancelled"@,
    }
}

impl ClaimStatus {
    pub fn name(self) -> (r: &'static str)
        ensures
            r@ == claim_status_name(self),
    {
        match self {
            ClaimStatus::Prepared => "Prepared",
            ClaimStatus::Posted => "Posted",
            ClaimStatus::Settled => "Settled",
            ClaimStatus::Frozen => "Frozen",
            ClaimStatus::Cancelled => "Cancelled",
        }
    }

    /// Whether a claim in this status is still in flight.
    pub open spec fn active(self) -> bool {
        self == ClaimStatus::Prepared || self == ClaimStatus::Posted
    }
}

/// A request to settle what an obligation leaves to present.
#[derive(Clone, Debug, PartialEq, Eq)]
pub struct SettlementClaim {
    pub id: SettlementId,
    pub invoice_id: InvoiceId,
    pub buyer: PartyId,
    pub merchant: PartyId,
    pub amount: Money,
    pub created_day: u32,
    pub batch_id: BatchId,
    pub status: ClaimStatus,
    pub journal_tx: Option<TxId>,
}

impl SettlementClaim {
    /// A prepared claim for everything the obligation leaves to present.
    pub fn new(
        id: SettlementId,
        obligation: &SettlementObligation,
        created_day: u32,
        batch_id: BatchId,
    ) -> (r: SettlementClaim)
        ensures
            r == (SettlementClaim {
                id,
                invoice_id: obligation.invoice_id,
                buyer: obligation.buyer,
                merchant: obligation.merchant,
                amount: obligation.presentable_amount,
                created_day,
                batch_id,
                status: ClaimStatus::Prepared,
                journal_tx: None,
            }),
    {
        SettlementClaim {
            id,
            invoice_id: obligation.invoice_id.duplicate(),
            buyer: obligation.buyer.duplicate(),
            merchant: obligation.merchant.duplicate(),
            amount: obligation.presentable_amount,
            created_day,
            batch_id,
            status: ClaimStatus::Prepared,
            journal_tx: None,
        }
    }

    pub fn mark_posted(&mut self, tx_id: TxId)
        ensures
            *final(self) == (SettlementClaim {
                status: ClaimStatus::Posted,
                journal_tx: Some(tx_id),
                ..*old(self)
            }),
    {
        self.status = ClaimStatus::Posted;
        self.journal_tx = Some(tx_id);
    }

    pub fn settle(&mut self)
        ensures
            *final(self) == (SettlementClaim { status: ClaimStatus::Settled, ..*old(self) }),
    {
        self.status = ClaimStatus::Settled;
    }

    pub fn freeze(&mut self)
        ensures
            *final(self) == (SettlementClaim { status: ClaimStatus::Frozen, ..*old(self) }),
    {
        self.status = ClaimStatus::Frozen;
    }

    pub fn cancel(&mut self)
        ensures
            *final(self) == (SettlementClaim { status: ClaimStatus::Cancelled, ..*old(self) }),
    {
        self.status = ClaimStatus::Cancelled;
    }
}

} // verus!
