//! The period close: a reconciliation report of the books, its digest, and the close batch.
use vstd::prelude::*;

use crate::amount::{running_sums_fit, seq_sum, Money};
use crate::analytics::{
    aging_holds, aging_ok, aging_report_json, exposure_holds, exposure_json, exposure_ok,
    AgingReport, ExposureReport,
};
use crate::codec::{blake3_hex, json_money, push_json_money, text_digest, Digest};
use crate::error::{SableError, SableResult};
use crate::ids::BatchId;
use crate::invoice::book::{
    accounting_opens, accounting_total_ok, gross_total_ok, grosses, memo_total_ok, net_memos,
    presentation_opens, presentation_total_ok, receipt_amounts, InvoiceBook,
};
use crate::invoice::model::Invoice;
use crate::ledger::state::{is_trial_balance, trial_balance_json, trial_ok, Ledger, TrialBalance};
use crate::policy::ClosePolicy;
use crate::receipts::book::ReceiptBook;
use crate::receipts::model::SettlementReceipt;
use crate::settlement::book::{presentable_amounts, SettlementBook};
use crate::settlement::model::{SettlementClaim, SettlementObligation};
use crate::text::{decimal, push_decimal, push_zero_padded, zero_pad};

verus! {

/// An accounting period: a month and the days it spans.
#[derive(Clone, Copy, Debug, PartialEq, Eq, Structural)]
pub struct Period {
    pub year: u16,
    pub month: u8,
    pub start_day: u32,
    pub end_day: u32,
}

/// The label of a period: the year in four digits, a dash, the month in two.
pub open spec fn period_label(p: Period) -> Seq<char> {
    zero_pad(decimal(p.year as nat), 4) + "-"@ + zero_pad(decimal(p.month as nat), 2)
}

impl Period {
    pub fn new(year: u16, month: u8, start_day: u32, end_day: u32) -> (r: Period)
        ensures
            r == (Period { year, month, start_day, end_day }),
    {
        Period { year, month, start_day, end_day }
    }

    /// The label of the period, such as `2026-01`.
    pub fn label(&self) -> (r: String)
        ensures
            r@ == period_label(*self),
    {
        let mut r = String::new();
        push_zero_padded(&mut r, self.year as u128, 4);
        r.append("-");
        push_zero_padded(&mut r, self.month as u128, 2);
        assert(r@ =~= period_label(*self));
        r
    }

    /// Whether `day` falls within the period, both ends included.
    pub fn contains(&self, day: u32) -> (r: bool)
        ensures
            r == (self.start_day <= day <= self.end_day),
    {
        day >= self.start_day && day <= self.end_day
    }
}

/// Where a close batch stands.
#[derive(Clone, Copy, Debug, PartialEq, Eq, Structural)]
pub enum CloseStatus {
    Open,
    Prepared,
    Closed,
    Reopened,
}

/// The name of a close status, as its debug rendering prints it.
pub open spec fn close_status_name(s: CloseStatus) -> Seq<char> {
    match s {
        CloseStatus::Open => "Open"@,
        CloseStatus::Prepared => "Prepared"@,
        CloseStatus::Closed => "Closed"@,
        CloseStatus::Reopened => "Reopened"@,
    }
}

impl CloseStatus {
    pub fn name(self) -> (r: &'static str)
        ensures
            r@ == close_status_name(self),
    {
        match self {
            CloseStatus::Open => "Open",
            CloseStatus::Prepared => "Prepared",
            CloseStatus::Closed => "Closed",
            CloseStatus::Reopened => "Reopened",
        }
    }
}

/// The figures of the books at the close of a period.
#[derive(Clone, Debug, PartialEq, Eq)]
pub struct ReconciliationReport {
    pub period: Period,
    pub invoice_count: usize,
    pub receipt_count: usize,
    pub gross_total: Money,
    pub receipt_total: Money,
    pub memo_total: Money,
    pub accounting_open: Money,
    pub presentation_open: Money,
    pub settlement_obligations: Money,
    pub aging: AgingReport,
    pub exposure: ExposureReport,
    pub trial_balance: TrialBalance,
}

/// Whether every figure of the reconciliation can be computed in `i64`.
pub open spec fn reconciliation_ok(
    period: Period,
    invs: Seq<Invoice>,
    receipts: Seq<SettlementReceipt>,
    claims: Seq<SettlementClaim>,
    obligations: Seq<SettlementObligation>,
    ledger: Ledger,
) -> bool {
    &&& aging_ok(invs, period.end_day)
    &&& exposure_ok(invs, receipts, claims)
    &&& gross_total_ok(invs)
    &&& running_sums_fit(receipt_amounts(invs))
    &&& memo_total_ok(invs)
    &&& running_sums_fit(presentable_amounts(obligations))
    &&& trial_ok(ledger.slots())
}

/// The reconciliation of the books for `period`.
pub open spec fn reconciliation_holds(
    r: ReconciliationReport,
    period: Period,
    invs: Seq<Invoice>,
    receipts: Seq<SettlementReceipt>,
    claims: Seq<SettlementClaim>,
    obligations: Seq<SettlementObligation>,
    ledger: Ledger,
) -> bool {
    &&& r.period == period
    &&& r.invoice_count == invs.len()
    &&& r.receipt_count == receipts.len()
    &&& r.gross_total@ == seq_sum(grosses(invs))
    &&& r.receipt_total@ == seq_sum(receipt_amounts(invs))
    &&& r.memo_total@ == seq_sum(net_memos(invs))
    &&& r.accounting_open@ == seq_sum(accounting_opens(invs))
    &&& r.presentation_open@ == seq_sum(presentation_opens(invs))
    &&& r.settlement_obligations@ == seq_sum(presentable_amounts(obligations))
    &&& aging_holds(r.aging, invs, period.end_day)
    &&& exposure_holds(r.exposure, invs, receipts, claims)
    &&& is_trial_balance(ledger.slots(), r.trial_balance)
    &&& r.trial_balance.balanced
}

/// The canonical JSON text of a period.
pub open spec fn period_json(p: Period) -> Seq<char> {
    "{\"year\":"@ + decimal(p.year as nat) + ",\"month\":"@ + decimal(p.month as nat)
        + ",\"start_day\":"@ + decimal(p.start_day as nat) + ",\"end_day\":"@ + decimal(
        p.end_day as nat,
    ) + "}"@
}

/// The canonical JSON text of a reconciliation report, fields in declaration order.
pub open spec fn reconciliation_json(r: ReconciliationReport) -> Seq<char> {
    "{\"period\":"@ + period_json(r.period) + ",\"invoice_count\":"@ + decimal(
        r.invoice_count as nat,
    ) + ",\"receipt_count\":"@ + decimal(r.receipt_count as nat) + ",\"gross_total\":"@
        + json_money(r.gross_total@) + ",\"receipt_total\":"@ + json_money(r.receipt_total@)
        + ",\"memo_total\":"@ + json_money(r.memo_total@) + ",\"accounting_open\":"@ + json_money(
        r.accounting_open@,
    ) + ",\"presentation_open\":"@ + json_money(r.presentation_open@)
        + ",\"settlement_obligations\":"@ + json_money(r.settlement_obligations@) + ",\"aging\":"@
        + aging_report_json(r.aging) + ",\"exposure\":"@ + exposure_json(r.exposure)
        + ",\"trial_balance\":"@ + trial_balance_json(r.trial_balance) + "}"@
}

impl Period {
    /// The period as canonical JSON text.
    pub fn canonical_json(&self) -> (r: String)
        ensures
            r@ == period_json(*self),
    {
        let mut r = String::from_str("{\"year\":");
        push_decimal(&mut r, self.year as u128);
        r.append(",\"month\":");
        push_decimal(&mut r, self.month as u128);
        r.append(",\"start_day\":");
        push_decimal(&mut r, self.start_day as u128);
        r.append(",\"end_day\":");
        push_decimal(&mut r, self.end_day as u128);
        r.append("}");
        r
    }
}

impl ReconciliationReport {
    /// The report, or `None` when one of its figures leaves `i64`.
    pub(crate) fn try_build(
        period: Period,
        invoices: &InvoiceBook,
        receipts: &ReceiptBook,
        settlement: &SettlementBook,
        ledger: &Ledger,
    ) -> (r: Option<ReconciliationReport>)
        requires
            ledger.wf(),
        ensures
            reconciliation_ok(
                period,
                invoices.all(),
                receipts.all(),
                settlement.all_claims(),
                settlement.all_obligations(),
                *ledger,
            ) ==> (r matches Some(rep) && reconciliation_holds(
                rep,
                period,
                invoices.all(),
                receipts.all(),
                settlement.all_claims(),
                settlement.all_obligations(),
                *ledger,
            )),
            !reconciliation_ok(
                period,
                invoices.all(),
                receipts.all(),
                settlement.all_claims(),
                settlement.all_obligations(),
                *ledger,
            ) ==> r is None,
    {
        let aging = match AgingReport::try_build(invoices, period.end_day) {
            Some(a) => a,
            None => return None,
        };
        let exposure = match ExposureReport::try_build(invoices, receipts, settlement) {
            Some(e) => e,
            None => return None,
        };
        let gross_total = match invoices.try_gross_total() {
            Some(m) => m,
            None => return None,
        };
        let receipt_total = match invoices.try_collected_total() {
            Some(m) => m,
            None => return None,
        };
        let memo_total = match invoices.try_memo_total() {
            Some(m) => m,
            None => return None,
        };
        let accounting_open = match invoices.try_open_accounting_total() {
            Some(m) => m,
            None => return None,
        };
        let presentation_open = match invoices.try_open_presentation_total() {
            Some(m) => m,
            None => return None,
        };
        let settlement_obligations = match settlement.try_obligation_total() {
            Some(m) => m,
            None => return None,
        };
        let trial_balance = match ledger.try_trial_balance() {
            Some(tb) => tb,
            None => return None,
        };
        Some(
            ReconciliationReport {
                period,
                invoice_count: invoices.len(),
                receipt_count: receipts.len(),
                gross_total,
                receipt_total,
                memo_total,
                accounting_open,
                presentation_open,
                settlement_obligations,
                aging,
                exposure,
                trial_balance,
            },
        )
    }

    /// Reconciles the invoice, receipt and settlement books with the ledger for `period`.
    pub fn build(
        period: Period,
        invoices: &InvoiceBook,
        receipts: &ReceiptBook,
        settlement: &SettlementBook,
        ledger: &Ledger,
    ) -> (r: ReconciliationReport)
        requires
            ledger.wf(),
            reconciliation_ok(
                period,
                invoices.all(),
                receipts.all(),
                settlement.all_claims(),
                settlement.all_obligations(),
                *ledger,
            ),
        ensures
            reconciliation_holds(
                r,
                period,
                invoices.all(),
                receipts.all(),
                settlement.all_claims(),
                settlement.all_obligations(),
                *ledger,
            ),
    {
        match ReconciliationReport::try_build(period, invoices, receipts, settlement, ledger) {
            Some(r) => r,
            None => {
                proof {
                    assert(false);
                }
                ReconciliationReport {
                    period,
                    invoice_count: 0,
                    receipt_count: 0,
                    gross_total: Money::zero(),
                    receipt_total: Money::zero(),
                    memo_total: Money::zero(),
                    accounting_open: Money::zero(),
                    presentation_open: Money::zero(),
                    settlement_obligations: Money::zero(),
                    aging: AgingReport {
                        as_of_day: 0,
                        bands: Vec::new(),
                        total_accounting: Money::zero(),
                        total_presentation: Money::zero(),
                    },
                    exposure: ExposureReport {
                        accounting_open: Money::zero(),
                        presentation_open: Money::zero(),
                        active_claims: Money::zero(),
                        frozen_claims: Money::zero(),
                        receipts_posted: Money::zero(),
                        invoice_status_counts: Vec::new(),
                    },
                    trial_balance: TrialBalance {
                        accounts: Vec::new(),
                        total_debits: Money::zero(),
                        total_credits: Money::zero(),
                        balanced: true,
                    },
                }
            },
        }
    }

    /// The report as canonical JSON text.
    pub fn canonical_json(&self) -> (r: String)
        ensures
            r@ == reconciliation_json(*self),
    {
        let mut r = String::from_str("{\"period\":");
        r.append(self.period.canonical_json().as_str());
        r.append(",\"invoice_count\":");
        push_decimal(&mut r, self.invoice_count as u128);
        r.append(",\"receipt_count\":");
        push_decimal(&mut r, self.receipt_count as u128);
        r.append(",\"gross_total\":");
        push_json_money(&mut r, self.gross_total.cents);
        r.append(",\"receipt_total\":");
        push_json_money(&mut r, self.receipt_total.cents);
        r.append(",\"memo_total\":");
        push_json_money(&mut r, self.memo_total.cents);
        r.append(",\"accounting_open\":");
        push_json_money(&mut r, self.accounting_open.cents);
        r.append(",\"presentation_open\":");
        push_json_money(&mut r, self.presentation_open.cents);
        r.append(",\"settlement_obligations\":");
        push_json_money(&mut r, self.settlement_obligations.cents);
        r.append(",\"aging\":");
        r.append(self.aging.canonical_json().as_str());
        r.append(",\"exposure\":");
        r.append(self.exposure.canonical_json().as_str());
        r.append(",\"trial_balance\":");
        r.append(self.trial_balance.canonical_json().as_str());
        r.append("}");
        r
    }

    /// The digest of the report's canonical JSON text.
    pub fn canonical_digest(&self) -> (r: Digest)
        ensures
            r@ == blake3_hex(vstd::utf8::encode_utf8(reconciliation_json(*self))),
    {
        let text = self.canonical_json();
        text_digest(text.as_str())
    }
}

/// The close of a period: its reconciliation, sealed by the digest of the report.
#[derive(Clone, Debug, PartialEq, Eq)]
pub struct CloseBatch {
    pub id: BatchId,
    pub period: Period,
    pub status: CloseStatus,
    pub prepared_day: u32,
    pub closed_day: Option<u32>,
    pub report: ReconciliationReport,
    pub digest: Digest,
}

impl CloseBatch {
    /// Reconciles the books for `period` and seals the report with its digest.
    pub fn prepare(
        id: BatchId,
        period: Period,
        prepared_day: u32,
        invoices: &InvoiceBook,
        receipts: &ReceiptBook,
        settlement: &SettlementBook,
        ledger: &Ledger,
    ) -> (r: SableResult<CloseBatch>)
        requires
            ledger.wf(),
            reconciliation_ok(
                period,
                invoices.all(),
                receipts.all(),
                settlement.all_claims(),
                settlement.all_obligations(),
                *ledger,
            ),
        ensures
            r matches Ok(b) && b.id == id && b.period == period && b.status == CloseStatus::Prepared
                && b.prepared_day == prepared_day && b.closed_day is None && reconciliation_holds(
                b.report,
                period,
                invoices.all(),
                receipts.all(),
                settlement.all_claims(),
                settlement.all_obligations(),
                *ledger,
            ) && b.digest@ == blake3_hex(vstd::utf8::encode_utf8(reconciliation_json(b.report))),
    {
        let report = ReconciliationReport::build(period, invoices, receipts, settlement, ledger);
        let digest = report.canonical_digest();
        Ok(
            CloseBatch {
                id,
                period,
                status: CloseStatus::Prepared,
                prepared_day,
                closed_day: None,
                report,
                digest,
            },
        )
    }

    /// Closes the batch on `day`. A batch whose trial balance is not balanced is never
    /// closed: the policy is not consulted, so its `require_balanced_trial` setting cannot
    /// let an unbalanced batch through.
    pub fn close(&mut self, policy: &ClosePolicy, day: u32) -> (r: SableResult<()>)
        ensures
            !old(self).report.trial_balance.balanced ==> {
                &&& *final(self) == *old(self)
                &&& r matches Err(SableError::PolicyRejected(m)) && m@
                    == "trial balance must be balanced"@
            },
            old(self).report.trial_balance.balanced ==> {
                &&& r is Ok
                &&& *final(self) == (CloseBatch {
                    status: CloseStatus::Closed,
                    closed_day: Some(day),
                    ..*old(self)
                })
            },
    {
        if !self.report.trial_balance.balanced {
            return Err(
                SableError::PolicyRejected(String::from_str("trial balance must be balanced")),
            );
        }
        self.status = CloseStatus::Closed;
        self.closed_day = Some(day);
        Ok(())
    }
}

} // verus!
