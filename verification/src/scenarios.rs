//! Named month scenarios run on a seeded desk, and the report each one produces.
use vstd::prelude::*;

use crate::amount::{fits_i64, running_sums_fit, seq_sum, Money};
use crate::analytics::{
    band_accounting, band_accounting_totals, band_presentation, band_presentation_totals,
    count_table, count_table_canonical_json, count_table_json, in_band, status_counts,
    status_count, status_counts_spec,
};
use crate::invoice::book::grosses;
use crate::keyed::entry_values;
use crate::receipts::book::receipt_values;
use crate::close::{close_status_name, period_label, CloseBatch, CloseStatus, Period};
use crate::codec::{blake3_hex, lower_hex, text_digest};
use crate::error::{SableError, SableResult};
use crate::fixtures::state::{
    close_checks_computable, close_checks_fit, close_pass, standard_parties, SeedParties, obligations_computable, obligations_fit, same_frame, seeded_state,
    adjustment_made, receipt_made, standard_accounts, standard_invoice_made, standard_key, standard_total, AccountMap,
    SableState,
};
use crate::amount::scaled;
use crate::ids::{generated_text, lemma_generated_injective};
use crate::keyed::{
    entry_keys, has_key, lemma_keys_after_insert, lemma_lookup_after_insert,
    lemma_lookup_after_update,
};
use crate::ledger::state::{balance_of, key_active, lemma_apply_effects_keys, lemma_pair_small, pair_effects};
use crate::settlement::book::obligation_entries;
use crate::adjustments::model::AdjustmentSide;
use crate::adjustments::book::{filed_total, period_limit};
use crate::ids::{AdjustmentId, ReceiptId};
use crate::invoice::book::{
    accounting_opens, accounting_total_ok, closable, memo_total_ok, net_memos, presentation_opens,
    presentation_total_ok, receipt_amounts,
};
use crate::invoice::model::Invoice;
use crate::keyed::{derefs, same_text, BookKey};
use crate::adjustments::model::AdjustmentReason;
use crate::amount::Bps;
use crate::receipts::model::PaymentChannel;
use crate::text::join3;
use crate::ledger::state::{credit_parts, debit_parts, trial_ok, TrialBalance};
use crate::settlement::book::{active_claims, claim_amounts, frozen_claims, presentable_amounts};
use crate::settlement::model::{SettlementClaim, SettlementObligation};
use crate::settlement::book::{by_priority, claim_picks, due_obligations, has_active, posting_accounts_known, priority_slot};
use crate::settlement::model::{has_obligation, obligation_of, priority};
use crate::fixtures::state::{settlement_picks, settlement_posts_safely, settlement_run};
use crate::ids::SettlementId;
use crate::keyed::{key_index, lookup};
use crate::codec::{
    json_array, json_bool, json_money, json_string, lemma_texts_push, push_json_array,
    push_json_bool, push_json_money, push_json_string,
};
use crate::ids::{InvoiceId, PartyId};
use crate::invoice::model::{
    accepts_entries, credit_applied, invoice_status_name, receipt_applied, InvoiceStatus,
};
use crate::adjustments::model::{single_limit, ManualAdjustment};
use crate::adjustments::book::adjustment_flow;
use crate::receipts::model::SettlementReceipt;
use crate::settlement::model::{claim_status_name, ClaimStatus};
use crate::text::{decimal, push_decimal};

verus! {

/// Invoice figures of a scenario.
#[derive(Clone, Debug, PartialEq, Eq)]
pub struct InvoiceMetrics {
    pub count: usize,
    pub accounting_open: Money,
    pub presentation_open: Money,
    pub collected: Money,
    pub memos: Money,
    pub statuses: Vec<(String, usize)>,
}

/// Ledger figures of a scenario.
#[derive(Clone, Copy, Debug, PartialEq, Eq, Structural)]
pub struct LedgerMetrics {
    pub accounts: usize,
    pub entries: usize,
    pub balanced: bool,
    pub total_debits: Money,
    pub total_credits: Money,
}

/// Settlement figures of a scenario.
#[derive(Clone, Copy, Debug, PartialEq, Eq, Structural)]
pub struct SettlementMetrics {
    pub obligations: usize,
    pub obligation_total: Money,
    pub claims: usize,
    pub posted_claims: usize,
    pub active_claim_total: Money,
    pub frozen_claim_total: Money,
}

/// Figures of the close batch of a scenario.
#[derive(Clone, Debug, PartialEq, Eq)]
pub struct CloseMetrics {
    pub id: String,
    pub period: String,
    pub status: String,
    pub accounting_open: Money,
    pub presentation_open: Money,
    pub settlement_obligations: Money,
    pub digest: String,
}

/// One invoice of a scenario report.
#[derive(Clone, Debug, PartialEq, Eq)]
pub struct InvoiceRow {
    pub id: InvoiceId,
    pub buyer: PartyId,
    pub status: InvoiceStatus,
    pub total: Money,
    pub receipts: Money,
    pub memos: Money,
    pub accounting_open: Money,
    pub presentation_open: Money,
}

/// One settlement claim of a scenario report.
#[derive(Clone, Debug, PartialEq, Eq)]
pub struct ClaimRow {
    pub id: String,
    pub invoice_id: InvoiceId,
    pub amount: Money,
    pub status: ClaimStatus,
}

/// What a scenario did to the desk, sealed by a digest of everything else in it.
#[derive(Clone, Debug, PartialEq, Eq)]
pub struct ScenarioReport {
    pub scenario: String,
    pub day: u32,
    pub digest: String,
    pub invoices: InvoiceMetrics,
    pub ledger: LedgerMetrics,
    pub settlement: SettlementMetrics,
    pub close: Option<CloseMetrics>,
    pub invoice_rows: Vec<InvoiceRow>,
    pub claim_rows: Vec<ClaimRow>,
    pub events: Vec<String>,
    pub conservation_ok: bool,
}

/// The canonical JSON text of invoice metrics.
pub open spec fn invoice_metrics_json(m: InvoiceMetrics) -> Seq<char> {
    "{\"count\":"@ + decimal(m.count as nat) + ",\"accounting_open\":"@ + json_money(
        m.accounting_open@,
    ) + ",\"presentation_open\":"@ + json_money(m.presentation_open@) + ",\"collected\":"@
        + json_money(m.collected@) + ",\"memos\":"@ + json_money(m.memos@) + ",\"statuses\":"@
        + count_table_json(m.statuses@) + "}"@
}

/// The canonical JSON text of ledger metrics.
pub open spec fn ledger_metrics_json(m: LedgerMetrics) -> Seq<char> {
    "{\"accounts\":"@ + decimal(m.accounts as nat) + ",\"entries\":"@ + decimal(m.entries as nat)
        + ",\"balanced\":"@ + json_bool(m.balanced) + ",\"total_debits\":"@ + json_money(
        m.total_debits@,
    ) + ",\"total_credits\":"@ + json_money(m.total_credits@) + "}"@
}

/// The canonical JSON text of settlement metrics.
pub open spec fn settlement_metrics_json(m: SettlementMetrics) -> Seq<char> {
    "{\"obligations\":"@ + decimal(m.obligations as nat) + ",\"obligation_total\":"@ + json_money(
        m.obligation_total@,
    ) + ",\"claims\":"@ + decimal(m.claims as nat) + ",\"posted_claims\":"@ + decimal(
        m.posted_claims as nat,
    ) + ",\"active_claim_total\":"@ + json_money(m.active_claim_total@)
        + ",\"frozen_claim_total\":"@ + json_money(m.frozen_claim_total@) + "}"@
}

/// The canonical JSON text of close metrics.
pub open spec fn close_metrics_json(m: CloseMetrics) -> Seq<char> {
    "{\"id\":"@ + json_string(m.id@) + ",\"period\":"@ + json_string(m.period@) + ",\"status\":"@
        + json_string(m.status@) + ",\"accounting_open\":"@ + json_money(m.accounting_open@)
        + ",\"presentation_open\":"@ + json_money(m.presentation_open@)
        + ",\"settlement_obligations\":"@ + json_money(m.settlement_obligations@) + ",\"digest\":"@
        + json_string(m.digest@) + "}"@
}

/// The canonical JSON text of close metrics that may be absent.
pub open spec fn opt_close_metrics_json(m: Option<CloseMetrics>) -> Seq<char> {
    match m {
        Some(c) => close_metrics_json(c),
        None => "null"@,
    }
}

/// The canonical JSON text of an invoice row.
pub open spec fn invoice_row_json(r: InvoiceRow) -> Seq<char> {
    "{\"id\":"@ + json_string(r.id@) + ",\"buyer\":"@ + json_string(r.buyer@) + ",\"status\":"@
        + json_string(invoice_status_name(r.status)) + ",\"total\":"@ + json_money(r.total@)
        + ",\"receipts\":"@ + json_money(r.receipts@) + ",\"memos\":"@ + json_money(r.memos@)
        + ",\"accounting_open\":"@ + json_money(r.accounting_open@) + ",\"presentation_open\":"@
        + json_money(r.presentation_open@) + "}"@
}

/// The canonical JSON text of a claim row.
pub open spec fn claim_row_json(r: ClaimRow) -> Seq<char> {
    "{\"id\":"@ + json_string(r.id@) + ",\"invoice_id\":"@ + json_string(r.invoice_id@)
        + ",\"amount\":"@ + json_money(r.amount@) + ",\"status\":"@ + json_string(
        claim_status_name(r.status),
    ) + "}"@
}

/// The canonical JSON text of what a scenario report's digest covers: every field but
/// the digest, in declaration order.
#[verifier::opaque]
pub open spec fn fingerprint_json(r: ScenarioReport) -> Seq<char> {
    "{\"scenario\":"@ + json_string(r.scenario@) + ",\"day\":"@ + decimal(r.day as nat)
        + ",\"invoices\":"@ + invoice_metrics_json(r.invoices) + ",\"ledger\":"@
        + ledger_metrics_json(r.ledger) + ",\"settlement\":"@ + settlement_metrics_json(
        r.settlement,
    ) + ",\"close\":"@ + opt_close_metrics_json(r.close) + ",\"invoice_rows\":"@ + json_array(
        r.invoice_rows@.map_values(|x: InvoiceRow| invoice_row_json(x)),
    ) + ",\"claim_rows\":"@ + json_array(r.claim_rows@.map_values(|x: ClaimRow| claim_row_json(x)))
        + ",\"events\":"@ + json_array(r.events@.map_values(|e: String| json_string(e@)))
        + ",\"conservation_ok\":"@ + json_bool(r.conservation_ok) + "}"@
}

impl InvoiceMetrics {
    pub fn canonical_json(&self) -> (r: String)
        ensures
            r@ == invoice_metrics_json(*self),
    {
        let mut r = String::from_str("{\"count\":");
        push_decimal(&mut r, self.count as u128);
        r.append(",\"accounting_open\":");
        push_json_money(&mut r, self.accounting_open.cents);
        r.append(",\"presentation_open\":");
        push_json_money(&mut r, self.presentation_open.cents);
        r.append(",\"collected\":");
        push_json_money(&mut r, self.collected.cents);
        r.append(",\"memos\":");
        push_json_money(&mut r, self.memos.cents);
        r.append(",\"statuses\":");
        r.append(count_table_canonical_json(&self.statuses).as_str());
        r.append("}");
        r
    }
}

impl LedgerMetrics {
    pub fn canonical_json(&self) -> (r: String)
        ensures
            r@ == ledger_metrics_json(*self),
    {
        let mut r = String::from_str("{\"accounts\":");
        push_decimal(&mut r, self.accounts as u128);
        r.append(",\"entries\":");
        push_decimal(&mut r, self.entries as u128);
        r.append(",\"balanced\":");
        push_json_bool(&mut r, self.balanced);
        r.append(",\"total_debits\":");
        push_json_money(&mut r, self.total_debits.cents);
        r.append(",\"total_credits\":");
        push_json_money(&mut r, self.total_credits.cents);
        r.append("}");
        r
    }
}

impl SettlementMetrics {
    pub fn canonical_json(&self) -> (r: String)
        ensures
            r@ == settlement_metrics_json(*self),
    {
        let mut r = String::from_str("{\"obligations\":");
        push_decimal(&mut r, self.obligations as u128);
        r.append(",\"obligation_total\":");
        push_json_money(&mut r, self.obligation_total.cents);
        r.append(",\"claims\":");
        push_decimal(&mut r, self.claims as u128);
        r.append(",\"posted_claims\":");
        push_decimal(&mut r, self.posted_claims as u128);
        r.append(",\"active_claim_total\":");
        push_json_money(&mut r, self.active_claim_total.cents);
        r.append(",\"frozen_claim_total\":");
        push_json_money(&mut r, self.frozen_claim_total.cents);
        r.append("}");
        r
    }
}

impl CloseMetrics {
    pub fn canonical_json(&self) -> (r: String)
        ensures
            r@ == close_metrics_json(*self),
    {
        let mut r = String::from_str("{\"id\":");
        push_json_string(&mut r, self.id.as_str());
        r.append(",\"period\":");
        push_json_string(&mut r, self.period.as_str());
        r.append(",\"status\":");
        push_json_string(&mut r, self.status.as_str());
        r.append(",\"accounting_open\":");
        push_json_money(&mut r, self.accounting_open.cents);
        r.append(",\"presentation_open\":");
        push_json_money(&mut r, self.presentation_open.cents);
        r.append(",\"settlement_obligations\":");
        push_json_money(&mut r, self.settlement_obligations.cents);
        r.append(",\"digest\":");
        push_json_string(&mut r, self.digest.as_str());
        r.append("}");
        r
    }
}

impl InvoiceRow {
    pub fn canonical_json(&self) -> (r: String)
        ensures
            r@ == invoice_row_json(*self),
    {
        let mut r = String::from_str("{\"id\":");
        push_json_string(&mut r, self.id.as_str());
        r.append(",\"buyer\":");
        push_json_string(&mut r, self.buyer.as_str());
        r.append(",\"status\":");
        push_json_string(&mut r, self.status.name());
        r.append(",\"total\":");
        push_json_money(&mut r, self.total.cents);
        r.append(",\"receipts\":");
        push_json_money(&mut r, self.receipts.cents);
        r.append(",\"memos\":");
        push_json_money(&mut r, self.memos.cents);
        r.append(",\"accounting_open\":");
        push_json_money(&mut r, self.accounting_open.cents);
        r.append(",\"presentation_open\":");
        push_json_money(&mut r, self.presentation_open.cents);
        r.append("}");
        r
    }
}

impl ClaimRow {
    pub fn canonical_json(&self) -> (r: String)
        ensures
            r@ == claim_row_json(*self),
    {
        let mut r = String::from_str("{\"id\":");
        push_json_string(&mut r, self.id.as_str());
        r.append(",\"invoice_id\":");
        push_json_string(&mut r, self.invoice_id.as_str());
        r.append(",\"amount\":");
        push_json_money(&mut r, self.amount.cents);
        r.append(",\"status\":");
        push_json_string(&mut r, self.status.name());
        r.append("}");
        r
    }
}

/// The texts of the invoice rows.
fn invoice_row_texts(rows: &Vec<InvoiceRow>) -> (r: Vec<String>)
    ensures
        r@.map_values(|t: String| t@) == rows@.map_values(|x: InvoiceRow| invoice_row_json(x)),
{
    let ghost xs = rows@;
    let mut texts: Vec<String> = Vec::new();
    let mut i: usize = 0;
    while i < rows.len()
        invariant
            xs == rows@,
            i <= xs.len(),
            texts@.map_values(|t: String| t@) == xs.take(i as int).map_values(
                |x: InvoiceRow| invoice_row_json(x),
            ),
        decreases xs.len() - i,
    {
        let t = rows[i].canonical_json();
        proof {
            lemma_texts_push(texts@, xs, |x: InvoiceRow| invoice_row_json(x), t, i as int);
        }
        texts.push(t);
        i = i + 1;
    }
    assert(xs.take(xs.len() as int) =~= xs);
    texts
}

/// The texts of the claim rows.
fn claim_row_texts(rows: &Vec<ClaimRow>) -> (r: Vec<String>)
    ensures
        r@.map_values(|t: String| t@) == rows@.map_values(|x: ClaimRow| claim_row_json(x)),
{
    let ghost xs = rows@;
    let mut texts: Vec<String> = Vec::new();
    let mut i: usize = 0;
    while i < rows.len()
        invariant
            xs == rows@,
            i <= xs.len(),
            texts@.map_values(|t: String| t@) == xs.take(i as int).map_values(
                |x: ClaimRow| claim_row_json(x),
            ),
        decreases xs.len() - i,
    {
        let t = rows[i].canonical_json();
        proof {
            lemma_texts_push(texts@, xs, |x: ClaimRow| claim_row_json(x), t, i as int);
        }
        texts.push(t);
        i = i + 1;
    }
    assert(xs.take(xs.len() as int) =~= xs);
    texts
}

/// The texts of the events, as JSON strings.
fn event_texts(events: &Vec<String>) -> (r: Vec<String>)
    ensures
        r@.map_values(|t: String| t@) == events@.map_values(|e: String| json_string(e@)),
{
    let ghost xs = events@;
    let mut texts: Vec<String> = Vec::new();
    let mut i: usize = 0;
    while i < events.len()
        invariant
            xs == events@,
            i <= xs.len(),
            texts@.map_values(|t: String| t@) == xs.take(i as int).map_values(
                |e: String| json_string(e@),
            ),
        decreases xs.len() - i,
    {
        let mut t = String::new();
        push_json_string(&mut t, events[i].as_str());
        proof {
            assert(Seq::<char>::empty() + json_string(xs[i as int]@) =~= json_string(xs[i as int]@));
            lemma_texts_push(texts@, xs, |e: String| json_string(e@), t, i as int);
        }
        texts.push(t);
        i = i + 1;
    }
    assert(xs.take(xs.len() as int) =~= xs);
    texts
}

impl ScenarioReport {
    /// The canonical JSON text of every field but the digest.
    pub fn fingerprint_json(&self) -> (r: String)
        ensures
            r@ == fingerprint_json(*self),
    {
        proof {
            reveal(fingerprint_json);
        }
        let row_texts = invoice_row_texts(&self.invoice_rows);
        let claim_texts = claim_row_texts(&self.claim_rows);
        let events = event_texts(&self.events);
        let mut r = String::from_str("{\"scenario\":");
        push_json_string(&mut r, self.scenario.as_str());
        r.append(",\"day\":");
        push_decimal(&mut r, self.day as u128);
        r.append(",\"invoices\":");
        r.append(self.invoices.canonical_json().as_str());
        r.append(",\"ledger\":");
        r.append(self.ledger.canonical_json().as_str());
        r.append(",\"settlement\":");
        r.append(self.settlement.canonical_json().as_str());
        r.append(",\"close\":");
        match &self.close {
            Some(c) => r.append(c.canonical_json().as_str()),
            None => r.append("null"),
        }
        r.append(",\"invoice_rows\":");
        push_json_array(&mut r, &row_texts);
        r.append(",\"claim_rows\":");
        push_json_array(&mut r, &claim_texts);
        r.append(",\"events\":");
        push_json_array(&mut r, &events);
        r.append(",\"conservation_ok\":");
        push_json_bool(&mut r, self.conservation_ok);
        r.append("}");
        r
    }
}

/// The invoice metrics of a desk whose invoices are `invs`.
pub open spec fn invoice_metrics_hold(m: InvoiceMetrics, invs: Seq<Invoice>) -> bool {
    &&& m.count == invs.len()
    &&& m.accounting_open@ == seq_sum(accounting_opens(invs))
    &&& m.presentation_open@ == seq_sum(presentation_opens(invs))
    &&& m.collected@ == seq_sum(receipt_amounts(invs))
    &&& m.memos@ == seq_sum(net_memos(invs))
    &&& count_table(m.statuses@) == status_counts_spec(invs)
}

/// Whether the invoice metrics can be computed in `i64`.
pub open spec fn invoice_metrics_ok(invs: Seq<Invoice>) -> bool {
    &&& accounting_total_ok(invs)
    &&& presentation_total_ok(invs)
    &&& running_sums_fit(receipt_amounts(invs))
    &&& memo_total_ok(invs)
}

/// The settlement metrics of a desk whose settlement book is `b`.
pub open spec fn settlement_metrics_hold(m: SettlementMetrics, b: crate::settlement::book::SettlementBook) -> bool {
    &&& m.obligations == b.all_obligations().len()
    &&& m.obligation_total@ == seq_sum(presentable_amounts(b.all_obligations()))
    &&& m.claims == b.all_claims().len()
    &&& m.posted_claims == b.all_claims().filter(|c: SettlementClaim| c.status == ClaimStatus::Posted).len()
    &&& m.active_claim_total@ == seq_sum(claim_amounts(active_claims(b.all_claims())))
    &&& m.frozen_claim_total@ == seq_sum(claim_amounts(frozen_claims(b.all_claims())))
}

/// Whether the settlement metrics can be computed in `i64`.
pub open spec fn settlement_metrics_ok(b: crate::settlement::book::SettlementBook) -> bool {
    &&& running_sums_fit(presentable_amounts(b.all_obligations()))
    &&& running_sums_fit(claim_amounts(active_claims(b.all_claims())))
    &&& running_sums_fit(claim_amounts(frozen_claims(b.all_claims())))
}

/// The row of an invoice.
pub open spec fn invoice_row_holds(r: InvoiceRow, inv: Invoice) -> bool {
    &&& r.id == inv.id
    &&& r.buyer == inv.buyer
    &&& r.status == inv.status
    &&& r.total@ == inv.gross()
    &&& r.receipts == inv.receipts_applied
    &&& r.memos@ == inv.credit_memos_applied@ - inv.debit_memos_applied@
    &&& r.accounting_open@ == inv.accounting_open()
    &&& r.presentation_open@ == inv.presentation_open()
}

/// Whether the row of an invoice can be computed in `i64`.
pub open spec fn invoice_row_ok(inv: Invoice) -> bool {
    inv.amounts_fit() && fits_i64(inv.credit_memos_applied@ - inv.debit_memos_applied@)
}

/// The row of a claim.
pub open spec fn claim_row_holds(r: ClaimRow, c: SettlementClaim) -> bool {
    &&& r.id@ == c.id@
    &&& r.invoice_id == c.invoice_id
    &&& r.amount == c.amount
    &&& r.status == c.status
}

/// The figures of a close batch.
pub open spec fn close_metrics_hold(m: CloseMetrics, b: CloseBatch) -> bool {
    &&& m.id@ == b.id@
    &&& m.period@ == period_label(b.period)
    &&& m.status@ == close_status_name(b.status)
    &&& m.accounting_open == b.report.accounting_open
    &&& m.presentation_open == b.report.presentation_open
    &&& m.settlement_obligations == b.report.settlement_obligations
    &&& m.digest@ == b.digest@
}

/// Whether every figure of the report on this desk can be computed in `i64`.
pub open spec fn report_ok(st: SableState) -> bool {
    &&& trial_ok(st.ledger.slots())
    &&& invoice_metrics_ok(st.invoices.all())
    &&& settlement_metrics_ok(st.settlement)
    &&& forall|i: int|
        0 <= i < st.invoices.all().len() ==> invoice_row_ok(#[trigger] st.invoices.all()[i])
}

/// On a desk in shape, with its obligations rebuilt, every figure of the report can be
/// computed.
proof fn lemma_report_ok(st: SableState, b: int)
    requires
        desk_ready(st, b),
        st.settlement.obligation_entries_spec() == obligation_entries(st.invoices.all()),
    ensures
        report_ok(st),
{
    reveal(desk_ready);
    let s = st.ledger.slots();
    assert forall|i: int| 0 <= i < s.len() implies -b <= (#[trigger] s[i]).1.balance@ <= b by {
        crate::keyed::lemma_sorted_index_unique(entry_keys(s), i, s[i].0@);
        assert(-b <= balance_of(s, s[i].0@) <= b);
    }
    assert forall|i: int| 0 <= i < debit_parts(s).len() implies -b <= #[trigger] debit_parts(s)[i] <= b by {
        assert(-b <= s[i].1.balance@ <= b);
    }
    assert forall|i: int| 0 <= i < credit_parts(s).len() implies -b <= #[trigger] credit_parts(s)[i] <= b by {
        assert(-b <= s[i].1.balance@ <= b);
    }
    crate::amount::lemma_small_running_sums(debit_parts(s), b);
    crate::amount::lemma_small_running_sums(credit_parts(s), b);
    let invs = st.invoices.all();
    let b2 = 2 * b;
    assert forall|i: int| 0 <= i < invs.len() implies {
        &&& -b2 <= #[trigger] accounting_opens(invs)[i] <= b2
        &&& -b2 <= presentation_opens(invs)[i] <= b2
        &&& -b2 <= receipt_amounts(invs)[i] <= b2
        &&& -b2 <= net_memos(invs)[i] <= b2
        &&& invoice_row_ok(invs[i])
    } by {
        assert(small_invoice(invs[i], b));
    }
    assert forall|i: int| 0 <= i < presentation_opens(invs).len() implies -b2 <= #[trigger] presentation_opens(invs)[i] <= b2 by {
        assert(-b2 <= accounting_opens(invs)[i] <= b2);
    }
    assert forall|i: int| 0 <= i < receipt_amounts(invs).len() implies -b2 <= #[trigger] receipt_amounts(invs)[i] <= b2 by {
        assert(-b2 <= accounting_opens(invs)[i] <= b2);
    }
    assert forall|i: int| 0 <= i < net_memos(invs).len() implies -b2 <= #[trigger] net_memos(invs)[i] <= b2 by {
        assert(-b2 <= accounting_opens(invs)[i] <= b2);
    }
    crate::amount::lemma_small_running_sums(accounting_opens(invs), b2);
    crate::amount::lemma_small_running_sums(presentation_opens(invs), b2);
    crate::amount::lemma_small_running_sums(receipt_amounts(invs), b2);
    crate::amount::lemma_small_running_sums(net_memos(invs), b2);
    let os = st.settlement.all_obligations();
    let pred = |inv: Invoice| crate::settlement::model::has_obligation(inv);
    invs.filter_lemma(pred);
    assert(os =~= invs.filter(pred).map_values(|inv: Invoice| crate::settlement::model::obligation_of(inv)));
    assert forall|i: int| 0 <= i < presentable_amounts(os).len() implies -b2 <= #[trigger] presentable_amounts(os)[i] <= b2 by {
        let x = invs.filter(pred)[i];
        crate::keyed::lemma_filter_member(invs, pred, i);
        let m = choose|m: int| 0 <= m < invs.len() && invs[m] == x;
        assert(-b2 <= presentation_opens(invs)[m] <= b2);
    }
    crate::amount::lemma_small_running_sums(presentable_amounts(os), b2);
    let cs = st.settlement.all_claims();
    let ap = |c: SettlementClaim| c.status.active();
    cs.filter_lemma(ap);
    assert forall|i: int| 0 <= i < claim_amounts(active_claims(cs)).len() implies -b <= #[trigger] claim_amounts(active_claims(cs))[i] <= b by {
        crate::keyed::lemma_filter_member(cs, ap, i);
    }
    crate::amount::lemma_small_running_sums(claim_amounts(active_claims(cs)), b);
    let fp = |c: SettlementClaim| c.status == ClaimStatus::Frozen;
    cs.filter_lemma(fp);
    assert forall|i: int| 0 <= i < claim_amounts(frozen_claims(cs)).len() implies -b <= #[trigger] claim_amounts(frozen_claims(cs))[i] <= b by {
        crate::keyed::lemma_filter_member(cs, fp, i);
    }
    crate::amount::lemma_small_running_sums(claim_amounts(frozen_claims(cs)), b);
}

/// On a desk in shape, with its obligations rebuilt, the close report of any period can be
/// computed.
proof fn lemma_reconciliation_ok(st: SableState, b: int, period: Period)
    requires
        desk_ready(st, b),
        st.settlement.obligation_entries_spec() == obligation_entries(st.invoices.all()),
    ensures
        crate::close::reconciliation_ok(
            period,
            st.invoices.all(),
            st.receipts.all(),
            st.settlement.all_claims(),
            entry_values(obligation_entries(st.invoices.all())),
            st.ledger,
        ),
{
    reveal(desk_ready);
    lemma_report_ok(st, b);
    let invs = st.invoices.all();
    let b2 = 2 * b;
    let as_of = period.end_day;
    assert forall|i: int| 0 <= i < invs.len() implies {
        &&& -b2 <= #[trigger] accounting_opens(invs)[i] <= b2
        &&& -b2 <= presentation_opens(invs)[i] <= b2
        &&& -b2 <= grosses(invs)[i] <= b2
        &&& invs[i].amounts_fit()
    } by {
        assert(small_invoice(invs[i], b));
    }
    assert forall|i: int| 0 <= i < grosses(invs).len() implies -b2 <= #[trigger] grosses(invs)[i] <= b2 by {
        assert(-b2 <= accounting_opens(invs)[i] <= b2);
    }
    crate::amount::lemma_small_running_sums(grosses(invs), b2);
    assert forall|k: int| 0 <= k < 5 implies running_sums_fit(#[trigger] band_accounting(invs, as_of, k))
        && running_sums_fit(band_presentation(invs, as_of, k)) && -100 * b <= band_accounting_totals(invs, as_of)[k]
        <= 100 * b && -100 * b <= band_presentation_totals(invs, as_of)[k] <= 100 * b by {
        let pred = in_band(as_of, k);
        let ms = invs.filter(pred);
        invs.filter_lemma(pred);
        invs.lemma_filter_len(pred);
        assert forall|j: int| 0 <= j < accounting_opens(ms).len() implies -b2 <= #[trigger] accounting_opens(ms)[j] <= b2 by {
            crate::keyed::lemma_filter_member(invs, pred, j);
            let m = choose|m: int| 0 <= m < invs.len() && invs[m] == ms[j];
            assert(-b2 <= accounting_opens(invs)[m] <= b2);
        }
        assert forall|j: int| 0 <= j < presentation_opens(ms).len() implies -b2 <= #[trigger] presentation_opens(ms)[j] <= b2 by {
            crate::keyed::lemma_filter_member(invs, pred, j);
            let m = choose|m: int| 0 <= m < invs.len() && invs[m] == ms[j];
            assert(-b2 <= accounting_opens(invs)[m] <= b2);
        }
        crate::amount::lemma_small_running_sums(accounting_opens(ms), b2);
        crate::amount::lemma_small_running_sums(presentation_opens(ms), b2);
        crate::amount::lemma_sum_first_bounded(accounting_opens(ms), b2, ms.len());
        crate::amount::lemma_sum_first_bounded(presentation_opens(ms), b2, ms.len());
        assert(ms.len() * b2 <= 100 * b) by (nonlinear_arith)
            requires
                ms.len() <= 50,
                b2 == 2 * b,
                b >= 0,
        ;
    }
    assert forall|k: int| 0 <= k < band_accounting_totals(invs, as_of).len() implies -100 * b <= #[trigger] band_accounting_totals(invs, as_of)[k] <= 100 * b by {
        assert(running_sums_fit(band_accounting(invs, as_of, k)));
    }
    assert forall|k: int| 0 <= k < band_presentation_totals(invs, as_of).len() implies -100 * b <= #[trigger] band_presentation_totals(invs, as_of)[k] <= 100 * b by {
        assert(running_sums_fit(band_accounting(invs, as_of, k)));
    }
    crate::amount::lemma_small_running_sums(band_accounting_totals(invs, as_of), 100 * b);
    crate::amount::lemma_small_running_sums(band_presentation_totals(invs, as_of), 100 * b);
    let rs = st.receipts.all();
    assert forall|i: int| 0 <= i < receipt_values(rs).len() implies -b <= #[trigger] receipt_values(rs)[i] <= b by {
        assert(0 <= rs[i].amount@ <= b);
    }
    crate::amount::lemma_small_running_sums(receipt_values(rs), b);
}

/// The report of a scenario on the desk `st`.
pub open spec fn report_holds(
    rep: ScenarioReport,
    st: SableState,
    scenario: Seq<char>,
    day: u32,
    close: Option<CloseBatch>,
    events: Seq<String>,
) -> bool {
    &&& rep.scenario@ == scenario
    &&& rep.day == day
    &&& invoice_metrics_hold(rep.invoices, st.invoices.all())
    &&& rep.ledger.accounts == st.ledger.slots().len()
    &&& rep.ledger.entries == st.ledger.entries().len()
    &&& rep.ledger.balanced
    &&& rep.ledger.total_debits == rep.ledger.total_credits
    &&& rep.ledger.total_debits@ == seq_sum(debit_parts(st.ledger.slots()))
    &&& rep.ledger.total_credits@ == seq_sum(credit_parts(st.ledger.slots()))
    &&& settlement_metrics_hold(rep.settlement, st.settlement)
    &&& match close {
        None => rep.close is None,
        Some(b) => rep.close matches Some(m) && close_metrics_hold(m, b),
    }
    &&& rep.invoice_rows@.len() == st.invoices.all().len()
    &&& forall|i: int|
        0 <= i < rep.invoice_rows@.len() ==> invoice_row_holds(
            #[trigger] rep.invoice_rows@[i],
            st.invoices.all()[i],
        )
    &&& rep.claim_rows@.len() == st.settlement.all_claims().len()
    &&& forall|i: int|
        0 <= i < rep.claim_rows@.len() ==> claim_row_holds(
            #[trigger] rep.claim_rows@[i],
            st.settlement.all_claims()[i],
        )
    &&& rep.events@ == events
    &&& rep.conservation_ok == rep.ledger.balanced
    &&& rep.digest@ == blake3_hex(vstd::utf8::encode_utf8(fingerprint_json(rep)))
    &&& rep.digest@.len() == 64
    &&& forall|i: int| 0 <= i < rep.digest@.len() ==> lower_hex(#[trigger] rep.digest@[i])
}

fn invoice_metrics(st: &SableState) -> (r: Option<InvoiceMetrics>)
    requires
        st.wf(),
    ensures
        invoice_metrics_ok(st.invoices.all()) ==> (r matches Some(m) && invoice_metrics_hold(
            m,
            st.invoices.all(),
        )),
        !invoice_metrics_ok(st.invoices.all()) ==> r is None,
{
    let accounting_open = match st.invoices.try_open_accounting_total() {
        Some(m) => m,
        None => return None,
    };
    let presentation_open = match st.invoices.try_open_presentation_total() {
        Some(m) => m,
        None => return None,
    };
    let collected = match st.invoices.try_collected_total() {
        Some(m) => m,
        None => return None,
    };
    let memos = match st.invoices.try_memo_total() {
        Some(m) => m,
        None => return None,
    };
    Some(
        InvoiceMetrics {
            count: st.invoices.len(),
            accounting_open,
            presentation_open,
            collected,
            memos,
            statuses: status_counts(&st.invoices),
        },
    )
}

fn settlement_metrics(st: &SableState) -> (r: Option<SettlementMetrics>)
    requires
        st.wf(),
    ensures
        settlement_metrics_ok(st.settlement) ==> (r matches Some(m) && settlement_metrics_hold(
            m,
            st.settlement,
        )),
        !settlement_metrics_ok(st.settlement) ==> r is None,
{
    let obligation_total = match st.settlement.try_obligation_total() {
        Some(m) => m,
        None => return None,
    };
    let active = match st.settlement.try_active_claim_total() {
        Some(m) => m,
        None => return None,
    };
    let frozen = match st.settlement.try_frozen_total() {
        Some(m) => m,
        None => return None,
    };
    let obligations = st.settlement.obligations();
    let claims = st.settlement.claims();
    assert(derefs(obligations@).len() == obligations@.len());
    assert(derefs(claims@).len() == claims@.len());
    Some(
        SettlementMetrics {
            obligations: obligations.len(),
            obligation_total,
            claims: claims.len(),
            posted_claims: st.settlement.posted_count(),
            active_claim_total: active,
            frozen_claim_total: frozen,
        },
    )
}

fn close_metrics(close: &CloseBatch) -> (r: CloseMetrics)
    ensures
        close_metrics_hold(r, *close),
{
    CloseMetrics {
        id: close.id.to_text(),
        period: close.period.label(),
        status: String::from_str(close.status.name()),
        accounting_open: close.report.accounting_open,
        presentation_open: close.report.presentation_open,
        settlement_obligations: close.report.settlement_obligations,
        digest: close.digest.to_text(),
    }
}

fn invoice_rows(st: &SableState) -> (r: Option<Vec<InvoiceRow>>)
    requires
        st.wf(),
    ensures
        (forall|i: int|
            0 <= i < st.invoices.all().len() ==> invoice_row_ok(#[trigger] st.invoices.all()[i]))
            ==> (r matches Some(rows) && rows@.len() == st.invoices.all().len() && forall|i: int|
            0 <= i < rows@.len() ==> invoice_row_holds(
                #[trigger] rows@[i],
                st.invoices.all()[i],
            )),
        !(forall|i: int|
            0 <= i < st.invoices.all().len() ==> invoice_row_ok(#[trigger] st.invoices.all()[i]))
            ==> r is None,
{
    let values = st.invoices.values();
    let ghost invs = st.invoices.all();
    let mut rows: Vec<InvoiceRow> = Vec::new();
    let mut i: usize = 0;
    while i < values.len()
        invariant
            derefs(values@) == invs,
            invs == st.invoices.all(),
            i <= invs.len(),
            rows@.len() == i,
            forall|j: int| 0 <= j < i ==> invoice_row_ok(#[trigger] invs[j]),
            forall|j: int| 0 <= j < i ==> invoice_row_holds(#[trigger] rows@[j], invs[j]),
        decreases invs.len() - i,
    {
        let inv = values[i];
        assert(*inv == invs[i as int]);
        let memo = inv.credit_memos_applied.cents as i128 - inv.debit_memos_applied.cents as i128;
        if !inv.amounts_fit_exec() || memo < i64::MIN as i128 || memo > i64::MAX as i128 {
            return None;
        }
        rows.push(
            InvoiceRow {
                id: inv.id.duplicate(),
                buyer: inv.buyer.duplicate(),
                status: inv.status,
                total: inv.gross_obligation(),
                receipts: inv.receipts_applied,
                memos: Money { cents: memo as i64 },
                accounting_open: inv.accounting_outstanding(),
                presentation_open: inv.presentation_outstanding(),
            },
        );
        i = i + 1;
    }
    Some(rows)
}

fn claim_rows(st: &SableState) -> (r: Vec<ClaimRow>)
    requires
        st.wf(),
    ensures
        r@.len() == st.settlement.all_claims().len(),
        forall|i: int|
            0 <= i < r@.len() ==> claim_row_holds(#[trigger] r@[i], st.settlement.all_claims()[i]),
{
    let claims = st.settlement.claims();
    let ghost cs = st.settlement.all_claims();
    let mut rows: Vec<ClaimRow> = Vec::new();
    let mut i: usize = 0;
    while i < claims.len()
        invariant
            derefs(claims@) == cs,
            cs == st.settlement.all_claims(),
            i <= cs.len(),
            rows@.len() == i,
            forall|j: int| 0 <= j < i ==> claim_row_holds(#[trigger] rows@[j], cs[j]),
        decreases cs.len() - i,
    {
        let c = claims[i];
        assert(*c == cs[i as int]);
        rows.push(
            ClaimRow {
                id: c.id.to_text(),
                invoice_id: c.invoice_id.duplicate(),
                amount: c.amount,
                status: c.status,
            },
        );
        i = i + 1;
    }
    rows
}

/// The report of a scenario that ran on `state` until `day`; every figure is taken from
/// the desk as it stands, and the digest seals the rest of the report.
pub(crate) fn build_report(
    state: SableState,
    scenario: &str,
    day: u32,
    close: Option<CloseBatch>,
    events: Vec<String>,
) -> (r: SableResult<ScenarioReport>)
    requires
        state.wf(),
    ensures
        report_ok(state) ==> (r matches Ok(rep) && report_holds(
            rep,
            state,
            scenario@,
            day,
            close,
            events@,
        )),
        !report_ok(state) ==> r == Err::<ScenarioReport, SableError>(
            SableError::ArithmeticOverflow,
        ),
{
    let trial = match state.ledger.try_trial_balance() {
        Some(tb) => tb,
        None => return Err(SableError::ArithmeticOverflow),
    };
    let invoices = match invoice_metrics(&state) {
        Some(m) => m,
        None => return Err(SableError::ArithmeticOverflow),
    };
    let ledger = LedgerMetrics {
        accounts: state.ledger.account_count(),
        entries: state.ledger.journal().len(),
        balanced: trial.balanced,
        total_debits: trial.total_debits,
        total_credits: trial.total_credits,
    };
    let settlement = match settlement_metrics(&state) {
        Some(m) => m,
        None => return Err(SableError::ArithmeticOverflow),
    };
    let close_figures = match &close {
        Some(b) => Some(close_metrics(b)),
        None => None,
    };
    let invoice_rows = match invoice_rows(&state) {
        Some(rows) => rows,
        None => return Err(SableError::ArithmeticOverflow),
    };
    let claim_rows = claim_rows(&state);
    let conservation_ok = ledger.balanced;
    let mut report = ScenarioReport {
        scenario: String::from_str(scenario),
        day,
        digest: String::new(),
        invoices,
        ledger,
        settlement,
        close: close_figures,
        invoice_rows,
        claim_rows,
        events,
        conservation_ok,
    };
    let fingerprint = report.fingerprint_json();
    let digest = text_digest(fingerprint.as_str());
    let ghost before = report;
    report.digest = digest.to_text();
    assert(fingerprint_json(report) == fingerprint_json(before)) by {
        reveal(fingerprint_json);
    }
    Ok(report)
}

/// A report whose books balance and whose digest seals everything else in it.
pub open spec fn report_sealed(rep: ScenarioReport) -> bool {
    &&& rep.conservation_ok
    &&& rep.ledger.balanced
    &&& rep.ledger.total_debits == rep.ledger.total_credits
    &&& rep.digest@ == blake3_hex(vstd::utf8::encode_utf8(fingerprint_json(rep)))
    &&& rep.digest@.len() == 64
    &&& forall|i: int| 0 <= i < rep.digest@.len() ==> lower_hex(#[trigger] rep.digest@[i])
}

/// Scenario digests are reproducible: two sealed reports that agree on everything the
/// digest covers carry the same digest.
pub proof fn lemma_digest_reproducible(a: ScenarioReport, b: ScenarioReport)
    requires
        report_sealed(a),
        report_sealed(b),
        (ScenarioReport { digest: b.digest, ..a }) == b,
    ensures
        a.digest@ == b.digest@,
{
    reveal(fingerprint_json);
}

/// The events line of a scenario that counts something.
fn counted_event(prefix: &str, n: usize, suffix: &str) -> (r: String)
    ensures
        r@ == prefix@ + decimal(n as nat) + suffix@,
{
    let mut r = String::from_str(prefix);
    push_decimal(&mut r, n as u128);
    r.append(suffix);
    r
}

/// Rebuilds the obligations of the desk when they can be computed.
fn refresh_checked(state: &mut SableState, Ghost(b): Ghost<int>) -> (r: SableResult<()>)
    requires
        old(state).wf(),
    ensures
        desk_ready(*old(state), b) ==> r is Ok && desk_ready(*final(state), b),
        final(state).wf(),
        final(state).invoices == old(state).invoices,
        final(state).ledger == old(state).ledger,
        final(state).receipts == old(state).receipts,
        final(state).adjustments == old(state).adjustments,
        same_frame(*old(state), *final(state)),
        final(state).next_invoice == old(state).next_invoice,
        final(state).next_receipt == old(state).next_receipt,
        final(state).next_adjustment == old(state).next_adjustment,
        final(state).next_batch == old(state).next_batch,
        final(state).settlement.claim_entries() == old(state).settlement.claim_entries(),
        final(state).settlement.next_claim_spec() == old(state).settlement.next_claim_spec(),
        r is Ok ==> obligations_computable(final(state).invoices.all())
            && final(state).settlement.obligation_entries_spec() == obligation_entries(
            final(state).invoices.all(),
        ),
        (forall|i: int|
            0 <= i < old(state).invoices.all().len() ==> small_invoice(
                #[trigger] old(state).invoices.all()[i],
                1_000_000_000_000,
            )) ==> r is Ok,
{
    let ghost pre = *state;
    proof {
        assert forall|i: int|
            0 <= i < state.invoices.all().len() && small_invoice(
                #[trigger] state.invoices.all()[i],
                1_000_000_000_000,
            ) implies fits_i64(state.invoices.all()[i].gross()) by {}
        if desk_ready(pre, b) {
            reveal(desk_ready);
            assert(forall|i: int|
                0 <= i < pre.invoices.all().len() ==> small_invoice(
                    #[trigger] pre.invoices.all()[i],
                    1_000_000_000_000,
                ));
        }
    }
    if !obligations_fit(&state.invoices) {
        return Err(SableError::ArithmeticOverflow);
    }
    state.refresh_settlement();
    proof {
        if desk_ready(pre, b) {
            lemma_desk_ready_frame(pre, *state, b);
        }
    }
    Ok(())
}

/// Whether an invoice's figures all lie between zero and `b`.
pub open spec fn small_invoice(inv: Invoice, b: int) -> bool {
    &&& 0 <= inv.total@ <= b
    &&& 0 <= inv.receipts_applied@ <= b
    &&& 0 <= inv.credit_memos_applied@ <= b
    &&& 0 <= inv.debit_memos_applied@ <= b
}

/// The desk a scenario runs on: the standard chart, the ids still to give free in their
/// books, counters far from their limits, and every balance and invoice figure within `b`.
#[verifier::opaque]
pub open spec fn desk_ready(st: SableState, b: int) -> bool {
    &&& st.wf()
    &&& standard_accounts(st.accounts)
    &&& forall|k: Seq<char>|
        #[trigger] has_key(entry_keys(st.ledger.slots()), k) == standard_key(st.accounts, k)
    &&& forall|k: Seq<char>|
        #[trigger] key_active(st.ledger.slots(), k) == standard_key(st.accounts, k)
    &&& forall|n: u64|
        n >= st.next_invoice ==> !has_key(
            entry_keys(st.invoices@),
            #[trigger] generated_text(InvoiceId::prefix(), n),
        )
    &&& forall|n: u64|
        n >= st.next_receipt ==> !has_key(
            entry_keys(st.receipts@),
            #[trigger] generated_text(ReceiptId::prefix(), n),
        )
    &&& forall|n: u64|
        n >= st.next_adjustment ==> !has_key(
            entry_keys(st.adjustments@),
            #[trigger] generated_text(AdjustmentId::prefix(), n),
        )
    &&& st.next_invoice <= 50
    &&& st.next_receipt <= 50
    &&& st.next_adjustment <= 50
    &&& st.next_batch <= 50
    &&& st.settlement.next_claim_spec() <= 50
    &&& st.ledger.next_tx_spec() <= 50
    &&& st.invoices@.len() <= 50
    &&& st.ledger.slots().len() == 6
    &&& 0 <= b <= 1_000_000_000_000
    &&& forall|k: Seq<char>| -b <= #[trigger] balance_of(st.ledger.slots(), k) <= b
    &&& forall|i: int|
        0 <= i < st.invoices.all().len() ==> small_invoice(#[trigger] st.invoices.all()[i], b)
    &&& st.receipts@.len() <= 50
    &&& forall|i: int|
        0 <= i < st.receipts.all().len() ==> 0 <= (#[trigger] st.receipts.all()[i]).amount@ <= b
    &&& st.settlement.all_claims().len() <= 50
    &&& forall|i: int|
        0 <= i < st.settlement.all_claims().len() ==> 0 <= (
        #[trigger] st.settlement.all_claims()[i]).amount@ <= b
}

/// Whether `inv` is a freshly issued untaxed invoice of `amount` on `day`.
pub open spec fn fresh_invoice(inv: Invoice, day: u32, amount: Money) -> bool {
    &&& inv.status == InvoiceStatus::Issued
    &&& inv.total@ == amount@
    &&& inv.receipts_applied@ == 0
    &&& inv.credit_memos_applied@ == 0
    &&& inv.debit_memos_applied@ == 0
    &&& inv.issue_day == day
    &&& inv.due_day == day + 30
}

/// The desk's standard account ids that a posting pairs are distinct.
proof fn lemma_standard_ids_distinct(a: AccountMap)
    requires
        standard_accounts(a),
    ensures
        a.cash@ != a.receivable@,
        a.receivable@ != a.revenue@,
        a.receivable@ != a.allowance@,
        a.receivable@ != a.clearing@,
        a.cash@ != a.clearing@,
        a.cash@ != a.revenue@,
        a.cash@ != a.allowance@,
        a.cash@ != a.suspense@,
        a.receivable@ != a.suspense@,
        a.clearing@ != a.suspense@,
        a.clearing@ != a.revenue@,
        a.clearing@ != a.allowance@,
        a.suspense@ != a.revenue@,
        a.suspense@ != a.allowance@,
        a.revenue@ != a.allowance@,
{
    reveal_strlit("1990-reconciliation-suspense");
    assert("1990-reconciliation-suspense"@.len() == 28);
    reveal_strlit("1000-cash");
    reveal_strlit("1200-accounts-receivable");
    reveal_strlit("1300-settlement-clearing");
    reveal_strlit("4000-merchant-revenue");
    reveal_strlit("4090-commercial-allowance");
    assert("1000-cash"@.len() == 9);
    assert("1200-accounts-receivable"@.len() == 24);
    assert("1300-settlement-clearing"@.len() == 24);
    assert("4000-merchant-revenue"@.len() == 21);
    assert("4090-commercial-allowance"@.len() == 25);
    assert("1200-accounts-receivable"@[1] != "1300-settlement-clearing"@[1]);
}

/// Issues a standard untaxed invoice when its figures stay within machine integers; on a
/// desk in shape it succeeds and files a fresh invoice.
fn issue(
    state: &mut SableState,
    buyer: PartyId,
    external_ref: &str,
    day: u32,
    amount: Money,
    Ghost(b): Ghost<int>,
) -> (r: SableResult<InvoiceId>)
    requires
        old(state).wf(),
    ensures
        final(state).wf(),
        ({
            let pre = *old(state);
            let key = generated_text(InvoiceId::prefix(), pre.next_invoice);
            desk_ready(pre, b) && pre.next_invoice < 50 && pre.ledger.next_tx_spec() < 50
                && pre.invoices@.len() < 50 && 0 < amount@ && b + amount@ <= 1_000_000_000_000
                && day <= 1000 ==> {
                &&& desk_ready(*final(state), b + amount@)
                &&& same_frame(pre, *final(state))
                &&& final(state).next_invoice == pre.next_invoice + 1
                &&& final(state).next_receipt == pre.next_receipt
                &&& final(state).next_batch == pre.next_batch
                &&& final(state).ledger.next_tx_spec() == pre.ledger.next_tx_spec() + 1
                &&& final(state).ledger.entries().len() == pre.ledger.entries().len() + 1
                &&& forall|k: Seq<char>|
                    #[trigger] balance_of(final(state).ledger.slots(), k) == balance_of(pre.ledger.slots(), k)
                        + (if k == pre.accounts.receivable@ { amount@ as int } else { 0 }) - (if k
                        == pre.accounts.revenue@ { amount@ as int } else { 0 })
                &&& final(state).invoices@.len() == pre.invoices@.len() + 1
                &&& final(state).receipts == pre.receipts
                &&& final(state).adjustments == pre.adjustments
                &&& final(state).next_adjustment == pre.next_adjustment
                &&& final(state).settlement == pre.settlement
                &&& r matches Ok(id) && id@ == key
                &&& final(state).invoices.find_spec(key) matches Some(inv) && fresh_invoice(
                    inv,
                    day,
                    amount,
                ) && inv.buyer == buyer
                &&& forall|k: Seq<char>|
                    k != key ==> #[trigger] final(state).invoices.find_spec(k)
                        == pre.invoices.find_spec(k)
            }
        }),
{
    let ghost pre = *state;
    proof {
        reveal(desk_ready);
    }
    let ghost ready = desk_ready(pre, b) && pre.next_invoice < 50 && pre.ledger.next_tx_spec() < 50
        && pre.invoices@.len() < 50 && 0 < amount@ && b + amount@ <= 1_000_000_000_000 && day <= 1000;
    let ghost rec = pre.accounts.receivable;
    let ghost rev = pre.accounts.revenue;
    let zero = Bps::zero();
    let ext = String::from_str(external_ref);
    let ghost ext_v = ext;
    proof {
        if ready {
            lemma_standard_ids_distinct(pre.accounts);
            assert(has_key(entry_keys(pre.ledger.slots()), rec@));
            assert(has_key(entry_keys(pre.ledger.slots()), rev@));
            assert(amount@ * 0 == 0);
            assert(crate::amount::abs(10000) == 10000);
            assert(crate::amount::abs(2) == 2);
            assert(crate::amount::abs(5000) == 5000);
            assert(10000int / 2int == 5000);
            assert(5000int / 10000int == 0);
            assert(crate::amount::trunc_div(10000, 2) == 5000);
            assert(crate::amount::trunc_div(5000, 10000) == 0);
            assert(scaled(amount@, 0, 10000) == 0);
            assert(standard_total(amount, zero) == amount@);
            lemma_pair_small(pre.ledger, rec, rev, amount, b);
        }
    }
    if !state.issue_fits(day, amount, zero) {
        return Err(SableError::ArithmeticOverflow);
    }
    let r = state.issue_standard_invoice(buyer, ext, day, amount, zero);
    proof {
        if ready {
            let key = generated_text(InvoiceId::prefix(), pre.next_invoice);
            assert(!has_key(entry_keys(pre.invoices@), key));
            let id = r->Ok_0;
            let (p, inv) = choose|p: int, inv: Invoice|
                0 <= p <= pre.invoices@.len() && state.invoices@ == pre.invoices@.insert(p, (id, inv))
                    && standard_invoice_made(inv, id, pre.parties.merchant, buyer, ext_v, day, amount, zero);
            let effs = pair_effects(rec, rev, amount);
            lemma_apply_effects_keys(pre.ledger.slots(), effs);
            assert(entry_keys(state.ledger.slots()).len() == state.ledger.slots().len());
            assert forall|n: u64| n >= state.next_invoice implies !has_key(
                entry_keys(state.invoices@),
                #[trigger] generated_text(InvoiceId::prefix(), n),
            ) by {
                lemma_keys_after_insert(pre.invoices@, p, (id, inv), generated_text(InvoiceId::prefix(), n));
                if id@ == generated_text(InvoiceId::prefix(), n) {
                    lemma_generated_injective(InvoiceId::prefix(), pre.next_invoice, n);
                }
            }
            assert(state.invoices.all() =~= pre.invoices.all().insert(p, inv));
            assert forall|i: int| 0 <= i < state.invoices.all().len() implies small_invoice(
                #[trigger] state.invoices.all()[i],
                b + amount@,
            ) by {
                if i < p {
                    assert(state.invoices.all()[i] == pre.invoices.all()[i]);
                } else if i > p {
                    assert(state.invoices.all()[i] == pre.invoices.all()[i - 1]);
                }
            }
            lemma_lookup_after_insert(pre.invoices@, p, id, inv, key);
            assert forall|k: Seq<char>| k != key implies #[trigger] state.invoices.find_spec(k)
                == pre.invoices.find_spec(k) by {
                lemma_lookup_after_insert(pre.invoices@, p, id, inv, k);
            }
        }
    }
    r
}

/// Records a receipt when its figures stay within machine integers; on a desk in shape,
/// against an invoice that takes entries, it succeeds and applies the receipt.
fn receive(
    state: &mut SableState,
    invoice_id: &InvoiceId,
    day: u32,
    amount: Money,
    channel: PaymentChannel,
    bank_ref: &str,
    Ghost(b): Ghost<int>,
) -> (r: SableResult<ReceiptId>)
    requires
        old(state).wf(),
    ensures
        final(state).wf(),
        ({
            let pre = *old(state);
            desk_ready(pre, b) && pre.next_receipt < 50 && pre.ledger.next_tx_spec() < 50
                && pre.receipts@.len() < 50 && 0 < amount@ && b + amount@ <= 1_000_000_000_000
                && (pre.invoices.find_spec(
                invoice_id@,
            ) matches Some(inv) && accepts_entries(inv.status)) ==> {
                &&& desk_ready(*final(state), b + amount@)
                &&& same_frame(pre, *final(state))
                &&& final(state).next_invoice == pre.next_invoice
                &&& final(state).next_batch == pre.next_batch
                &&& final(state).next_receipt == pre.next_receipt + 1
                &&& final(state).receipts@.len() == pre.receipts@.len() + 1
                &&& final(state).ledger.next_tx_spec() == pre.ledger.next_tx_spec() + 1
                &&& final(state).ledger.entries().len() == pre.ledger.entries().len() + 1
                &&& forall|k: Seq<char>|
                    #[trigger] balance_of(final(state).ledger.slots(), k) == balance_of(pre.ledger.slots(), k)
                        + (if k == pre.accounts.cash@ { amount@ as int } else { 0 }) - (if k
                        == pre.accounts.receivable@ { amount@ as int } else { 0 })
                &&& final(state).invoices@.len() == pre.invoices@.len()
                &&& final(state).adjustments == pre.adjustments
                &&& final(state).next_adjustment == pre.next_adjustment
                &&& final(state).settlement == pre.settlement
                &&& r is Ok
                &&& final(state).invoices.find_spec(invoice_id@) == Some(
                    receipt_applied(pre.invoices.find_spec(invoice_id@)->Some_0, amount),
                )
                &&& forall|k: Seq<char>|
                    k != invoice_id@ ==> #[trigger] final(state).invoices.find_spec(k)
                        == pre.invoices.find_spec(k)
            }
        }),
{
    let ghost pre = *state;
    proof {
        reveal(desk_ready);
    }
    let ghost found = pre.invoices.find_spec(invoice_id@);
    let ghost ready = desk_ready(pre, b) && pre.next_receipt < 50 && pre.ledger.next_tx_spec() < 50
        && pre.receipts@.len() < 50 && 0 < amount@ && b + amount@ <= 1_000_000_000_000 && (
        found matches Some(inv) && accepts_entries(inv.status));
    let ghost cash = pre.accounts.cash;
    let ghost rec = pre.accounts.receivable;
    let ghost idx = pre.invoices.index_of(invoice_id@);
    proof {
        if ready {
            lemma_standard_ids_distinct(pre.accounts);
            assert(has_key(entry_keys(pre.ledger.slots()), cash@));
            assert(has_key(entry_keys(pre.ledger.slots()), rec@));
            lemma_pair_small(pre.ledger, cash, rec, amount, b);
            assert(pre.invoices@[idx].1 == found->Some_0);
            assert(pre.invoices.all()[idx] == found->Some_0);
            assert(small_invoice(pre.invoices.all()[idx], b));
        }
    }
    if !state.receipt_fits(invoice_id, amount) {
        return Err(SableError::ArithmeticOverflow);
    }
    let text = String::from_str(bank_ref);
    let ghost text_v = text;
    let r = state.record_receipt(invoice_id, day, amount, channel, text);
    proof {
        if ready {
            let inv = found->Some_0;
            let key = generated_text(ReceiptId::prefix(), pre.next_receipt);
            assert(!has_key(entry_keys(pre.receipts@), key));
            let rid = r->Ok_0;
            let (p, rc) = choose|p: int, rc: SettlementReceipt|
                0 <= p <= pre.receipts@.len() && state.receipts@ == pre.receipts@.insert(p, (rid, rc))
                    && receipt_made(rc, rid, *invoice_id, inv, channel, text_v, amount, day, generated_text(
                    crate::ids::TxId::prefix(),
                    pre.ledger.next_tx_spec(),
                ));
            let effs = pair_effects(cash, rec, amount);
            lemma_apply_effects_keys(pre.ledger.slots(), effs);
            assert(entry_keys(state.ledger.slots()).len() == state.ledger.slots().len());
            assert forall|n: u64| n >= state.next_receipt implies !has_key(
                entry_keys(state.receipts@),
                #[trigger] generated_text(ReceiptId::prefix(), n),
            ) by {
                lemma_keys_after_insert(pre.receipts@, p, (rid, rc), generated_text(ReceiptId::prefix(), n));
                if rid@ == generated_text(ReceiptId::prefix(), n) {
                    lemma_generated_injective(ReceiptId::prefix(), pre.next_receipt, n);
                }
            }
            assert(state.receipts.all() =~= pre.receipts.all().insert(p, rc));
            assert forall|i: int| 0 <= i < state.receipts.all().len() implies 0 <= (
            #[trigger] state.receipts.all()[i]).amount@ <= b + amount@ by {
                if i < p {
                    assert(state.receipts.all()[i] == pre.receipts.all()[i]);
                } else if i > p {
                    assert(state.receipts.all()[i] == pre.receipts.all()[i - 1]);
                }
            }
            let applied = receipt_applied(inv, amount);
            assert(has_key(entry_keys(pre.invoices@), invoice_id@));
            lemma_lookup_after_update(pre.invoices@, idx, applied, invoice_id@);
            assert(entry_keys(pre.invoices@)[idx] == invoice_id@);
            assert forall|k: Seq<char>| k != invoice_id@ implies #[trigger] state.invoices.find_spec(k)
                == pre.invoices.find_spec(k) by {
                lemma_lookup_after_update(pre.invoices@, idx, applied, k);
            }
            assert forall|n: u64| n >= state.next_invoice implies !has_key(
                entry_keys(state.invoices@),
                #[trigger] generated_text(InvoiceId::prefix(), n),
            ) by {
            }
            assert(state.invoices.all() =~= pre.invoices.all().update(idx, applied));
            assert forall|i: int| 0 <= i < state.invoices.all().len() implies small_invoice(
                #[trigger] state.invoices.all()[i],
                b + amount@,
            ) by {
                if i != idx {
                    assert(state.invoices.all()[i] == pre.invoices.all()[i]);
                }
            }
        }
    }
    r
}

/// Records an approved credit memo when its figures stay within machine integers; on a
/// desk in shape, against an invoice that takes entries and within the policy's limit, it
/// succeeds and applies the memo.
fn credit(
    state: &mut SableState,
    invoice_id: &InvoiceId,
    day: u32,
    amount: Money,
    reason: AdjustmentReason,
    Ghost(b): Ghost<int>,
) -> (r: SableResult<AdjustmentId>)
    requires
        old(state).wf(),
    ensures
        final(state).wf(),
        ({
            let pre = *old(state);
            desk_ready(pre, b) && pre.next_adjustment < 50 && pre.ledger.next_tx_spec() < 50 && 0
                < amount@ && b + amount@ <= 1_000_000_000_000 && (pre.invoices.find_spec(
                invoice_id@,
            ) matches Some(inv) && accepts_entries(inv.status) && fits_i64(
                single_limit(pre.adjustment_policy, inv),
            ) && amount@ <= single_limit(pre.adjustment_policy, inv) && fits_i64(
                period_limit(pre.adjustment_policy, inv),
            ) && filed_total(pre.adjustments.all(), invoice_id@) + amount@ <= period_limit(
                pre.adjustment_policy,
                inv,
            )) && pre.parties.processor@ != pre.parties.treasury@ ==> {
                &&& filed_total(final(state).adjustments.all(), invoice_id@) == filed_total(
                    pre.adjustments.all(),
                    invoice_id@,
                ) + amount@
                &&& desk_ready(*final(state), b + amount@)
                &&& same_frame(pre, *final(state))
                &&& final(state).next_invoice == pre.next_invoice
                &&& final(state).next_receipt == pre.next_receipt
                &&& final(state).next_batch == pre.next_batch
                &&& final(state).next_adjustment == pre.next_adjustment + 1
                &&& final(state).ledger.next_tx_spec() == pre.ledger.next_tx_spec() + 1
                &&& final(state).ledger.entries().len() == pre.ledger.entries().len() + 1
                &&& forall|k: Seq<char>|
                    #[trigger] balance_of(final(state).ledger.slots(), k) == balance_of(pre.ledger.slots(), k)
                        + (if k == pre.accounts.allowance@ { amount@ as int } else { 0 }) - (if k
                        == pre.accounts.receivable@ { amount@ as int } else { 0 })
                &&& final(state).invoices@.len() == pre.invoices@.len()
                &&& final(state).receipts == pre.receipts
                &&& final(state).settlement == pre.settlement
                &&& r is Ok
                &&& final(state).invoices.find_spec(invoice_id@) == Some(
                    credit_applied(pre.invoices.find_spec(invoice_id@)->Some_0, amount),
                )
                &&& forall|k: Seq<char>|
                    k != invoice_id@ ==> #[trigger] final(state).invoices.find_spec(k)
                        == pre.invoices.find_spec(k)
            }
        }),
{
    let ghost pre = *state;
    proof {
        reveal(desk_ready);
    }
    let ghost found = pre.invoices.find_spec(invoice_id@);
    let ghost ready = desk_ready(pre, b) && pre.next_adjustment < 50 && pre.ledger.next_tx_spec()
        < 50 && 0 < amount@ && b + amount@ <= 1_000_000_000_000 && (found matches Some(inv)
        && accepts_entries(inv.status) && fits_i64(single_limit(pre.adjustment_policy, inv))
        && amount@ <= single_limit(pre.adjustment_policy, inv) && fits_i64(
        period_limit(pre.adjustment_policy, inv),
    ) && filed_total(pre.adjustments.all(), invoice_id@) + amount@ <= period_limit(
        pre.adjustment_policy,
        inv,
    )) && pre.parties.processor@ != pre.parties.treasury@;
    let ghost alw = pre.accounts.allowance;
    let ghost rec = pre.accounts.receivable;
    let ghost idx = pre.invoices.index_of(invoice_id@);
    proof {
        if ready {
            lemma_standard_ids_distinct(pre.accounts);
            assert(has_key(entry_keys(pre.ledger.slots()), alw@));
            assert(has_key(entry_keys(pre.ledger.slots()), rec@));
            lemma_pair_small(pre.ledger, alw, rec, amount, b);
            assert(pre.invoices@[idx].1 == found->Some_0);
            assert(pre.invoices.all()[idx] == found->Some_0);
            assert(small_invoice(pre.invoices.all()[idx], b));
        }
    }
    if !state.adjustment_fits(invoice_id, AdjustmentSide::CreditMemo, amount) {
        return Err(SableError::ArithmeticOverflow);
    }
    let r = state.record_credit_memo(invoice_id, day, amount, reason);
    proof {
        if ready {
            let inv = found->Some_0;
            let adj = choose|adj: ManualAdjustment|
                adjustment_made(adj, pre, *invoice_id, day, amount, reason, AdjustmentSide::CreditMemo)
                    && adjustment_flow(
                    pre.adjustments@,
                    state.adjustments@,
                    pre.invoices@,
                    state.invoices@,
                    pre.ledger,
                    state.ledger,
                    idx,
                    inv,
                    pre.adjustment_policy,
                    adj,
                    pre.accounts.receivable,
                    pre.accounts.revenue,
                    pre.accounts.allowance,
                    match r {
                        Ok(_) => Ok(()),
                        Err(e) => Err(e),
                    },
                );
            let key = generated_text(AdjustmentId::prefix(), pre.next_adjustment);
            assert(!has_key(entry_keys(pre.adjustments@), key));
            let tx = generated_text(crate::ids::TxId::prefix(), pre.ledger.next_tx_spec());
            let (p, t) = choose|p: int, t: crate::ids::TxId|
                0 <= p <= pre.adjustments@.len() && t@ == tx && state.adjustments@ == pre.adjustments@.insert(
                    p,
                    (adj.id, ManualAdjustment { journal_tx: Some(t), ..adj }),
                );
            let e = (adj.id, ManualAdjustment { journal_tx: Some(t), ..adj });
            crate::adjustments::book::lemma_filed_total_insert(pre.adjustments@, p, e, invoice_id@);
            let effs = pair_effects(alw, rec, amount);
            lemma_apply_effects_keys(pre.ledger.slots(), effs);
            assert(entry_keys(state.ledger.slots()).len() == state.ledger.slots().len());
            assert forall|n: u64| n >= state.next_adjustment implies !has_key(
                entry_keys(state.adjustments@),
                #[trigger] generated_text(AdjustmentId::prefix(), n),
            ) by {
                lemma_keys_after_insert(pre.adjustments@, p, e, generated_text(AdjustmentId::prefix(), n));
                if adj.id@ == generated_text(AdjustmentId::prefix(), n) {
                    lemma_generated_injective(AdjustmentId::prefix(), pre.next_adjustment, n);
                }
            }
            let applied = credit_applied(inv, amount);
            assert(has_key(entry_keys(pre.invoices@), invoice_id@));
            lemma_lookup_after_update(pre.invoices@, idx, applied, invoice_id@);
            assert(entry_keys(pre.invoices@)[idx] == invoice_id@);
            assert forall|k: Seq<char>| k != invoice_id@ implies #[trigger] state.invoices.find_spec(k)
                == pre.invoices.find_spec(k) by {
                lemma_lookup_after_update(pre.invoices@, idx, applied, k);
            }
            assert(state.invoices.all() =~= pre.invoices.all().update(idx, applied));
            assert forall|i: int| 0 <= i < state.invoices.all().len() implies small_invoice(
                #[trigger] state.invoices.all()[i],
                b + amount@,
            ) by {
                if i != idx {
                    assert(state.invoices.all()[i] == pre.invoices.all()[i]);
                }
            }
        }
    }
    r
}

/// Closes the eligible invoices when their balances stay within machine integers; on a
/// desk in shape it succeeds.
fn close_eligible(state: &mut SableState, day: u32, Ghost(b): Ghost<int>) -> (r: SableResult<usize>)
    requires
        old(state).wf(),
    ensures
        final(state).wf(),
        !close_checks_computable(old(state).invoices.all(), day) ==> r == Err::<usize, SableError>(
            SableError::ArithmeticOverflow,
        ) && *final(state) == *old(state),
        close_checks_computable(old(state).invoices.all(), day) ==> {
            &&& r == Ok::<usize, SableError>(
                old(state).invoices.all().filter(|inv: Invoice| closable(inv, day)).len() as usize,
            )
            &&& entry_keys(final(state).invoices@) == entry_keys(old(state).invoices@)
            &&& forall|key: Seq<char>|
                #[trigger] final(state).invoices.find_spec(key) == match old(state).invoices.find_spec(
                    key,
                ) {
                    Some(inv) => Some(close_pass(inv, day)),
                    None => None,
                }
        },
        desk_ready(*old(state), b) ==> {
            &&& r is Ok
            &&& desk_ready(*final(state), b)
            &&& same_frame(*old(state), *final(state))
            &&& final(state).ledger == old(state).ledger
            &&& final(state).receipts == old(state).receipts
            &&& final(state).settlement == old(state).settlement
            &&& final(state).next_invoice == old(state).next_invoice
            &&& final(state).next_receipt == old(state).next_receipt
            &&& final(state).next_adjustment == old(state).next_adjustment
            &&& final(state).next_batch == old(state).next_batch
            &&& final(state).invoices@.len() == old(state).invoices@.len()
        },
{
    let ghost pre = *state;
    proof {
        reveal(desk_ready);
        if desk_ready(pre, b) {
            assert forall|i: int|
                0 <= i < pre.invoices.all().len() && crate::invoice::book::close_check_computes(
                    #[trigger] pre.invoices.all()[i],
                    day,
                ) implies pre.invoices.all()[i].amounts_fit() by {
                assert(small_invoice(pre.invoices.all()[i], b));
            }
        }
    }
    if !close_checks_fit(&state.invoices, day) {
        return Err(SableError::ArithmeticOverflow);
    }
    let r = state.close_eligible_invoices(day);
    proof {
        reveal(desk_ready);
        if desk_ready(pre, b) {
            assert(entry_keys(state.invoices@).len() == state.invoices@.len());
            assert forall|i: int| 0 <= i < state.invoices.all().len() implies small_invoice(
                #[trigger] state.invoices.all()[i],
                b,
            ) by {
                let key = entry_keys(state.invoices@)[i];
                crate::keyed::lemma_sorted_index_unique(entry_keys(state.invoices@), i, key);
                crate::keyed::lemma_sorted_index_unique(entry_keys(pre.invoices@), i, key);
                assert(state.invoices.find_spec(key) == Some(state.invoices.all()[i]));
                assert(pre.invoices.find_spec(key) == Some(pre.invoices.all()[i]));
                assert(small_invoice(pre.invoices.all()[i], b));
            }
            assert forall|n: u64| n >= state.next_invoice implies !has_key(
                entry_keys(state.invoices@),
                #[trigger] generated_text(InvoiceId::prefix(), n),
            ) by {}
        }
    }
    r
}

/// Rebuilds the obligations and prepares the close of `period` when its figures stay
/// within machine integers; on a desk in shape it succeeds.
#[verifier::spinoff_prover]
#[verifier::rlimit(100)]
fn prepare_close_checked(state: &mut SableState, period: Period, day: u32, Ghost(b): Ghost<int>) -> (r: SableResult<
    CloseBatch,
>)
    requires
        old(state).wf(),
    ensures
        final(state).wf(),
        r matches Ok(batch) ==> batch.period == period && batch.status == CloseStatus::Prepared
            && batch.report.trial_balance.balanced,
        desk_ready(*old(state), b) && old(state).next_batch < 50 ==> {
            &&& r is Ok
            &&& desk_ready(*final(state), b)
            &&& same_frame(*old(state), *final(state))
            &&& final(state).invoices == old(state).invoices
            &&& final(state).ledger == old(state).ledger
            &&& final(state).receipts == old(state).receipts
            &&& final(state).settlement.claim_entries() == old(state).settlement.claim_entries()
            &&& final(state).settlement.obligation_entries_spec() == obligation_entries(
                old(state).invoices.all(),
            )
            &&& final(state).next_invoice == old(state).next_invoice
            &&& final(state).next_receipt == old(state).next_receipt
            &&& final(state).next_adjustment == old(state).next_adjustment
            &&& final(state).next_batch == old(state).next_batch + 1
            &&& r matches Ok(batch) && batch.id@ == generated_text(
                crate::ids::BatchId::prefix(),
                old(state).next_batch,
            ) && batch.report.accounting_open@ == seq_sum(accounting_opens(old(state).invoices.all()))
                && batch.report.presentation_open@ == seq_sum(
                presentation_opens(old(state).invoices.all()),
            ) && batch.report.settlement_obligations@ == seq_sum(
                presentable_amounts(entry_values(obligation_entries(old(state).invoices.all()))),
            )
        },
{
    let ghost pre = *state;
    refresh_checked(state, Ghost(b))?;
    proof {
        if desk_ready(pre, b) {
            assert(desk_ready(*state, b));
            assert(state.settlement.obligation_entries_spec() == obligation_entries(state.invoices.all()));
            lemma_reconciliation_ok(*state, b, period);
        }
    }
    if state.next_batch == u64::MAX || !state.close_fits(period) {
        return Err(SableError::ArithmeticOverflow);
    }
    let ghost mid = *state;
    let r = state.prepare_close(period, day);
    proof {
        if desk_ready(pre, b) && pre.next_batch < 50 {
            lemma_desk_ready_frame(mid, *state, b);
        }
    }
    r
}

/// A desk in shape stays so when only its obligations and batch counter move.
proof fn lemma_desk_ready_frame(pre: SableState, post: SableState, b: int)
    requires
        desk_ready(pre, b),
        post.wf(),
        post.accounts == pre.accounts,
        post.invoices == pre.invoices,
        post.ledger == pre.ledger,
        post.receipts == pre.receipts,
        post.adjustments == pre.adjustments,
        post.settlement.claim_entries() == pre.settlement.claim_entries(),
        post.settlement.next_claim_spec() == pre.settlement.next_claim_spec(),
        post.next_invoice == pre.next_invoice,
        post.next_receipt == pre.next_receipt,
        post.next_adjustment == pre.next_adjustment,
        post.next_batch <= 50,
    ensures
        desk_ready(post, b),
{
    reveal(desk_ready);
}

/// On a desk in shape with its obligations rebuilt, the claims of `day` are few and small,
/// and posting them is safe.
proof fn lemma_settlement_safe(mid: SableState, day: u32, b: int)
    requires
        desk_ready(mid, b),
        mid.settlement.obligation_entries_spec() == obligation_entries(mid.invoices.all()),
        mid.invoices@.len() <= 10,
        mid.ledger.next_tx_spec() + mid.invoices@.len() <= 50,
        21 * b <= 1_000_000_000_000,
    ensures
        posting_accounts_known(mid.ledger, mid.accounts.receivable, mid.accounts.clearing),
        settlement_picks(mid.invoices.all(), mid.settlement.all_claims(), day).len()
            <= mid.invoices@.len(),
        forall|k: int|
            0 <= k < settlement_picks(mid.invoices.all(), mid.settlement.all_claims(), day).len()
                ==> 0 <= (#[trigger] settlement_picks(
                mid.invoices.all(),
                mid.settlement.all_claims(),
                day,
            )[k]).presentable_amount@ <= 2 * b,
        settlement_posts_safely(mid, day),
{
    reveal(desk_ready);
    let invs = mid.invoices.all();
    let os = entry_values(obligation_entries(invs));
    let opred = |inv: Invoice| crate::settlement::model::has_obligation(inv);
    invs.lemma_filter_len(opred);
    invs.filter_lemma(opred);
    assert(os =~= invs.filter(opred).map_values(|inv: Invoice| crate::settlement::model::obligation_of(inv)));
    let dpred = |o: SettlementObligation| day >= o.due_day;
    let due = due_obligations(os, day);
    os.lemma_filter_len(dpred);
    os.filter_lemma(dpred);
    let queue = by_priority(due, day);
    crate::settlement::book::lemma_by_priority_len(due, day);
    crate::settlement::book::lemma_by_priority_members(due, day);
    let picks = claim_picks(queue, mid.settlement.all_claims());
    crate::settlement::book::lemma_claim_picks_len(queue, mid.settlement.all_claims());
    crate::settlement::book::lemma_claim_picks_once(queue, mid.settlement.all_claims());
    assert forall|k: int| 0 <= k < picks.len() implies 0 <= (#[trigger] picks[k]).presentable_amount@ <= 2 * b by {
        let m1 = choose|m: int| 0 <= m < queue.len() && queue[m] == picks[k];
        assert(due.contains(queue[m1]));
        let m2 = choose|m: int| 0 <= m < due.len() && due[m] == queue[m1];
        crate::keyed::lemma_filter_member(os, dpred, m2);
        let m3 = choose|m: int| 0 <= m < os.len() && os[m] == due[m2];
        crate::keyed::lemma_filter_member(invs, opred, m3);
        let m4 = choose|m: int| 0 <= m < invs.len() && invs[m] == invs.filter(opred)[m3];
        assert(small_invoice(invs[m4], b));
    }
    let s = mid.ledger.slots();
    lemma_standard_ids_distinct(mid.accounts);
    assert(has_key(entry_keys(s), mid.accounts.receivable@));
    assert(has_key(entry_keys(s), mid.accounts.clearing@));
    crate::fixtures::state::lemma_pick_effects_small(
        s,
        picks,
        mid.accounts.receivable,
        mid.accounts.clearing,
        b,
        2 * b,
    );
}

/// After a safe settlement run the desk is still in shape, its bound grown by what was
/// posted.
proof fn lemma_settled_ready(mid: SableState, fin: SableState, day: u32, b: int, r: SableResult<Vec<String>>)
    requires
        desk_ready(mid, b),
        mid.invoices@.len() <= 10,
        mid.ledger.next_tx_spec() + mid.invoices@.len() <= 50,
        mid.settlement.next_claim_spec() + mid.invoices@.len() <= 50,
        mid.settlement.all_claims().len() + mid.invoices@.len() <= 50,
        mid.next_batch < 50,
        21 * b <= 1_000_000_000_000,
        settlement_picks(mid.invoices.all(), mid.settlement.all_claims(), day).len()
            <= mid.invoices@.len(),
        forall|k: int|
            0 <= k < settlement_picks(mid.invoices.all(), mid.settlement.all_claims(), day).len()
                ==> 0 <= (#[trigger] settlement_picks(
                mid.invoices.all(),
                mid.settlement.all_claims(),
                day,
            )[k]).presentable_amount@ <= 2 * b,
        settlement_posts_safely(mid, day),
        posting_accounts_known(mid.ledger, mid.accounts.receivable, mid.accounts.clearing),
        r is Ok,
        settlement_run(mid, fin, day, r),
        fin.wf(),
        same_frame(mid, fin),
        fin.invoices == mid.invoices,
        fin.receipts == mid.receipts,
        fin.adjustments == mid.adjustments,
        fin.next_invoice == mid.next_invoice,
        fin.next_receipt == mid.next_receipt,
        fin.next_adjustment == mid.next_adjustment,
    ensures
        desk_ready(fin, 21 * b),
{
    reveal(desk_ready);
    let picks = settlement_picks(mid.invoices.all(), mid.settlement.all_claims(), day);
    let n = picks.len();
    let rec = mid.accounts.receivable;
    let clr = mid.accounts.clearing;
    let s = mid.ledger.slots();
    lemma_standard_ids_distinct(mid.accounts);
    crate::fixtures::state::lemma_pick_effects_small(s, picks, rec, clr, b, 2 * b);
    lemma_apply_effects_keys(s, crate::fixtures::state::pick_effects(picks, rec, clr));
    assert(entry_keys(fin.ledger.slots()).len() == fin.ledger.slots().len());
    assert(n * (2 * b) <= 20 * b) by (nonlinear_arith)
        requires
            n <= 10,
            b >= 0,
    ;
    let next0 = mid.settlement.next_claim_spec();
    let cs = fin.settlement.claim_entries();
    assert forall|i: int| 0 <= i < fin.settlement.all_claims().len() implies 0 <= (
    #[trigger] fin.settlement.all_claims()[i]).amount@ <= 21 * b by {
        let key = entry_keys(cs)[i];
        crate::keyed::lemma_sorted_index_unique(entry_keys(cs), i, key);
        assert(lookup(cs, key) == Some(fin.settlement.all_claims()[i]));
        if exists|k: int| 0 <= k < n && key == #[trigger] generated_text(SettlementId::prefix(), (next0 + k) as u64) {
            let k = choose|k: int| 0 <= k < n && key == #[trigger] generated_text(SettlementId::prefix(), (next0 + k) as u64);
            assert(0 <= picks[k].presentable_amount@ <= 2 * b);
        } else {
            assert(lookup(cs, key) == lookup(mid.settlement.claim_entries(), key));
            let old_cs = mid.settlement.claim_entries();
            let j = key_index(entry_keys(old_cs), key);
            assert(0 <= mid.settlement.all_claims()[j].amount@ <= b);
        }
    }
}

/// Rebuilds the obligations, then prepares and posts the due claims of a desk in shape
/// with few invoices.
fn settle_due_claims(state: &mut SableState, day: u32, Ghost(b): Ghost<int>) -> (r: SableResult<Vec<String>>)
    requires
        old(state).wf(),
        desk_ready(*old(state), b),
        old(state).invoices@.len() <= 10,
        old(state).ledger.next_tx_spec() + old(state).invoices@.len() <= 50,
        old(state).settlement.next_claim_spec() + old(state).invoices@.len() <= 50,
        old(state).settlement.all_claims().len() + old(state).invoices@.len() <= 50,
        old(state).next_batch < 50,
        21 * b <= 1_000_000_000_000,
    ensures
        final(state).wf(),
        r is Ok,
        desk_ready(*final(state), 21 * b),
        same_frame(*old(state), *final(state)),
        final(state).invoices == old(state).invoices,
        final(state).receipts == old(state).receipts,
        final(state).next_batch == old(state).next_batch + 1,
        r matches Ok(v) && v@.len() == settlement_picks(
            old(state).invoices.all(),
            old(state).settlement.all_claims(),
            day,
        ).len() && final(state).settlement.all_claims().len() == old(
            state,
        ).settlement.all_claims().len() + v@.len(),
        r matches Ok(v) ==> final(state).ledger.entries().len() == old(state).ledger.entries().len()
            + v@.len(),
        r is Ok ==> forall|k: Seq<char>|
            has_key(entry_keys(old(state).ledger.slots()), k) ==> #[trigger] balance_of(
                final(state).ledger.slots(),
                k,
            ) == balance_of(old(state).ledger.slots(), k) + crate::ledger::state::effect_total(
                crate::fixtures::state::pick_effects(
                    settlement_picks(old(state).invoices.all(), old(state).settlement.all_claims(), day),
                    old(state).accounts.receivable,
                    old(state).accounts.clearing,
                ),
                k,
            ),
        old(state).settlement.all_claims().len() == 0 ==> forall|i: int|
            0 <= i < final(state).settlement.all_claims().len() ==> (
            #[trigger] final(state).settlement.all_claims()[i]).status == ClaimStatus::Posted,
        r matches Ok(v) ==> forall|k: int|
            0 <= k < v@.len() ==> (lookup(
                final(state).settlement.claim_entries(),
                #[trigger] generated_text(SettlementId::prefix(), (old(state).settlement.next_claim_spec() + k) as u64),
            ) matches Some(c) && c.invoice_id == settlement_picks(
                old(state).invoices.all(),
                old(state).settlement.all_claims(),
                day,
            )[k].invoice_id && c.amount == settlement_picks(
                old(state).invoices.all(),
                old(state).settlement.all_claims(),
                day,
            )[k].presentable_amount && c.status == ClaimStatus::Posted && c.id@ == generated_text(
                SettlementId::prefix(),
                (old(state).settlement.next_claim_spec() + k) as u64,
            )),
{
    let ghost pre = *state;
    refresh_checked(state, Ghost(b))?;
    let ghost mid = *state;
    proof {
        lemma_settlement_safe(mid, day, b);
    }
    let r = state.prepare_and_post_settlement(day);
    proof {
        lemma_settled_ready(mid, *state, day, b, r);
        if r is Ok {
            let picks = settlement_picks(mid.invoices.all(), mid.settlement.all_claims(), day);
            let effs = crate::fixtures::state::pick_effects(picks, mid.accounts.receivable, mid.accounts.clearing);
            reveal(desk_ready);
            lemma_pick_effects_known(mid.ledger.slots(), picks, mid.accounts.receivable, mid.accounts.clearing);
            assert forall|k: Seq<char>| has_key(entry_keys(pre.ledger.slots()), k) implies #[trigger] balance_of(
                state.ledger.slots(),
                k,
            ) == balance_of(pre.ledger.slots(), k) + crate::ledger::state::effect_total(effs, k) by {
                crate::ledger::state::lemma_apply_effects_balance(mid.ledger.slots(), effs, k);
            }
        }
        if pre.settlement.all_claims().len() == 0 {
            let cs = state.settlement.claim_entries();
            let n = settlement_picks(mid.invoices.all(), mid.settlement.all_claims(), day).len();
            let next0 = mid.settlement.next_claim_spec();
            assert forall|i: int| 0 <= i < state.settlement.all_claims().len() implies (
            #[trigger] state.settlement.all_claims()[i]).status == ClaimStatus::Posted by {
                let key = entry_keys(cs)[i];
                crate::keyed::lemma_sorted_index_unique(entry_keys(cs), i, key);
                assert(lookup(cs, key) == Some(state.settlement.all_claims()[i]));
                if exists|k: int| 0 <= k < n && key == #[trigger] generated_text(SettlementId::prefix(), (next0 + k) as u64) {
                    let k = choose|k: int| 0 <= k < n && key == #[trigger] generated_text(SettlementId::prefix(), (next0 + k) as u64);
                } else {
                    assert(lookup(cs, key) == lookup(mid.settlement.claim_entries(), key));
                    assert(mid.settlement.claim_entries().len() == 0);
                }
            }
        }
    }
    r
}

/// Whether the report's events are the one line `text`.
pub open spec fn single_event(rep: ScenarioReport, text: Seq<char>) -> bool {
    rep.events@.len() == 1 && rep.events@[0]@ == text
}

/// Whether the report carries the figures of a January 2026 close in `status`.
pub open spec fn january_close(rep: ScenarioReport, status: CloseStatus) -> bool {
    rep.close matches Some(m) && m.period@ == period_label(
        Period { year: 2026, month: 1, start_day: 1, end_day: 31 },
    ) && m.status@ == close_status_name(status)
}

/// The seeded desk is in shape for a scenario.
proof fn lemma_seeded_ready(st: SableState)
    requires
        st.wf(),
        standard_accounts(st.accounts),
        forall|k: Seq<char>| #[trigger] balance_of(st.ledger.slots(), k) == 0,
        forall|k: Seq<char>|
            #[trigger] has_key(entry_keys(st.ledger.slots()), k) == standard_key(st.accounts, k),
        forall|k: Seq<char>| #[trigger] key_active(st.ledger.slots(), k) == standard_key(st.accounts, k),
        st.ledger.slots().len() == 6,
        st.invoices@.len() == 0,
        st.receipts@.len() == 0,
        st.ledger.next_tx_spec() == 1,
        st.next_invoice == 1,
        st.next_receipt == 1,
        st.adjustments@.len() == 0,
        st.next_adjustment == 1,
        st.settlement.claim_entries().len() == 0,
        st.settlement.next_claim_spec() == 1,
        st.next_batch == 1,
    ensures
        desk_ready(st, 0),
{
    reveal(desk_ready);
    assert(st.invoices.all().len() == 0);
}

/// The first three invoice ids differ.
proof fn lemma_three_keys()
    ensures
        generated_text(InvoiceId::prefix(), 1) != generated_text(InvoiceId::prefix(), 2),
        generated_text(InvoiceId::prefix(), 1) != generated_text(InvoiceId::prefix(), 3),
        generated_text(InvoiceId::prefix(), 2) != generated_text(InvoiceId::prefix(), 3),
{
    if generated_text(InvoiceId::prefix(), 1) == generated_text(InvoiceId::prefix(), 2) {
        lemma_generated_injective(InvoiceId::prefix(), 1, 2);
    }
    if generated_text(InvoiceId::prefix(), 1) == generated_text(InvoiceId::prefix(), 3) {
        lemma_generated_injective(InvoiceId::prefix(), 1, 3);
    }
    if generated_text(InvoiceId::prefix(), 2) == generated_text(InvoiceId::prefix(), 3) {
        lemma_generated_injective(InvoiceId::prefix(), 2, 3);
    }
}

/// Whether nothing is open on an invoice, in the books or to present.
pub open spec fn settled_in_full(inv: Invoice) -> bool {
    inv.accounting_open() == 0 && inv.presentation_open() == 0
}

/// A book whose invoices are all settled in full has nothing open and no obligation.
proof fn lemma_all_settled(invs: Seq<Invoice>)
    requires
        invs.len() <= 50,
        forall|i: int| 0 <= i < invs.len() ==> settled_in_full(#[trigger] invs[i]),
    ensures
        seq_sum(accounting_opens(invs)) == 0,
        entry_values(obligation_entries(invs)).len() == 0,
{
    assert forall|i: int| 0 <= i < accounting_opens(invs).len() implies -0 <= #[trigger] accounting_opens(invs)[i] <= 0 by {
        assert(settled_in_full(invs[i]));
    }
    crate::amount::lemma_sum_first_bounded(accounting_opens(invs), 0, invs.len());
    assert(invs.len() * 0 == 0);
    let pred = |inv: Invoice| crate::settlement::model::has_obligation(inv);
    invs.filter_lemma(pred);
    if invs.filter(pred).len() > 0 {
        crate::keyed::lemma_filter_member(invs, pred, 0);
        let m = choose|m: int| 0 <= m < invs.len() && invs[m] == invs.filter(pred)[0];
        assert(settled_in_full(invs[m]));
    }
}

/// The figures of the valid scenario: two invoices collected in full, nothing open.
pub open spec fn valid_figures(rep: ScenarioReport) -> bool {
    &&& rep.ledger.total_debits@ == 3_750_000
    &&& rep.ledger.total_credits@ == 3_750_000
    &&& rep.ledger.accounts == 6
    &&& rep.settlement.claims == 0
    &&& rep.settlement.posted_claims == 0
    &&& rep.settlement.active_claim_total@ == 0
    &&& rep.settlement.frozen_claim_total@ == 0
    &&& rep.settlement.obligation_total@ == 0
    &&& rep.claim_rows@.len() == 0
    &&& count_table(rep.invoices.statuses@) == seq![("Paid"@, 2nat)]
    &&& rep.invoice_rows@.len() == 2
    &&& invoice_row_is(rep.invoice_rows@[0], 1, "buyer-aurelian-retail"@, InvoiceStatus::Paid, 2_400_000, 2_400_000, 0, 0, 0)
    &&& invoice_row_is(rep.invoice_rows@[1], 2, "buyer-bluegrain-logistics"@, InvoiceStatus::Paid, 1_350_000, 1_350_000, 0, 0, 0)
    &&& rep.ledger.entries == 4
    &&& rep.invoices.presentation_open@ == 0
    &&& rep.invoices.collected@ == 3_750_000
    &&& rep.invoices.memos@ == 0
}

/// Two invoices paid in full by ACH and wire.
#[verifier::spinoff_prover]
#[verifier::rlimit(60)]
fn valid_payments() -> (r: SableResult<ScenarioReport>)
    ensures
        r is Ok,
        r matches Ok(rep) ==> rep.scenario@ == "valid"@ && rep.day == 10 && report_sealed(rep)
            && rep.close is None && single_event(rep, "posted two receipts"@)
            && rep.invoices.count == 2 && rep.invoices.accounting_open@ == 0
            && rep.settlement.obligations == 0 && valid_figures(rep),
{
    let mut state = seeded_state()?;
    proof {
        lemma_seeded_ready(state);
    }
    let ghost key_a = generated_text(InvoiceId::prefix(), 1);
    let ghost key_b = generated_text(InvoiceId::prefix(), 2);
    proof {
        if key_a == key_b {
            lemma_generated_injective(InvoiceId::prefix(), 1, 2);
        }
    }
    let ghost s0 = state;
    let alpha = state.parties.buyer_alpha.duplicate();
    let beta = state.parties.buyer_beta.duplicate();
    let invoice_a = issue(&mut state, alpha, "AR-2026-0001", 1, Money::dollars(24_000), Ghost(0int))?;
    let ghost s1 = state;
    let invoice_b = issue(&mut state, beta, "AR-2026-0002", 2, Money::dollars(13_500), Ghost(2_400_000int))?;
    let ghost s2 = state;
    receive(&mut state, &invoice_a, 8, Money::dollars(24_000), PaymentChannel::Ach, "ACH-9120", Ghost(3_750_000int))?;
    let ghost s3 = state;
    receive(&mut state, &invoice_b, 10, Money::dollars(13_500), PaymentChannel::Wire, "WIRE-4450", Ghost(6_150_000int))?;
    let ghost s4 = state;
    refresh_checked(&mut state, Ghost(7_500_000int))?;
    proof {
        lemma_report_ok(state, 7_500_000);
        assert(state.ledger.slots().len() == 6) by {
            reveal(desk_ready);
        }
        assert forall|k: Seq<char>| (#[trigger] s4.invoices.find_spec(k)) is Some implies settled_in_full(
            s4.invoices.find_spec(k)->Some_0,
        ) by {
            assert(s0.invoices.find_spec(k) is None);
            if k == key_a {
                assert(s1.invoices.find_spec(key_a) == s2.invoices.find_spec(key_a));
            } else if k == key_b {
            } else {
                assert(s1.invoices.find_spec(k) == s0.invoices.find_spec(k));
                assert(s2.invoices.find_spec(k) == s1.invoices.find_spec(k));
                assert(s3.invoices.find_spec(k) == s2.invoices.find_spec(k));
                assert(s4.invoices.find_spec(k) == s3.invoices.find_spec(k));
            }
        }
        let invs = state.invoices.all();
        assert forall|i: int| 0 <= i < invs.len() implies settled_in_full(#[trigger] invs[i]) by {
            let key = entry_keys(state.invoices@)[i];
            crate::keyed::lemma_sorted_index_unique(entry_keys(state.invoices@), i, key);
            assert(state.invoices.find_spec(key) == Some(invs[i]));
            assert(s4.invoices.find_spec(key) == Some(invs[i]));
        }
        lemma_all_settled(invs);
        let fa = state.invoices.find_spec(key_a)->Some_0;
        let fb = state.invoices.find_spec(key_b)->Some_0;
        assert(fa.total@ == 2_400_000 && fa.debit_memos_applied@ == 0);
        assert(fa.receipts_applied@ == 2_400_000 && fa.credit_memos_applied@ == 0);
        assert(fb.total@ == 1_350_000 && fb.debit_memos_applied@ == 0);
        assert(fb.receipts_applied@ == 1_350_000 && fb.credit_memos_applied@ == 0);
        lemma_book_sums(state.invoices, seq![key_a, key_b], seq![fa, fb]);
        lemma_sum_small(accounting_opens(seq![fa, fb]));
        lemma_sum_small(presentation_opens(seq![fa, fb]));
        lemma_sum_small(receipt_amounts(seq![fa, fb]));
        lemma_sum_small(net_memos(seq![fa, fb]));
        assert(invoice_sums(state.invoices.all(), 0, 0, 3_750_000, 0));
        assert(fa.status == InvoiceStatus::Paid);
        assert(fb.status == InvoiceStatus::Paid);
        lemma_book_statuses(state.invoices, seq![key_a, key_b], seq![fa, fb]);
        lemma_status_table(seq![fa, fb]);
        lemma_small_status_counts(seq![fa, fb]);
        assert(status_table(seq![fa, fb]) =~= seq![("Paid"@, 2nat)]);
        assert(fa.buyer@ == "buyer-aurelian-retail"@);
        assert(fb.buyer@ == "buyer-bluegrain-logistics"@);
        assert(fa.id@ == key_a && fb.id@ == key_b);
        lemma_book_in_order(state.invoices, seq![fa, fb]);
        lemma_no_claim_totals(state.settlement.all_claims());
        lemma_obligation_total(seq![fa, fb]);
        lemma_desk_totals(state, 7_500_000);
        lemma_standard_ids_distinct(state.accounts);
        let sl = state.ledger.slots();
        let ac = state.accounts;
        assert(balance_of(sl, ac.cash@) == 3_750_000);
        assert(balance_of(sl, ac.receivable@) == 0);
        assert(balance_of(sl, ac.revenue@) == -3_750_000);
        assert(balance_of(sl, ac.allowance@) == 0);
        assert(balance_of(sl, ac.clearing@) == 0);
        assert(balance_of(sl, ac.suspense@) == 0);
    }
    build_report(state, "valid", 10, None, vec![String::from_str("posted two receipts")])
}

/// The limit of the seeded policy on an invoice: 2.5% of its gross, rounded.
proof fn lemma_limit(st: SableState, inv: Invoice, lim: int)
    requires
        st.adjustment_policy.max_single_bps@ == 250,
        inv.gross() >= 0,
        (inv.gross() * 250 + 5000) / 10000 == lim,
    ensures
        single_limit(st.adjustment_policy, inv) == lim,
{
    assert(crate::amount::abs(10000) == 10000);
    assert(crate::amount::abs(2) == 2);
    assert(10000int / 2int == 5000);
    assert(crate::amount::trunc_div(10000, 2) == 5000);
    assert(inv.gross() * 250 >= 0);
    assert(crate::amount::abs(inv.gross() * 250 + 5000) == inv.gross() * 250 + 5000);
}

/// The sums the invoice metrics take over `invs`: what is open in the books and to present,
/// what was collected and the net memos.
pub open spec fn invoice_sums(invs: Seq<Invoice>, acct: int, pres: int, coll: int, memos: int) -> bool {
    &&& seq_sum(accounting_opens(invs)) == acct
    &&& seq_sum(presentation_opens(invs)) == pres
    &&& seq_sum(receipt_amounts(invs)) == coll
    &&& seq_sum(net_memos(invs)) == memos
}

/// The net memos of an invoice.
pub open spec fn memo_net(inv: Invoice) -> int {
    inv.credit_memos_applied@ - inv.debit_memos_applied@
}

/// A sum over at most three values, spelled out.
proof fn lemma_sum_small(s: Seq<int>)
    ensures
        s.len() == 1 ==> seq_sum(s) == s[0],
        s.len() == 2 ==> seq_sum(s) == s[0] + s[1],
        s.len() == 3 ==> seq_sum(s) == s[0] + s[1] + s[2],
{
    reveal_with_fuel(crate::amount::sum_first, 4);
}

/// The invoice sums of a book, from the invoices found under its keys: one, two or three
/// keys that name every invoice of the book.
proof fn lemma_book_sums(book: crate::invoice::book::InvoiceBook, keys: Seq<Seq<char>>, invs: Seq<Invoice>)
    requires
        book.wf(),
        1 <= keys.len() <= 3,
        keys.len() == invs.len(),
        book@.len() == keys.len(),
        forall|i: int, j: int| 0 <= i < j < keys.len() ==> keys[i] != keys[j],
        forall|i: int| 0 <= i < keys.len() ==> book.find_spec(#[trigger] keys[i]) == Some(invs[i]),
    ensures
        invoice_sums(
            book.all(),
            seq_sum(accounting_opens(invs)),
            seq_sum(presentation_opens(invs)),
            seq_sum(receipt_amounts(invs)),
            seq_sum(net_memos(invs)),
        ),
        book.all().len() == keys.len(),
{
    let ks = entry_keys(book@);
    let all = book.all();
    let n = keys.len();
    let idx = Seq::new(n as nat, |i: int| key_index(ks, keys[i]));
    assert forall|i: int| 0 <= i < n implies 0 <= #[trigger] idx[i] < n && all[idx[i]] == invs[i] && ks[idx[i]] == keys[i] by {
        assert(book.find_spec(keys[i]) == Some(invs[i]));
    }
    assert forall|i: int, j: int| 0 <= i < j < n implies #[trigger] idx[i] != #[trigger] idx[j] by {
        assert(ks[idx[i]] == keys[i]);
        assert(ks[idx[j]] == keys[j]);
    }
    lemma_sum_small(accounting_opens(all));
    lemma_sum_small(presentation_opens(all));
    lemma_sum_small(receipt_amounts(all));
    lemma_sum_small(net_memos(all));
    lemma_sum_small(accounting_opens(invs));
    lemma_sum_small(presentation_opens(invs));
    lemma_sum_small(receipt_amounts(invs));
    lemma_sum_small(net_memos(invs));
    if n == 1 {
        assert(all[0] == invs[0]);
    } else if n == 2 {
        assert(idx[0] != idx[1]);
    } else {
        assert(idx[0] != idx[1] && idx[0] != idx[2] && idx[1] != idx[2]);
    }
}

/// Ordering two obligations by priority keeps both, in one order or the other.
proof fn lemma_priority_of_two(s: Seq<SettlementObligation>, day: u32)
    requires
        s.len() == 2,
    ensures
        by_priority(s, day) == seq![s[0], s[1]] || by_priority(s, day) == seq![s[1], s[0]],
{
    let one = s.drop_last();
    assert(one.drop_last().len() == 0);
    assert(by_priority(one.drop_last(), day) == one.drop_last());
    let rest = by_priority(one, day);
    crate::settlement::book::lemma_priority_slot_range(one.drop_last(), priority(one.last(), day), day);
    assert(rest =~= seq![s[0]]);
    crate::settlement::book::lemma_priority_slot_range(rest, priority(s.last(), day), day);
    let slot = priority_slot(rest, priority(s.last(), day), day);
    if slot == 0 {
        assert(rest.insert(0, s[1]) =~= seq![s[1], s[0]]);
    } else {
        assert(rest.insert(1, s[1]) =~= seq![s[0], s[1]]);
    }
}

/// With no claim in flight, two obligations of different invoices both get a claim.
proof fn lemma_picks_of_two(q: Seq<SettlementObligation>, cs: Seq<SettlementClaim>)
    requires
        q.len() == 2,
        cs.len() == 0,
        q[0].invoice_id@ != q[1].invoice_id@,
    ensures
        claim_picks(q, cs).len() == 2,
{
    let one = q.drop_last();
    assert(one.drop_last().len() == 0);
    assert(!has_active(cs, q[0].invoice_id@));
    assert(!has_active(cs, q[1].invoice_id@));
    assert(claim_picks(one.drop_last(), cs).len() == 0);
    assert(claim_picks(one, cs) =~= seq![q[0]]);
}

/// Filtering three values keeps those that pass, in order.
proof fn lemma_filter_three<A>(s: Seq<A>, p: spec_fn(A) -> bool)
    requires
        s.len() == 3,
    ensures
        s.filter(p) == (if p(s[0]) { seq![s[0]] } else { Seq::<A>::empty() }) + (if p(s[1]) {
            seq![s[1]]
        } else {
            Seq::<A>::empty()
        }) + (if p(s[2]) { seq![s[2]] } else { Seq::<A>::empty() }),
{
    reveal_with_fuel(Seq::filter, 4);
    assert(s.drop_last().drop_last().drop_last().len() == 0);
    assert(s.drop_last().drop_last() =~= seq![s[0]]);
    assert(s.drop_last() =~= seq![s[0], s[1]]);
    let a = if p(s[0]) { seq![s[0]] } else { Seq::<A>::empty() };
    let b = if p(s[1]) { seq![s[1]] } else { Seq::<A>::empty() };
    let c = if p(s[2]) { seq![s[2]] } else { Seq::<A>::empty() };
    assert(s.drop_last().drop_last().filter(p) =~= a);
    assert(s.drop_last().filter(p) =~= a + b);
    assert(s.filter(p) =~= a + b + c);
}

/// Filtering two values that both pass keeps both.
proof fn lemma_filter_two_pass<A>(s: Seq<A>, p: spec_fn(A) -> bool)
    requires
        s.len() == 2,
        p(s[0]),
        p(s[1]),
    ensures
        s.filter(p) == s,
{
    reveal_with_fuel(Seq::filter, 3);
    assert(s.drop_last().drop_last().len() == 0);
    assert(s.drop_last() =~= seq![s[0]]);
    assert(s.drop_last().filter(p) =~= seq![s[0]]);
    assert(s.filter(p) =~= s);
}

/// A book of three invoices, of which the last two leave an obligation due by `day`:
/// those two obligations are the due ones, in one order or the other, of different invoices.
proof fn lemma_two_due_of_three(
    book: crate::invoice::book::InvoiceBook,
    keys: Seq<Seq<char>>,
    invs: Seq<Invoice>,
    day: u32,
)
    requires
        book.wf(),
        keys.len() == 3,
        invs.len() == 3,
        book@.len() == 3,
        forall|i: int, j: int| 0 <= i < j < 3 ==> keys[i] != keys[j],
        forall|i: int| 0 <= i < 3 ==> book.find_spec(#[trigger] keys[i]) == Some(invs[i]),
        !has_obligation(invs[0]),
        has_obligation(invs[1]),
        has_obligation(invs[2]),
        invs[1].due_day <= day,
        invs[2].due_day <= day,
    ensures
        ({
            let d = due_obligations(entry_values(obligation_entries(book.all())), day);
            &&& d.len() == 2
            &&& d[0].invoice_id@ != d[1].invoice_id@
            &&& d[0].due_day <= day && d[1].due_day <= day
        }),
{
    let ks = entry_keys(book@);
    let all = book.all();
    let idx = Seq::new(3, |i: int| key_index(ks, keys[i]));
    assert forall|i: int| 0 <= i < 3 implies 0 <= #[trigger] idx[i] < 3 && all[idx[i]] == invs[i] && ks[idx[i]] == keys[i] by {
        assert(book.find_spec(keys[i]) == Some(invs[i]));
    }
    assert(idx[0] != idx[1] && idx[0] != idx[2] && idx[1] != idx[2]) by {
        assert(ks[idx[0]] == keys[0]);
        assert(ks[idx[1]] == keys[1]);
        assert(ks[idx[2]] == keys[2]);
    }
    assert(all[idx[1]].id@ == keys[1] && all[idx[2]].id@ == keys[2]) by {
        assert(book@[idx[1]].0@ == book@[idx[1]].1.id@);
        assert(book@[idx[2]].0@ == book@[idx[2]].1.id@);
    }
    let hp = |inv: Invoice| has_obligation(inv);
    lemma_filter_three(all, hp);
    let f = all.filter(hp);
    assert(f.len() == 2);
    assert((f[0] == invs[1] && f[1] == invs[2]) || (f[0] == invs[2] && f[1] == invs[1]));
    let os = entry_values(obligation_entries(all));
    assert(os.len() == 2);
    assert(os[0] == obligation_of(f[0]) && os[1] == obligation_of(f[1]));
    let due = |o: SettlementObligation| day >= o.due_day;
    lemma_filter_two_pass(os, due);
}

/// On the final desk before settlement, with no claim yet, the two invoices still to
/// present leave the due obligations on day 40; the third invoice's comes first, having
/// the higher priority, and both get a claim.
proof fn lemma_final_picks(st: SableState, ka: Seq<char>, kb: Seq<char>, kc: Seq<char>)
    requires
        st.wf(),
        st.invoices@.len() == 3,
        st.settlement.all_claims().len() == 0,
        ka == generated_text(InvoiceId::prefix(), 1),
        kb == generated_text(InvoiceId::prefix(), 2),
        kc == generated_text(InvoiceId::prefix(), 3),
        st.invoices.find_spec(ka) matches Some(a) && a.total@ == 7_200_000 && a.debit_memos_applied@ == 0
            && a.receipts_applied@ == 7_200_000,
        st.invoices.find_spec(kb) matches Some(b) && b.total@ == 5_400_000 && b.debit_memos_applied@ == 0
            && b.receipts_applied@ == 5_130_000 && b.due_day == 32 && b.status != InvoiceStatus::Draft
            && b.status != InvoiceStatus::Voided,
        st.invoices.find_spec(kc) matches Some(c) && c.total@ == 2_150_000 && c.debit_memos_applied@ == 0
            && c.receipts_applied@ == 800_000 && c.due_day == 36 && c.status != InvoiceStatus::Draft
            && c.status != InvoiceStatus::Voided,
    ensures
        settlement_picks(st.invoices.all(), st.settlement.all_claims(), 40) == seq![
            obligation_of(st.invoices.find_spec(kc)->Some_0),
            obligation_of(st.invoices.find_spec(kb)->Some_0),
        ],
{
    let a = st.invoices.find_spec(ka)->Some_0;
    let b = st.invoices.find_spec(kb)->Some_0;
    let c = st.invoices.find_spec(kc)->Some_0;
    crate::ids::lemma_generated_order(InvoiceId::prefix(), 1, 2);
    crate::ids::lemma_generated_order(InvoiceId::prefix(), 2, 3);
    crate::keyed::lemma_key_lt_irreflexive(kb);
    lemma_book_in_order(st.invoices, seq![a, b, c]);
    let all = st.invoices.all();
    let hp = |inv: Invoice| has_obligation(inv);
    lemma_filter_three(all, hp);
    assert(all.filter(hp) =~= seq![b, c]);
    let os = entry_values(obligation_entries(all));
    let ob = obligation_of(b);
    let oc = obligation_of(c);
    assert(os =~= seq![ob, oc]);
    let due = |o: SettlementObligation| 40 >= o.due_day;
    lemma_filter_two_pass(os, due);
    let d = due_obligations(os, 40);
    assert(d =~= seq![ob, oc]);
    assert(priority(ob, 40) == 2_780) by {
        assert(crate::amount::abs(270_000) == 270_000);
        assert(crate::amount::abs(100) == 100);
        assert(270_000int / 100int == 2_700);
        assert(crate::amount::trunc_div(270_000, 100) == 2_700);
    }
    assert(priority(oc, 40) == 13_540) by {
        assert(crate::amount::abs(1_350_000) == 1_350_000);
        assert(crate::amount::abs(100) == 100);
        assert(1_350_000int / 100int == 13_500);
        assert(crate::amount::trunc_div(1_350_000, 100) == 13_500);
    }
    reveal_with_fuel(by_priority, 3);
    reveal_with_fuel(priority_slot, 2);
    assert(d.drop_last() =~= seq![ob]);
    assert(d.drop_last().drop_last() =~= Seq::<SettlementObligation>::empty());
    assert(by_priority(d.drop_last(), 40) =~= seq![ob]);
    assert(priority_slot(seq![ob], priority(oc, 40), 40) == 0);
    let q = by_priority(d, 40);
    assert(q =~= seq![oc, ob]);
    assert(b.id@ == kb && c.id@ == kc);
    assert(kb != kc);
    lemma_picks_of_two(q, st.settlement.all_claims());
    reveal_with_fuel(claim_picks, 3);
    assert(q.drop_last() =~= seq![oc]);
    assert(q.drop_last().drop_last() =~= Seq::<SettlementObligation>::empty());
    assert(claim_picks(q, st.settlement.all_claims()) =~= seq![oc, ob]);
}

/// In a book of three invoices of which the first two pass `p` and the third does not,
/// filtering by `p` keeps two.
proof fn lemma_two_of_three_pass(
    book: crate::invoice::book::InvoiceBook,
    keys: Seq<Seq<char>>,
    invs: Seq<Invoice>,
    p: spec_fn(Invoice) -> bool,
)
    requires
        book.wf(),
        keys.len() == 3,
        invs.len() == 3,
        book@.len() == 3,
        forall|i: int, j: int| 0 <= i < j < 3 ==> keys[i] != keys[j],
        forall|i: int| 0 <= i < 3 ==> book.find_spec(#[trigger] keys[i]) == Some(invs[i]),
        p(invs[0]),
        p(invs[1]),
        !p(invs[2]),
    ensures
        book.all().filter(p).len() == 2,
{
    let ks = entry_keys(book@);
    let all = book.all();
    let idx = Seq::new(3, |i: int| key_index(ks, keys[i]));
    assert forall|i: int| 0 <= i < 3 implies 0 <= #[trigger] idx[i] < 3 && all[idx[i]] == invs[i] && ks[idx[i]] == keys[i] by {
        assert(book.find_spec(keys[i]) == Some(invs[i]));
    }
    assert(idx[0] != idx[1] && idx[0] != idx[2] && idx[1] != idx[2]) by {
        assert(ks[idx[0]] == keys[0]);
        assert(ks[idx[1]] == keys[1]);
        assert(ks[idx[2]] == keys[2]);
    }
    lemma_filter_three(all, p);
}

/// One when `inv` passes `p`, none otherwise.
pub open spec fn passes(p: spec_fn(Invoice) -> bool, inv: Invoice) -> int {
    if p(inv) {
        1
    } else {
        0
    }
}

/// How many invoices of a book of one, two or three pass `p`, from the invoices found
/// under its keys.
proof fn lemma_book_count(
    book: crate::invoice::book::InvoiceBook,
    keys: Seq<Seq<char>>,
    invs: Seq<Invoice>,
    p: spec_fn(Invoice) -> bool,
)
    requires
        book.wf(),
        1 <= keys.len() <= 3,
        invs.len() == keys.len(),
        book@.len() == keys.len(),
        forall|i: int, j: int| 0 <= i < j < keys.len() ==> keys[i] != keys[j],
        forall|i: int| 0 <= i < keys.len() ==> book.find_spec(#[trigger] keys[i]) == Some(invs[i]),
    ensures
        book.all().filter(p).len() == passes(p, invs[0]) + (if invs.len() > 1 { passes(p, invs[1]) } else { 0 })
            + (if invs.len() > 2 { passes(p, invs[2]) } else { 0 }),
{
    let ks = entry_keys(book@);
    let all = book.all();
    let n = keys.len();
    let idx = Seq::new(n as nat, |i: int| key_index(ks, keys[i]));
    assert forall|i: int| 0 <= i < n implies 0 <= #[trigger] idx[i] < n && all[idx[i]] == invs[i] && ks[idx[i]] == keys[i] by {
        assert(book.find_spec(keys[i]) == Some(invs[i]));
    }
    assert forall|i: int, j: int| 0 <= i < j < n implies #[trigger] idx[i] != #[trigger] idx[j] by {
        assert(ks[idx[i]] == keys[i]);
        assert(ks[idx[j]] == keys[j]);
    }
    reveal_with_fuel(Seq::filter, 4);
    if n == 1 {
        assert(all.drop_last().len() == 0);
        assert(all[0] == invs[0]);
    } else if n == 2 {
        assert(all.drop_last().drop_last().len() == 0);
        assert(all.drop_last() =~= seq![all[0]]);
        assert(idx[0] != idx[1]);
    } else {
        lemma_filter_three(all, p);
        assert(idx[0] != idx[1] && idx[0] != idx[2] && idx[1] != idx[2]);
    }
}

/// The status table of a book of one, two or three invoices is that of the invoices
/// found under its keys, in any order.
proof fn lemma_book_statuses(book: crate::invoice::book::InvoiceBook, keys: Seq<Seq<char>>, invs: Seq<Invoice>)
    requires
        book.wf(),
        1 <= keys.len() <= 3,
        invs.len() == keys.len(),
        book@.len() == keys.len(),
        forall|i: int, j: int| 0 <= i < j < keys.len() ==> keys[i] != keys[j],
        forall|i: int| 0 <= i < keys.len() ==> book.find_spec(#[trigger] keys[i]) == Some(invs[i]),
    ensures
        status_counts_spec(book.all()) == status_counts_spec(invs),
{
    let all = book.all();
    assert forall|st: InvoiceStatus| status_count(all, st) == status_count(invs, st) by {
        let p = |inv: Invoice| inv.status == st;
        lemma_book_count(book, keys, invs, p);
        reveal_with_fuel(Seq::filter, 4);
        if invs.len() == 1 {
            assert(invs.drop_last().len() == 0);
        } else if invs.len() == 2 {
            assert(invs.drop_last().drop_last().len() == 0);
            assert(invs.drop_last() =~= seq![invs[0]]);
        } else {
            lemma_filter_three(invs, p);
        }
    }
    let keep_a = |s: InvoiceStatus| status_count(all, s) > 0;
    let keep_b = |s: InvoiceStatus| status_count(invs, s) > 0;
    assert(keep_a =~= keep_b);
    let label_a = |s: InvoiceStatus| (invoice_status_name(s), status_count(all, s));
    let label_b = |s: InvoiceStatus| (invoice_status_name(s), status_count(invs, s));
    assert(label_a =~= label_b);
}

/// The row of the status table for `st` when `n` invoices are in it: none when there are none.
pub open spec fn status_row(st: InvoiceStatus, n: nat) -> Seq<(Seq<char>, nat)> {
    if n > 0 {
        seq![(invoice_status_name(st), n)]
    } else {
        Seq::empty()
    }
}

/// The status table of `invs`, row by row in the order of the statuses' names.
pub open spec fn status_table(invs: Seq<Invoice>) -> Seq<(Seq<char>, nat)> {
    status_row(InvoiceStatus::Closed, status_count(invs, InvoiceStatus::Closed)) + status_row(
        InvoiceStatus::Draft,
        status_count(invs, InvoiceStatus::Draft),
    ) + status_row(InvoiceStatus::Issued, status_count(invs, InvoiceStatus::Issued)) + status_row(
        InvoiceStatus::Paid,
        status_count(invs, InvoiceStatus::Paid),
    ) + status_row(
        InvoiceStatus::PartiallyCollected,
        status_count(invs, InvoiceStatus::PartiallyCollected),
    ) + status_row(InvoiceStatus::Voided, status_count(invs, InvoiceStatus::Voided))
}

/// The status counts of a set of invoices, spelled out row by row.
#[verifier::spinoff_prover]
#[verifier::rlimit(60)]
proof fn lemma_status_table(invs: Seq<Invoice>)
    ensures
        status_counts_spec(invs) == status_table(invs),
{
    let names = crate::analytics::statuses_by_name();
    let keep = |st: InvoiceStatus| status_count(invs, st) > 0;
    let label = |st: InvoiceStatus| (invoice_status_name(st), status_count(invs, st));
    reveal_with_fuel(Seq::filter, 7);
    assert(names.len() == 6);
    let f = names.filter(keep);
    let k0 = if keep(names[0]) { seq![names[0]] } else { Seq::<InvoiceStatus>::empty() };
    let k1 = if keep(names[1]) { seq![names[1]] } else { Seq::<InvoiceStatus>::empty() };
    let k2 = if keep(names[2]) { seq![names[2]] } else { Seq::<InvoiceStatus>::empty() };
    let k3 = if keep(names[3]) { seq![names[3]] } else { Seq::<InvoiceStatus>::empty() };
    let k4 = if keep(names[4]) { seq![names[4]] } else { Seq::<InvoiceStatus>::empty() };
    let k5 = if keep(names[5]) { seq![names[5]] } else { Seq::<InvoiceStatus>::empty() };
    assert(names.take(0).filter(keep) =~= Seq::<InvoiceStatus>::empty());
    crate::keyed::lemma_filter_take_step(names, keep, 0);
    crate::keyed::lemma_filter_take_step(names, keep, 1);
    crate::keyed::lemma_filter_take_step(names, keep, 2);
    crate::keyed::lemma_filter_take_step(names, keep, 3);
    crate::keyed::lemma_filter_take_step(names, keep, 4);
    crate::keyed::lemma_filter_take_step(names, keep, 5);
    assert(names.take(6) =~= names);
    assert(names.take(1).filter(keep) =~= k0);
    assert(names.take(2).filter(keep) =~= k0 + k1);
    assert(names.take(3).filter(keep) =~= k0 + k1 + k2);
    assert(names.take(4).filter(keep) =~= k0 + k1 + k2 + k3);
    assert(names.take(5).filter(keep) =~= k0 + k1 + k2 + k3 + k4);
    assert(f =~= k0 + k1 + k2 + k3 + k4 + k5);
    assert(f.map_values(label) =~= status_table(invs));
}

/// How many of one, two or three invoices are in each status.
proof fn lemma_small_status_counts(invs: Seq<Invoice>)
    requires
        1 <= invs.len() <= 3,
    ensures
        forall|st: InvoiceStatus|
            #[trigger] status_count(invs, st) == (if invs[0].status == st { 1int } else { 0 }) + (if invs.len()
                > 1 && invs[1].status == st { 1int } else { 0 }) + (if invs.len() > 2 && invs[2].status == st {
                1int
            } else {
                0
            }),
{
    assert forall|st: InvoiceStatus|
        #[trigger] status_count(invs, st) == (if invs[0].status == st { 1int } else { 0 }) + (if invs.len() > 1
            && invs[1].status == st { 1int } else { 0 }) + (if invs.len() > 2 && invs[2].status == st {
            1int
        } else {
            0
        }) by {
        let p = |inv: Invoice| inv.status == st;
        reveal_with_fuel(Seq::filter, 4);
        if invs.len() == 1 {
            assert(invs.drop_last().len() == 0);
        } else if invs.len() == 2 {
            assert(invs.drop_last().drop_last().len() == 0);
            assert(invs.drop_last() =~= seq![invs[0]]);
        } else {
            lemma_filter_three(invs, p);
        }
    }
}

/// The invoices of a book of one, two or three, found under the first generated invoice
/// ids, stand in the order of their ids.
proof fn lemma_book_in_order(book: crate::invoice::book::InvoiceBook, invs: Seq<Invoice>)
    requires
        book.wf(),
        1 <= invs.len() <= 3,
        book@.len() == invs.len(),
        forall|i: int|
            0 <= i < invs.len() ==> book.find_spec(generated_text(InvoiceId::prefix(), (i + 1) as u64))
                == Some(#[trigger] invs[i]),
    ensures
        book.all() =~= invs,
{
    let keys = Seq::new(invs.len(), |i: int| generated_text(InvoiceId::prefix(), (i + 1) as u64));
    crate::ids::lemma_generated_order(InvoiceId::prefix(), 1, 2);
    crate::ids::lemma_generated_order(InvoiceId::prefix(), 2, 3);
    assert forall|i: int| 0 <= i < keys.len() implies crate::keyed::lookup(book@, #[trigger] keys[i]) == Some(invs[i]) by {
        assert(book.find_spec(keys[i]) == Some(invs[i]));
    }
    crate::keyed::lemma_entries_in_order(book@, keys, invs);
}

/// Whether `r` is the report row of the posted claim with generated number `id`, of
/// `amount`, presenting the invoice with generated number `n`.
pub open spec fn claim_row_is(r: ClaimRow, id: u64, n: u64, amount: int) -> bool {
    &&& r.id@ == generated_text(SettlementId::prefix(), id)
    &&& r.invoice_id@ == generated_text(InvoiceId::prefix(), n)
    &&& r.amount@ == amount
    &&& r.status == ClaimStatus::Posted
}

/// Whether `r` is the report row of the invoice with generated number `n`: its buyer,
/// status, total, collected, net memos and what is open in the books and to present.
pub open spec fn invoice_row_is(
    r: InvoiceRow,
    n: u64,
    buyer: Seq<char>,
    status: InvoiceStatus,
    total: int,
    receipts: int,
    memos: int,
    acct: int,
    pres: int,
) -> bool {
    &&& r.id@ == generated_text(InvoiceId::prefix(), n)
    &&& r.buyer@ == buyer
    &&& r.status == status
    &&& r.total@ == total
    &&& r.receipts@ == receipts
    &&& r.memos@ == memos
    &&& r.accounting_open@ == acct
    &&& r.presentation_open@ == pres
}

/// What an invoice leaves to present in its obligation: its presentation balance when it
/// has an obligation, nothing otherwise.
pub open spec fn obligation_share(inv: Invoice) -> int {
    if has_obligation(inv) {
        inv.presentation_open()
    } else {
        0
    }
}

/// The total the obligations of one, two or three invoices leave to present.
proof fn lemma_obligation_total(invs: Seq<Invoice>)
    requires
        1 <= invs.len() <= 3,
        forall|i: int| 0 <= i < invs.len() ==> fits_i64((#[trigger] invs[i]).presentation_open()),
    ensures
        seq_sum(presentable_amounts(entry_values(obligation_entries(invs)))) == obligation_share(invs[0])
            + (if invs.len() > 1 { obligation_share(invs[1]) } else { 0 }) + (if invs.len() > 2 {
            obligation_share(invs[2])
        } else {
            0
        }),
{
    let hp = |inv: Invoice| has_obligation(inv);
    let f = invs.filter(hp);
    reveal_with_fuel(Seq::filter, 4);
    if invs.len() == 1 {
        assert(invs.drop_last().len() == 0);
    } else if invs.len() == 2 {
        assert(invs.drop_last().drop_last().len() == 0);
        assert(invs.drop_last() =~= seq![invs[0]]);
    } else {
        lemma_filter_three(invs, hp);
    }
    let amounts = presentable_amounts(entry_values(obligation_entries(invs)));
    assert(amounts.len() == f.len());
    assert forall|i: int| 0 <= i < f.len() implies #[trigger] amounts[i] == f[i].presentation_open() by {
        assert(hp(f[i]));
    }
    lemma_sum_small(amounts);
    if f.len() == 0 {
        assert(amounts =~= Seq::<int>::empty());
        reveal_with_fuel(crate::amount::sum_first, 1);
    }
}

/// The claim totals of a settlement book with no claims: nothing posted, in flight or frozen.
proof fn lemma_no_claim_totals(cs: Seq<SettlementClaim>)
    requires
        cs.len() == 0,
    ensures
        cs.filter(|c: SettlementClaim| c.status == ClaimStatus::Posted).len() == 0,
        seq_sum(claim_amounts(active_claims(cs))) == 0,
        seq_sum(claim_amounts(frozen_claims(cs))) == 0,
{
    reveal_with_fuel(Seq::filter, 1);
    assert(claim_amounts(active_claims(cs)) =~= Seq::<int>::empty());
    assert(claim_amounts(frozen_claims(cs)) =~= Seq::<int>::empty());
    reveal_with_fuel(crate::amount::sum_first, 1);
}

/// The claim totals of two posted claims: both in flight, none frozen.
proof fn lemma_two_posted_totals(cs: Seq<SettlementClaim>)
    requires
        cs.len() == 2,
        cs[0].status == ClaimStatus::Posted,
        cs[1].status == ClaimStatus::Posted,
    ensures
        seq_sum(claim_amounts(active_claims(cs))) == cs[0].amount@ + cs[1].amount@,
        seq_sum(claim_amounts(frozen_claims(cs))) == 0,
{
    lemma_filter_two_pass(cs, |c: SettlementClaim| c.status.active());
    reveal_with_fuel(Seq::filter, 3);
    assert(cs.drop_last().drop_last().len() == 0);
    assert(cs.drop_last() =~= seq![cs[0]]);
    assert(frozen_claims(cs).len() == 0);
    assert(claim_amounts(frozen_claims(cs)) =~= Seq::<int>::empty());
    lemma_sum_small(claim_amounts(active_claims(cs)));
    reveal_with_fuel(crate::amount::sum_first, 1);
}

/// The debit and credit totals of the desk's six-account chart, account by account.
proof fn lemma_chart_totals(l: crate::ledger::state::Ledger, a: AccountMap)
    requires
        l.wf(),
        standard_accounts(a),
        l.slots().len() == 6,
        forall|k: Seq<char>| #[trigger] has_key(entry_keys(l.slots()), k) == standard_key(a, k),
    ensures
        seq_sum(debit_parts(l.slots())) == crate::ledger::state::debit_part(balance_of(l.slots(), a.cash@))
            + crate::ledger::state::debit_part(balance_of(l.slots(), a.receivable@))
            + crate::ledger::state::debit_part(balance_of(l.slots(), a.clearing@))
            + crate::ledger::state::debit_part(balance_of(l.slots(), a.suspense@))
            + crate::ledger::state::debit_part(balance_of(l.slots(), a.revenue@))
            + crate::ledger::state::debit_part(balance_of(l.slots(), a.allowance@)),
        seq_sum(credit_parts(l.slots())) == crate::ledger::state::credit_part(balance_of(l.slots(), a.cash@))
            + crate::ledger::state::credit_part(balance_of(l.slots(), a.receivable@))
            + crate::ledger::state::credit_part(balance_of(l.slots(), a.clearing@))
            + crate::ledger::state::credit_part(balance_of(l.slots(), a.suspense@))
            + crate::ledger::state::credit_part(balance_of(l.slots(), a.revenue@))
            + crate::ledger::state::credit_part(balance_of(l.slots(), a.allowance@)),
{
    reveal_strlit("1000-cash");
    reveal_strlit("1200-accounts-receivable");
    reveal_strlit("1300-settlement-clearing");
    reveal_strlit("1990-reconciliation-suspense");
    reveal_strlit("4000-merchant-revenue");
    reveal_strlit("4090-commercial-allowance");
    reveal_with_fuel(crate::keyed::key_lt, 4);
    let sl = l.slots();
    let keys = seq![a.cash@, a.receivable@, a.clearing@, a.suspense@, a.revenue@, a.allowance@];
    assert(crate::keyed::key_lt(keys[0], keys[1]));
    assert(crate::keyed::key_lt(keys[1], keys[2]));
    assert(crate::keyed::key_lt(keys[2], keys[3]));
    assert(crate::keyed::key_lt(keys[3], keys[4]));
    assert(crate::keyed::key_lt(keys[4], keys[5]));
    let vals = Seq::new(6, |i: int| crate::keyed::lookup(sl, keys[i])->Some_0);
    assert forall|i: int| 0 <= i < 6 implies crate::keyed::lookup(sl, #[trigger] keys[i]) == Some(vals[i]) by {
        assert(standard_key(a, keys[i]));
        assert(has_key(entry_keys(sl), keys[i]));
    }
    crate::keyed::lemma_entries_in_order(sl, keys, vals);
    assert forall|i: int| 0 <= i < 6 implies #[trigger] sl[i].1 == vals[i] && vals[i].balance@ == balance_of(sl, keys[i]) by {
        assert(crate::keyed::entry_values(sl)[i] == vals[i]);
    }
    reveal_with_fuel(crate::amount::sum_first, 7);
}

/// Posting claims names only the receivable and clearing accounts, so the effects are on
/// the active chart when both accounts are.
proof fn lemma_pick_effects_known(
    s: Seq<(crate::ids::AccountId, crate::ledger::state::AccountSlot)>,
    picks: Seq<SettlementObligation>,
    rec: crate::ids::AccountId,
    clr: crate::ids::AccountId,
)
    requires
        key_active(s, rec@),
        key_active(s, clr@),
    ensures
        crate::ledger::state::effects_known(s, crate::fixtures::state::pick_effects(picks, rec, clr)),
    decreases picks.len(),
{
    if picks.len() > 0 {
        lemma_pick_effects_known(s, picks.drop_last(), rec, clr);
        let prev = crate::fixtures::state::pick_effects(picks.drop_last(), rec, clr);
        let pair = pair_effects(clr, rec, picks.last().presentable_amount);
        let all = prev + pair;
        assert forall|j: int| 0 <= j < all.len() implies key_active(s, #[trigger] all[j].0) by {
            if j < prev.len() {
                assert(all[j] == prev[j]);
            } else {
                assert(all[j] == pair[j - prev.len()]);
            }
        }
    }
}

/// The debit and credit totals of a desk in shape, account by account.
proof fn lemma_desk_totals(st: SableState, b: int)
    requires
        desk_ready(st, b),
    ensures
        seq_sum(debit_parts(st.ledger.slots())) == crate::ledger::state::debit_part(
            balance_of(st.ledger.slots(), st.accounts.cash@),
        ) + crate::ledger::state::debit_part(balance_of(st.ledger.slots(), st.accounts.receivable@))
            + crate::ledger::state::debit_part(balance_of(st.ledger.slots(), st.accounts.clearing@))
            + crate::ledger::state::debit_part(balance_of(st.ledger.slots(), st.accounts.suspense@))
            + crate::ledger::state::debit_part(balance_of(st.ledger.slots(), st.accounts.revenue@))
            + crate::ledger::state::debit_part(balance_of(st.ledger.slots(), st.accounts.allowance@)),
        seq_sum(credit_parts(st.ledger.slots())) == crate::ledger::state::credit_part(
            balance_of(st.ledger.slots(), st.accounts.cash@),
        ) + crate::ledger::state::credit_part(balance_of(st.ledger.slots(), st.accounts.receivable@))
            + crate::ledger::state::credit_part(balance_of(st.ledger.slots(), st.accounts.clearing@))
            + crate::ledger::state::credit_part(balance_of(st.ledger.slots(), st.accounts.suspense@))
            + crate::ledger::state::credit_part(balance_of(st.ledger.slots(), st.accounts.revenue@))
            + crate::ledger::state::credit_part(balance_of(st.ledger.slots(), st.accounts.allowance@)),
        standard_accounts(st.accounts),
{
    reveal(desk_ready);
    lemma_chart_totals(st.ledger, st.accounts);
}

/// The period limit of the seeded policy on an invoice: 5% of its gross, rounded.
proof fn lemma_period_limit(st: SableState, inv: Invoice, lim: int)
    requires
        st.adjustment_policy.max_period_bps@ == 500,
        inv.gross() >= 0,
        (inv.gross() * 500 + 5000) / 10000 == lim,
    ensures
        period_limit(st.adjustment_policy, inv) == lim,
{
    assert(crate::amount::abs(10000) == 10000);
    assert(crate::amount::abs(2) == 2);
    assert(10000int / 2int == 5000);
    assert(crate::amount::trunc_div(10000, 2) == 5000);
    assert(inv.gross() * 500 >= 0);
    assert(crate::amount::abs(inv.gross() * 500 + 5000) == inv.gross() * 500 + 5000);
}

/// Nothing is filed against any invoice in an empty adjustment book.
proof fn lemma_nothing_filed(adjs: Seq<ManualAdjustment>, k: Seq<char>)
    requires
        adjs.len() == 0,
    ensures
        filed_total(adjs, k) == 0,
{
    assert(crate::adjustments::book::filed_amounts(adjs, k).len() == 0);
}

/// The seeded processor and treasury are different parties.
proof fn lemma_processor_not_treasury(p: SeedParties)
    requires
        standard_parties(p),
    ensures
        p.processor@ != p.treasury@,
{
    reveal_strlit("processor-delta-rail");
    reveal_strlit("treasury-sable");
    assert("processor-delta-rail"@.len() == 20);
    assert("treasury-sable"@.len() == 14);
}

/// The figures of the adjustments scenario: one invoice, collected but for the two memos,
/// nothing open in the books and the memos' amount still to present.
pub open spec fn adjustments_figures(rep: ScenarioReport) -> bool {
    &&& rep.ledger.total_debits@ == 10_000_000
    &&& rep.ledger.total_credits@ == 10_000_000
    &&& rep.ledger.accounts == 6
    &&& rep.settlement.claims == 0
    &&& rep.settlement.posted_claims == 0
    &&& rep.settlement.active_claim_total@ == 0
    &&& rep.settlement.frozen_claim_total@ == 0
    &&& rep.settlement.obligation_total@ == 250_000
    &&& rep.claim_rows@.len() == 0
    &&& rep.invoice_rows@.len() == 1
    &&& invoice_row_is(rep.invoice_rows@[0], 1, "buyer-aurelian-retail"@, InvoiceStatus::Paid, 10_000_000, 9_750_000, 250_000, 0, 250_000)
    &&& count_table(rep.invoices.statuses@) == seq![("Paid"@, 1nat)]
    &&& rep.ledger.entries == 4
    &&& rep.settlement.obligations == 1
    &&& rep.invoices.count == 1
    &&& rep.invoices.accounting_open@ == 0
    &&& rep.invoices.presentation_open@ == 250_000
    &&& rep.invoices.collected@ == 9_750_000
    &&& rep.invoices.memos@ == 250_000
}

/// A receipt short of the invoice, the rest relieved by two approved credit memos.
#[verifier::spinoff_prover]
#[verifier::rlimit(60)]
fn small_adjustments() -> (r: SableResult<ScenarioReport>)
    ensures
        r is Ok,
        r matches Ok(rep) ==> rep.scenario@ == "adjustments"@ && rep.day == 13 && report_sealed(
            rep,
        ) && rep.close is None && single_event(rep, "posted receipt and two approved memos"@)
            && adjustments_figures(rep),
{
    let mut state = seeded_state()?;
    proof {
        lemma_seeded_ready(state);
    }
    let alpha = state.parties.buyer_alpha.duplicate();
    let invoice = issue(&mut state, alpha, "AR-2026-0100", 1, Money::dollars(100_000), Ghost(0int))?;
    receive(&mut state, &invoice, 11, Money::dollars(97_500), PaymentChannel::Ach, "ACH-7741", Ghost(10_000_000int))?;
    proof {
        let inv = state.invoices.find_spec(invoice@)->Some_0;
        lemma_limit(state, inv, 250_000);
        lemma_period_limit(state, inv, 500_000);
        lemma_nothing_filed(state.adjustments.all(), invoice@);
        lemma_processor_not_treasury(state.parties);
    }
    credit(&mut state, &invoice, 12, Money::dollars(1_250), AdjustmentReason::ContractRebate, Ghost(19_750_000int))?;
    proof {
        let inv = state.invoices.find_spec(invoice@)->Some_0;
        lemma_limit(state, inv, 250_000);
        lemma_period_limit(state, inv, 500_000);
    }
    credit(&mut state, &invoice, 13, Money::dollars(1_250), AdjustmentReason::ProcessorFeeTrueUp, Ghost(19_875_000int))?;
    refresh_checked(&mut state, Ghost(20_000_000int))?;
    proof {
        lemma_report_ok(state, 20_000_000);
        assert(state.ledger.slots().len() == 6) by {
            reveal(desk_ready);
        }
        let fin = state.invoices.find_spec(invoice@)->Some_0;
        assert(fin.total@ == 10_000_000);
        assert(fin.debit_memos_applied@ == 0);
        assert(fin.receipts_applied@ == 9_750_000);
        assert(fin.credit_memos_applied@ == 250_000);
        lemma_book_sums(state.invoices, seq![invoice@], seq![fin]);
        lemma_sum_small(accounting_opens(seq![fin]));
        lemma_sum_small(presentation_opens(seq![fin]));
        lemma_sum_small(receipt_amounts(seq![fin]));
        lemma_sum_small(net_memos(seq![fin]));
        assert(invoice_sums(state.invoices.all(), 0, 250_000, 9_750_000, 250_000));
        lemma_book_count(state.invoices, seq![invoice@], seq![fin], |inv: Invoice| has_obligation(inv));
        assert(fin.status == InvoiceStatus::Paid);
        lemma_book_statuses(state.invoices, seq![invoice@], seq![fin]);
        lemma_status_table(seq![fin]);
        lemma_small_status_counts(seq![fin]);
        assert(status_table(seq![fin]) =~= seq![("Paid"@, 1nat)]);
        assert(fin.buyer@ == "buyer-aurelian-retail"@);
        assert(fin.id@ == generated_text(InvoiceId::prefix(), 1));
        lemma_book_in_order(state.invoices, seq![fin]);
        lemma_no_claim_totals(state.settlement.all_claims());
        lemma_obligation_total(seq![fin]);
        lemma_desk_totals(state, 20_000_000);
        lemma_standard_ids_distinct(state.accounts);
        let sl = state.ledger.slots();
        let ac = state.accounts;
        assert(balance_of(sl, ac.cash@) == 9_750_000);
        assert(balance_of(sl, ac.receivable@) == 0);
        assert(balance_of(sl, ac.revenue@) == -10_000_000);
        assert(balance_of(sl, ac.allowance@) == 250_000);
        assert(balance_of(sl, ac.clearing@) == 0);
        assert(balance_of(sl, ac.suspense@) == 0);
    }
    build_report(
        state,
        "adjustments",
        13,
        None,
        vec![String::from_str("posted receipt and two approved memos")],
    )
}

/// The figures of the monthly close: three invoices, the third half collected and the
/// second's memo still to present.
pub open spec fn monthly_figures(rep: ScenarioReport) -> bool {
    &&& rep.ledger.total_debits@ == 7_120_000
    &&& rep.ledger.total_credits@ == 7_120_000
    &&& rep.ledger.accounts == 6
    &&& rep.settlement.claims == 0
    &&& rep.settlement.posted_claims == 0
    &&& rep.settlement.active_claim_total@ == 0
    &&& rep.settlement.frozen_claim_total@ == 0
    &&& rep.settlement.obligation_total@ == 605_000
    &&& rep.ledger.entries == 7
    &&& rep.close matches Some(m) && m.id@ == generated_text(crate::ids::BatchId::prefix(), 1)
        && m.accounting_open@ == 560_000 && m.presentation_open@ == 605_000
        && m.settlement_obligations@ == 605_000
    &&& rep.claim_rows@.len() == 0
    &&& rep.invoice_rows@.len() == 3
    &&& invoice_row_is(rep.invoice_rows@[0], 1, "buyer-aurelian-retail"@, InvoiceStatus::Closed, 4_200_000, 4_200_000, 0, 0, 0)
    &&& invoice_row_is(rep.invoice_rows@[1], 2, "buyer-bluegrain-logistics"@, InvoiceStatus::Closed, 1_800_000, 1_755_000, 45_000, 0, 45_000)
    &&& invoice_row_is(rep.invoice_rows@[2], 3, "buyer-cavern-supply"@, InvoiceStatus::PartiallyCollected, 1_120_000, 560_000, 0, 560_000, 560_000)
    &&& single_event(rep, "closed "@ + decimal(2) + " eligible invoices"@)
    &&& count_table(rep.invoices.statuses@) == seq![("Closed"@, 2nat), ("PartiallyCollected"@, 1nat)]
    &&& rep.settlement.obligations == 2
    &&& rep.invoices.count == 3
    &&& rep.invoices.accounting_open@ == 560_000
    &&& rep.invoices.presentation_open@ == 605_000
    &&& rep.invoices.collected@ == 6_515_000
    &&& rep.invoices.memos@ == 45_000
}

/// Three invoices through a month: paid, short-paid with a memo, half paid; the
/// collected ones are closed and the period is closed.
#[verifier::spinoff_prover]
#[verifier::rlimit(60)]
fn monthly_close() -> (r: SableResult<ScenarioReport>)
    ensures
        r is Ok,
        r matches Ok(rep) ==> rep.scenario@ == "monthly-close"@ && rep.day == 31 && report_sealed(
            rep,
        ) && january_close(rep, CloseStatus::Closed) && exists|n: nat|
            single_event(rep, "closed "@ + decimal(n) + " eligible invoices"@)
            && monthly_figures(rep),
{
    let mut state = seeded_state()?;
    proof {
        lemma_seeded_ready(state);
        lemma_three_keys();
    }
    let alpha = state.parties.buyer_alpha.duplicate();
    let beta = state.parties.buyer_beta.duplicate();
    let gamma = state.parties.buyer_gamma.duplicate();
    let invoice_a = issue(&mut state, alpha, "AR-2026-0200", 1, Money::dollars(42_000), Ghost(0int))?;
    let invoice_b = issue(&mut state, beta, "AR-2026-0201", 4, Money::dollars(18_000), Ghost(4_200_000int))?;
    let invoice_c = issue(&mut state, gamma, "AR-2026-0202", 7, Money::dollars(11_200), Ghost(6_000_000int))?;
    receive(&mut state, &invoice_a, 12, Money::dollars(42_000), PaymentChannel::Wire, "WIRE-7652", Ghost(7_120_000int))?;
    receive(&mut state, &invoice_b, 20, Money::dollars(17_550), PaymentChannel::Ach, "ACH-1099", Ghost(11_320_000int))?;
    proof {
        let inv = state.invoices.find_spec(invoice_b@)->Some_0;
        lemma_limit(state, inv, 45_000);
        lemma_period_limit(state, inv, 90_000);
        lemma_nothing_filed(state.adjustments.all(), invoice_b@);
        lemma_processor_not_treasury(state.parties);
    }
    credit(&mut state, &invoice_b, 22, Money::dollars(450), AdjustmentReason::FreightVariance, Ghost(13_075_000int))?;
    receive(&mut state, &invoice_c, 26, Money::dollars(5_600), PaymentChannel::CardNetwork, "CARD-BATCH-31", Ghost(13_120_000int))?;
    proof {
        let fa = state.invoices.find_spec(invoice_a@)->Some_0;
        let fb = state.invoices.find_spec(invoice_b@)->Some_0;
        let fc = state.invoices.find_spec(invoice_c@)->Some_0;
        assert(fa.receipts_applied@ == 4_200_000 && fa.total@ == 4_200_000);
        assert(fb.receipts_applied@ == 1_755_000 && fb.credit_memos_applied@ == 45_000);
        assert(fc.receipts_applied@ == 560_000 && fc.total@ == 1_120_000);
        lemma_two_of_three_pass(
            state.invoices,
            seq![invoice_a@, invoice_b@, invoice_c@],
            seq![fa, fb, fc],
            |inv: Invoice| closable(inv, 31),
        );
    }
    let closed = close_eligible(&mut state, 31, Ghost(13_680_000int))?;
    let mut close = prepare_close_checked(&mut state, Period::new(2026, 1, 1, 31), 31, Ghost(13_680_000int))?;
    close.close(&state.policies.close, 31)?;
    proof {
        lemma_report_ok(state, 13_680_000);
        assert(state.ledger.slots().len() == 6) by {
            reveal(desk_ready);
        }
        let fa = state.invoices.find_spec(invoice_a@)->Some_0;
        let fb = state.invoices.find_spec(invoice_b@)->Some_0;
        let fc = state.invoices.find_spec(invoice_c@)->Some_0;
        assert(fa.total@ == 4_200_000 && fa.debit_memos_applied@ == 0);
        assert(fa.receipts_applied@ == 4_200_000 && fa.credit_memos_applied@ == 0);
        assert(fb.total@ == 1_800_000 && fb.debit_memos_applied@ == 0);
        assert(fb.receipts_applied@ == 1_755_000 && fb.credit_memos_applied@ == 45_000);
        assert(fc.total@ == 1_120_000 && fc.debit_memos_applied@ == 0);
        assert(fc.receipts_applied@ == 560_000 && fc.credit_memos_applied@ == 0);
        lemma_book_sums(state.invoices, seq![invoice_a@, invoice_b@, invoice_c@], seq![fa, fb, fc]);
        lemma_sum_small(accounting_opens(seq![fa, fb, fc]));
        lemma_sum_small(presentation_opens(seq![fa, fb, fc]));
        lemma_sum_small(receipt_amounts(seq![fa, fb, fc]));
        lemma_sum_small(net_memos(seq![fa, fb, fc]));
        assert(invoice_sums(state.invoices.all(), 560_000, 605_000, 6_515_000, 45_000));
        lemma_book_count(
            state.invoices,
            seq![invoice_a@, invoice_b@, invoice_c@],
            seq![fa, fb, fc],
            |inv: Invoice| has_obligation(inv),
        );
        assert(fa.status == InvoiceStatus::Closed);
        assert(fb.status == InvoiceStatus::Closed);
        assert(fc.status == InvoiceStatus::PartiallyCollected);
        lemma_book_statuses(state.invoices, seq![invoice_a@, invoice_b@, invoice_c@], seq![fa, fb, fc]);
        lemma_status_table(seq![fa, fb, fc]);
        lemma_small_status_counts(seq![fa, fb, fc]);
        assert(status_table(seq![fa, fb, fc]) =~= seq![("Closed"@, 2nat), ("PartiallyCollected"@, 1nat)]);
        assert(fa.buyer@ == "buyer-aurelian-retail"@);
        assert(fb.buyer@ == "buyer-bluegrain-logistics"@);
        assert(fc.buyer@ == "buyer-cavern-supply"@);
        assert(fa.id@ == generated_text(InvoiceId::prefix(), 1));
        assert(fb.id@ == generated_text(InvoiceId::prefix(), 2));
        assert(fc.id@ == generated_text(InvoiceId::prefix(), 3));
        lemma_book_in_order(state.invoices, seq![fa, fb, fc]);
        lemma_no_claim_totals(state.settlement.all_claims());
        lemma_obligation_total(seq![fa, fb, fc]);
        lemma_desk_totals(state, 13_680_000);
        lemma_standard_ids_distinct(state.accounts);
        let sl = state.ledger.slots();
        let ac = state.accounts;
        assert(balance_of(sl, ac.cash@) == 6_515_000);
        assert(balance_of(sl, ac.receivable@) == 560_000);
        assert(balance_of(sl, ac.revenue@) == -7_120_000);
        assert(balance_of(sl, ac.allowance@) == 45_000);
        assert(balance_of(sl, ac.clearing@) == 0);
        assert(balance_of(sl, ac.suspense@) == 0);
    }
    let r = build_report(
        state,
        "monthly-close",
        31,
        Some(close),
        vec![counted_event("closed ", closed, " eligible invoices")],
    );
    assert(r matches Ok(rep) ==> single_event(
        rep,
        "closed "@ + decimal(closed as nat) + " eligible invoices"@,
    ));
    r
}

/// The invoice figures of the final reconciliation: three invoices, the third partly
/// collected and the second's two memos still to present.
pub open spec fn final_figures(rep: ScenarioReport) -> bool {
    &&& rep.ledger.total_debits@ == 15_020_000
    &&& rep.ledger.total_credits@ == 15_020_000
    &&& rep.ledger.accounts == 6
    &&& rep.ledger.entries == 10
    &&& rep.settlement.obligation_total@ == 1_620_000
    &&& rep.settlement.active_claim_total@ == 1_620_000
    &&& rep.settlement.frozen_claim_total@ == 0
    &&& rep.close matches Some(m) && m.id@ == generated_text(crate::ids::BatchId::prefix(), 2)
        && m.accounting_open@ == 1_350_000 && m.presentation_open@ == 1_620_000
        && m.settlement_obligations@ == 1_620_000
    &&& rep.claim_rows@.len() == 2
    &&& claim_row_is(rep.claim_rows@[0], 1, 3, 1_350_000)
    &&& claim_row_is(rep.claim_rows@[1], 2, 2, 270_000)
    &&& rep.invoice_rows@.len() == 3
    &&& invoice_row_is(rep.invoice_rows@[0], 1, "buyer-aurelian-retail"@, InvoiceStatus::Paid, 7_200_000, 7_200_000, 0, 0, 0)
    &&& invoice_row_is(rep.invoice_rows@[1], 2, "buyer-bluegrain-logistics"@, InvoiceStatus::Paid, 5_400_000, 5_130_000, 270_000, 0, 270_000)
    &&& invoice_row_is(rep.invoice_rows@[2], 3, "buyer-cavern-supply"@, InvoiceStatus::PartiallyCollected, 2_150_000, 800_000, 0, 1_350_000, 1_350_000)
    &&& count_table(rep.invoices.statuses@) == seq![("Paid"@, 2nat), ("PartiallyCollected"@, 1nat)]
    &&& rep.settlement.claims == 2
    &&& rep.settlement.posted_claims == 2
    &&& rep.settlement.obligations == 2
    &&& single_event(rep, "prepared "@ + decimal(2) + " settlement claims"@)
    &&& rep.invoices.count == 3
    &&& rep.invoices.accounting_open@ == 1_350_000
    &&& rep.invoices.presentation_open@ == 1_620_000
    &&& rep.invoices.collected@ == 13_130_000
    &&& rep.invoices.memos@ == 270_000
}

/// Three invoices, one paid, one short-paid with two memos, one partly paid; the due
/// obligations are claimed and posted, and the period is prepared for close.
#[verifier::spinoff_prover]
#[verifier::rlimit(60)]
fn final_reconciliation() -> (r: SableResult<ScenarioReport>)
    ensures
        r is Ok,
        r matches Ok(rep) ==> rep.scenario@ == "final"@ && rep.day == 40 && report_sealed(rep)
            && january_close(rep, CloseStatus::Prepared) && exists|n: nat|
            single_event(rep, "prepared "@ + decimal(n) + " settlement claims"@)
            && final_figures(rep),
{
    let mut state = seeded_state()?;
    proof {
        lemma_seeded_ready(state);
        lemma_three_keys();
    }
    let alpha = state.parties.buyer_alpha.duplicate();
    let beta = state.parties.buyer_beta.duplicate();
    let gamma = state.parties.buyer_gamma.duplicate();
    let invoice_a = issue(&mut state, alpha, "AR-2026-0300", 1, Money::dollars(72_000), Ghost(0int))?;
    let invoice_b = issue(&mut state, beta, "AR-2026-0301", 2, Money::dollars(54_000), Ghost(7_200_000int))?;
    let invoice_c = issue(&mut state, gamma, "AR-2026-0302", 6, Money::dollars(21_500), Ghost(12_600_000int))?;
    receive(&mut state, &invoice_a, 9, Money::dollars(72_000), PaymentChannel::Wire, "WIRE-3090", Ghost(14_750_000int))?;
    receive(&mut state, &invoice_b, 16, Money::dollars(51_300), PaymentChannel::Ach, "ACH-5451", Ghost(21_950_000int))?;
    proof {
        let inv = state.invoices.find_spec(invoice_b@)->Some_0;
        lemma_limit(state, inv, 135_000);
        lemma_period_limit(state, inv, 270_000);
        lemma_nothing_filed(state.adjustments.all(), invoice_b@);
        lemma_processor_not_treasury(state.parties);
    }
    credit(&mut state, &invoice_b, 18, Money::dollars(1_350), AdjustmentReason::ServiceCredit, Ghost(27_080_000int))?;
    proof {
        let inv = state.invoices.find_spec(invoice_b@)->Some_0;
        lemma_limit(state, inv, 135_000);
        lemma_period_limit(state, inv, 270_000);
    }
    credit(&mut state, &invoice_b, 19, Money::dollars(1_350), AdjustmentReason::ProcessorFeeTrueUp, Ghost(27_215_000int))?;
    receive(&mut state, &invoice_c, 20, Money::dollars(8_000), PaymentChannel::StablecoinRail, "STBL-8801", Ghost(27_350_000int))?;
    let ghost s5 = state;
    proof {
        lemma_final_picks(state, invoice_a@, invoice_b@, invoice_c@);
    }
    let claims = settle_due_claims(&mut state, 40, Ghost(28_150_000int))?;
    let close = prepare_close_checked(&mut state, Period::new(2026, 1, 1, 31), 40, Ghost(591_150_000int))?;
    proof {
        lemma_report_ok(state, 591_150_000);
        assert(state.ledger.slots().len() == 6) by {
            reveal(desk_ready);
        }
        let fa = state.invoices.find_spec(invoice_a@)->Some_0;
        let fb = state.invoices.find_spec(invoice_b@)->Some_0;
        let fc = state.invoices.find_spec(invoice_c@)->Some_0;
        assert(fa.total@ == 7_200_000 && fa.debit_memos_applied@ == 0);
        assert(fa.receipts_applied@ == 7_200_000 && fa.credit_memos_applied@ == 0);
        assert(fb.total@ == 5_400_000 && fb.debit_memos_applied@ == 0);
        assert(fb.receipts_applied@ == 5_130_000 && fb.credit_memos_applied@ == 270_000);
        assert(fc.total@ == 2_150_000 && fc.debit_memos_applied@ == 0);
        assert(fc.receipts_applied@ == 800_000 && fc.credit_memos_applied@ == 0);
        lemma_book_sums(state.invoices, seq![invoice_a@, invoice_b@, invoice_c@], seq![fa, fb, fc]);
        lemma_sum_small(accounting_opens(seq![fa, fb, fc]));
        lemma_sum_small(presentation_opens(seq![fa, fb, fc]));
        lemma_sum_small(receipt_amounts(seq![fa, fb, fc]));
        lemma_sum_small(net_memos(seq![fa, fb, fc]));
        assert(invoice_sums(state.invoices.all(), 1_350_000, 1_620_000, 13_130_000, 270_000));
        assert(fa.status == InvoiceStatus::Paid);
        assert(fb.status == InvoiceStatus::Paid);
        assert(fc.status == InvoiceStatus::PartiallyCollected);
        lemma_book_statuses(state.invoices, seq![invoice_a@, invoice_b@, invoice_c@], seq![fa, fb, fc]);
        lemma_status_table(seq![fa, fb, fc]);
        lemma_small_status_counts(seq![fa, fb, fc]);
        assert(status_table(seq![fa, fb, fc]) =~= seq![("Paid"@, 2nat), ("PartiallyCollected"@, 1nat)]);
        assert(fa.buyer@ == "buyer-aurelian-retail"@);
        assert(fb.buyer@ == "buyer-bluegrain-logistics"@);
        assert(fc.buyer@ == "buyer-cavern-supply"@);
        assert(fa.id@ == generated_text(InvoiceId::prefix(), 1));
        assert(fb.id@ == generated_text(InvoiceId::prefix(), 2));
        assert(fc.id@ == generated_text(InvoiceId::prefix(), 3));
        lemma_book_in_order(state.invoices, seq![fa, fb, fc]);
        lemma_obligation_total(seq![fa, fb, fc]);
        lemma_book_count(
            state.invoices,
            seq![invoice_a@, invoice_b@, invoice_c@],
            seq![fa, fb, fc],
            |inv: Invoice| has_obligation(inv),
        );
        let claims_now = state.settlement.all_claims();
        if claims_now.len() == 2 {
            lemma_filter_two_pass(claims_now, |c: SettlementClaim| c.status == ClaimStatus::Posted);
            let k1 = generated_text(SettlementId::prefix(), 1);
            let k2 = generated_text(SettlementId::prefix(), 2);
            assert(s5.settlement.next_claim_spec() == 1);
            assert(k1 == generated_text(SettlementId::prefix(), (s5.settlement.next_claim_spec() + 0) as u64));
            assert(k2 == generated_text(SettlementId::prefix(), (s5.settlement.next_claim_spec() + 1) as u64));
            let c1 = crate::keyed::lookup(state.settlement.claim_entries(), k1)->Some_0;
            let c2 = crate::keyed::lookup(state.settlement.claim_entries(), k2)->Some_0;
            crate::ids::lemma_generated_order(SettlementId::prefix(), 1, 2);
            crate::keyed::lemma_entries_in_order(state.settlement.claim_entries(), seq![k1, k2], seq![c1, c2]);
            assert(c1.invoice_id == fc.id && c1.amount@ == 1_350_000);
            assert(c2.invoice_id == fb.id && c2.amount@ == 270_000);
            assert(claims_now =~= seq![c1, c2]);
            lemma_two_posted_totals(claims_now);
        }
        lemma_desk_totals(state, 591_150_000);
        lemma_standard_ids_distinct(state.accounts);
        let sl = state.ledger.slots();
        let ac = state.accounts;
        let s5l = s5.ledger.slots();
        assert(ac == s5.accounts);
        assert(balance_of(s5l, ac.cash@) == 13_130_000);
        assert(balance_of(s5l, ac.receivable@) == 1_350_000);
        assert(balance_of(s5l, ac.revenue@) == -14_750_000);
        assert(balance_of(s5l, ac.allowance@) == 270_000);
        assert(balance_of(s5l, ac.clearing@) == 0);
        assert(balance_of(s5l, ac.suspense@) == 0);
        assert(forall|k: Seq<char>| standard_key(ac, k) ==> #[trigger] has_key(entry_keys(s5l), k)) by {
            reveal(desk_ready);
        }
        let picks = settlement_picks(s5.invoices.all(), s5.settlement.all_claims(), 40);
        let oc = obligation_of(fc);
        let ob = obligation_of(fb);
        assert(picks == seq![oc, ob]);
        let effs = crate::fixtures::state::pick_effects(picks, ac.receivable, ac.clearing);
        reveal_with_fuel(crate::fixtures::state::pick_effects, 3);
        assert(picks.drop_last() =~= seq![oc]);
        assert(picks.drop_last().drop_last() =~= Seq::<SettlementObligation>::empty());
        assert(effs =~= seq![
            (ac.clearing@, 1_350_000int),
            (ac.receivable@, -1_350_000int),
            (ac.clearing@, 270_000int),
            (ac.receivable@, -270_000int),
        ]);
        reveal_with_fuel(crate::ledger::state::effect_total, 5);
        assert(crate::ledger::state::effect_total(effs, ac.clearing@) == 1_620_000);
        assert(crate::ledger::state::effect_total(effs, ac.receivable@) == -1_620_000);
        assert(crate::ledger::state::effect_total(effs, ac.cash@) == 0);
        assert(crate::ledger::state::effect_total(effs, ac.revenue@) == 0);
        assert(crate::ledger::state::effect_total(effs, ac.allowance@) == 0);
        assert(crate::ledger::state::effect_total(effs, ac.suspense@) == 0);
        assert(balance_of(sl, ac.cash@) == 13_130_000);
        assert(balance_of(sl, ac.receivable@) == -270_000);
        assert(balance_of(sl, ac.revenue@) == -14_750_000);
        assert(balance_of(sl, ac.allowance@) == 270_000);
        assert(balance_of(sl, ac.clearing@) == 1_620_000);
        assert(balance_of(sl, ac.suspense@) == 0);

    }
    let r = build_report(
        state,
        "final",
        40,
        Some(close),
        vec![counted_event("prepared ", claims.len(), " settlement claims")],
    );
    assert(r matches Ok(rep) ==> single_event(
        rep,
        "prepared "@ + decimal(claims.len() as nat) + " settlement claims"@,
    ));
    r
}

/// The figures of the receipts scenario: two invoices, the first collected in full and
/// the second half, so half of the second is open.
pub open spec fn receipts_figures(rep: ScenarioReport) -> bool {
    &&& rep.ledger.total_debits@ == 2_550_000
    &&& rep.ledger.total_credits@ == 2_550_000
    &&& rep.ledger.accounts == 6
    &&& rep.settlement.claims == 0
    &&& rep.settlement.posted_claims == 0
    &&& rep.settlement.active_claim_total@ == 0
    &&& rep.settlement.frozen_claim_total@ == 0
    &&& rep.settlement.obligation_total@ == 475_000
    &&& rep.ledger.entries == 4
    &&& rep.claim_rows@.len() == 0
    &&& rep.invoice_rows@.len() == 2
    &&& invoice_row_is(rep.invoice_rows@[0], 1, "buyer-aurelian-retail"@, InvoiceStatus::Paid, 1_600_000, 1_600_000, 0, 0, 0)
    &&& invoice_row_is(rep.invoice_rows@[1], 2, "buyer-aurelian-retail"@, InvoiceStatus::PartiallyCollected, 950_000, 475_000, 0, 475_000, 475_000)
    &&& count_table(rep.invoices.statuses@) == seq![("Paid"@, 1nat), ("PartiallyCollected"@, 1nat)]
    &&& rep.settlement.obligations == 1
    &&& rep.settlement.claims == 0
    &&& rep.invoices.count == 2
    &&& rep.invoices.accounting_open@ == 475_000
    &&& rep.invoices.presentation_open@ == 475_000
    &&& rep.invoices.collected@ == 2_075_000
    &&& rep.invoices.memos@ == 0
}

/// A same-day processor file: one invoice paid in full, another half paid.
#[verifier::spinoff_prover]
#[verifier::rlimit(60)]
fn receipt_imports() -> (r: SableResult<ScenarioReport>)
    ensures
        r is Ok,
        r matches Ok(rep) ==> rep.scenario@ == "receipts"@ && rep.day == 5 && report_sealed(rep)
            && rep.close is None && single_event(rep, "imported same-day processor file"@)
            && receipts_figures(rep),
{
    let mut state = seeded_state()?;
    proof {
        lemma_seeded_ready(state);
        if generated_text(InvoiceId::prefix(), 1) == generated_text(InvoiceId::prefix(), 2) {
            lemma_generated_injective(InvoiceId::prefix(), 1, 2);
        }
    }
    let alpha = state.parties.buyer_alpha.duplicate();
    let alpha2 = state.parties.buyer_alpha.duplicate();
    let invoice_a = issue(&mut state, alpha, "AR-2026-0400", 3, Money::dollars(16_000), Ghost(0int))?;
    let invoice_b = issue(&mut state, alpha2, "AR-2026-0401", 3, Money::dollars(9_500), Ghost(1_600_000int))?;
    receive(&mut state, &invoice_a, 5, Money::dollars(16_000), PaymentChannel::Ach, "ACH-2201", Ghost(2_550_000int))?;
    receive(&mut state, &invoice_b, 5, Money::dollars(4_750), PaymentChannel::Ach, "ACH-2202", Ghost(4_150_000int))?;
    refresh_checked(&mut state, Ghost(4_625_000int))?;
    proof {
        lemma_report_ok(state, 4_625_000);
        assert(state.ledger.slots().len() == 6) by {
            reveal(desk_ready);
        }
        let fa = state.invoices.find_spec(invoice_a@)->Some_0;
        let fb = state.invoices.find_spec(invoice_b@)->Some_0;
        assert(fa.total@ == 1_600_000 && fa.debit_memos_applied@ == 0);
        assert(fa.receipts_applied@ == 1_600_000 && fa.credit_memos_applied@ == 0);
        assert(fb.total@ == 950_000 && fb.debit_memos_applied@ == 0);
        assert(fb.receipts_applied@ == 475_000 && fb.credit_memos_applied@ == 0);
        lemma_book_sums(state.invoices, seq![invoice_a@, invoice_b@], seq![fa, fb]);
        lemma_sum_small(accounting_opens(seq![fa, fb]));
        lemma_sum_small(presentation_opens(seq![fa, fb]));
        lemma_sum_small(receipt_amounts(seq![fa, fb]));
        lemma_sum_small(net_memos(seq![fa, fb]));
        assert(invoice_sums(state.invoices.all(), 475_000, 475_000, 2_075_000, 0));
        lemma_book_count(
            state.invoices,
            seq![invoice_a@, invoice_b@],
            seq![fa, fb],
            |inv: Invoice| has_obligation(inv),
        );
        assert(fa.status == InvoiceStatus::Paid);
        assert(fb.status == InvoiceStatus::PartiallyCollected);
        lemma_book_statuses(state.invoices, seq![invoice_a@, invoice_b@], seq![fa, fb]);
        lemma_status_table(seq![fa, fb]);
        lemma_small_status_counts(seq![fa, fb]);
        assert(status_table(seq![fa, fb]) =~= seq![("Paid"@, 1nat), ("PartiallyCollected"@, 1nat)]);
        assert(fa.buyer@ == "buyer-aurelian-retail"@ && fb.buyer@ == "buyer-aurelian-retail"@);
        assert(fa.id@ == generated_text(InvoiceId::prefix(), 1));
        assert(fb.id@ == generated_text(InvoiceId::prefix(), 2));
        lemma_book_in_order(state.invoices, seq![fa, fb]);
        lemma_no_claim_totals(state.settlement.all_claims());
        lemma_obligation_total(seq![fa, fb]);
        lemma_desk_totals(state, 4_625_000);
        lemma_standard_ids_distinct(state.accounts);
        let sl = state.ledger.slots();
        let ac = state.accounts;
        assert(balance_of(sl, ac.cash@) == 2_075_000);
        assert(balance_of(sl, ac.receivable@) == 475_000);
        assert(balance_of(sl, ac.revenue@) == -2_550_000);
        assert(balance_of(sl, ac.allowance@) == 0);
        assert(balance_of(sl, ac.clearing@) == 0);
        assert(balance_of(sl, ac.suspense@) == 0);
    }
    build_report(
        state,
        "receipts",
        5,
        None,
        vec![String::from_str("imported same-day processor file")],
    )
}

/// Whether `name` names one of the scenarios.
pub open spec fn known_scenario(name: Seq<char>) -> bool {
    name == "valid"@ || name == "adjustments"@ || name == "monthly-close"@ || name == "final"@
        || name == "receipts"@
}

/// The day, close figures and events line of the report of the scenario called `name`,
/// and for `valid` its invoice totals.
pub open spec fn scenario_shape(name: Seq<char>, rep: ScenarioReport) -> bool {
    if name == "valid"@ {
        &&& rep.day == 10
        &&& rep.close is None
        &&& single_event(rep, "posted two receipts"@)
        &&& rep.invoices.count == 2
        &&& rep.invoices.accounting_open@ == 0
        &&& rep.settlement.obligations == 0
        &&& valid_figures(rep)
    } else if name == "adjustments"@ {
        rep.day == 13 && rep.close is None && single_event(
            rep,
            "posted receipt and two approved memos"@,
        ) && adjustments_figures(rep)
    } else if name == "monthly-close"@ {
        rep.day == 31 && january_close(rep, CloseStatus::Closed) && (exists|n: nat|
            single_event(rep, "closed "@ + decimal(n) + " eligible invoices"@)) && monthly_figures(rep)
    } else if name == "final"@ {
        rep.day == 40 && january_close(rep, CloseStatus::Prepared) && (exists|n: nat|
            single_event(rep, "prepared "@ + decimal(n) + " settlement claims"@)) && final_figures(rep)
    } else {
        rep.day == 5 && rep.close is None && single_event(rep, "imported same-day processor file"@)
            && receipts_figures(rep)
    }
}

/// Two status tables that read the same are written the same.
proof fn lemma_count_table_json(ta: Seq<(String, usize)>, tb: Seq<(String, usize)>)
    requires
        count_table(ta) == count_table(tb),
    ensures
        count_table_json(ta) == count_table_json(tb),
{
    let f = |e: (String, usize)| json_string(e.0@) + ":"@ + decimal(e.1 as nat);
    assert(count_table(ta).len() == ta.len());
    assert(count_table(tb).len() == tb.len());
    assert(ta.len() == tb.len());
    assert forall|i: int| 0 <= i < ta.len() implies #[trigger] ta.map_values(f)[i] == tb.map_values(f)[i] by {
        assert(count_table(ta)[i] == count_table(tb)[i]);
        assert(ta[i].0@ == tb[i].0@);
        assert(ta[i].1 as nat == tb[i].1 as nat);
    }
    assert(ta.map_values(f) =~= tb.map_values(f));
}

/// Whether two reports read the same in every field their digests cover.
pub open spec fn reports_read_alike(a: ScenarioReport, b: ScenarioReport) -> bool {
    &&& a.scenario@ == b.scenario@
    &&& a.day == b.day
    &&& a.invoices.count == b.invoices.count
    &&& a.invoices.accounting_open@ == b.invoices.accounting_open@
    &&& a.invoices.presentation_open@ == b.invoices.presentation_open@
    &&& a.invoices.collected@ == b.invoices.collected@
    &&& a.invoices.memos@ == b.invoices.memos@
    &&& count_table(a.invoices.statuses@) == count_table(b.invoices.statuses@)
    &&& a.ledger == b.ledger
    &&& a.settlement == b.settlement
    &&& match (a.close, b.close) {
        (None, None) => true,
        (Some(x), Some(y)) => x.id@ == y.id@ && x.period@ == y.period@ && x.status@ == y.status@
            && x.accounting_open == y.accounting_open && x.presentation_open == y.presentation_open
            && x.settlement_obligations == y.settlement_obligations && x.digest@ == y.digest@,
        _ => false,
    }
    &&& a.invoice_rows@.len() == b.invoice_rows@.len()
    &&& forall|i: int|
        0 <= i < a.invoice_rows@.len() ==> invoice_row_json(#[trigger] a.invoice_rows@[i])
            == invoice_row_json(b.invoice_rows@[i])
    &&& a.claim_rows@.len() == b.claim_rows@.len()
    &&& forall|i: int|
        0 <= i < a.claim_rows@.len() ==> claim_row_json(#[trigger] a.claim_rows@[i]) == claim_row_json(
            b.claim_rows@[i],
        )
    &&& a.events@.len() == b.events@.len()
    &&& forall|i: int| 0 <= i < a.events@.len() ==> (#[trigger] a.events@[i])@ == b.events@[i]@
    &&& a.conservation_ok == b.conservation_ok
}

/// Reports that read alike have the same fingerprint text.
proof fn lemma_alike_fingerprints(a: ScenarioReport, b: ScenarioReport)
    requires
        reports_read_alike(a, b),
    ensures
        fingerprint_json(a) == fingerprint_json(b),
{
    reveal(fingerprint_json);
    lemma_count_table_json(a.invoices.statuses@, b.invoices.statuses@);
    let fi = |x: InvoiceRow| invoice_row_json(x);
    let fc = |x: ClaimRow| claim_row_json(x);
    let fe = |e: String| json_string(e@);
    assert(a.invoice_rows@.map_values(fi) =~= b.invoice_rows@.map_values(fi));
    assert(a.claim_rows@.map_values(fc) =~= b.claim_rows@.map_values(fc));
    assert(a.events@.map_values(fe) =~= b.events@.map_values(fe));
    assert(invoice_metrics_json(a.invoices) == invoice_metrics_json(b.invoices));
    assert(opt_close_metrics_json(a.close) == opt_close_metrics_json(b.close));
}

/// Whether the close batches of two reports, where both have one, carry the same digest.
pub open spec fn close_digests_agree(a: ScenarioReport, b: ScenarioReport) -> bool {
    match (a.close, b.close) {
        (Some(x), Some(y)) => x.digest@ == y.digest@,
        _ => true,
    }
}

/// Two reports that agree on the figures of one scenario read alike.
proof fn lemma_shapes_read_alike(name: Seq<char>, a: ScenarioReport, b: ScenarioReport)
    requires
        known_scenario(name),
        a.scenario@ == name,
        b.scenario@ == name,
        report_sealed(a),
        report_sealed(b),
        scenario_shape(name, a),
        scenario_shape(name, b),
        close_digests_agree(a, b),
    ensures
        reports_read_alike(a, b),
{
    let ra = a.invoice_rows@;
    let rb = b.invoice_rows@;
    let ca = a.claim_rows@;
    let cb = b.claim_rows@;
    assert forall|i: int| 0 <= i < ra.len() implies invoice_row_json(#[trigger] ra[i])
        == invoice_row_json(rb[i]) by {
        if i == 0 {
        } else if i == 1 {
        } else {
        }
    }
    assert forall|i: int| 0 <= i < ca.len() implies claim_row_json(#[trigger] ca[i]) == claim_row_json(
        cb[i],
    ) by {
        if i == 0 {
        } else {
        }
    }
    assert forall|i: int| 0 <= i < a.events@.len() implies (#[trigger] a.events@[i])@
        == b.events@[i]@ by {}
}

/// Running a named scenario twice gives the same report: the two reports read alike
/// and carry the same digest, provided their close batches, where the scenario closes a
/// period, carry the same digest.
pub proof fn lemma_scenario_runs_agree(name: Seq<char>, a: ScenarioReport, b: ScenarioReport)
    requires
        known_scenario(name),
        a.scenario@ == name,
        b.scenario@ == name,
        report_sealed(a),
        report_sealed(b),
        scenario_shape(name, a),
        scenario_shape(name, b),
        close_digests_agree(a, b),
    ensures
        reports_read_alike(a, b),
        fingerprint_json(a) == fingerprint_json(b),
        a.digest@ == b.digest@,
{
    lemma_shapes_read_alike(name, a, b);
    lemma_alike_fingerprints(a, b);
}

/// Runs the scenario called `name`: `valid`, `adjustments`, `monthly-close`, `final` or
/// `receipts`; any other name is refused.
pub fn run_named(name: &str) -> (r: SableResult<ScenarioReport>)
    ensures
        known_scenario(name@) ==> r is Ok,
        !known_scenario(name@) ==> (r matches Err(SableError::UnknownScenario(s)) && s@ == name@),
        r matches Ok(rep) ==> known_scenario(name@) && rep.scenario@ == name@ && report_sealed(rep)
            && scenario_shape(name@, rep),
{
    proof {
        reveal_strlit("valid");
        reveal_strlit("adjustments");
        reveal_strlit("monthly-close");
        reveal_strlit("final");
        reveal_strlit("receipts");
        assert("valid"@.len() == 5);
        assert("final"@.len() == 5);
        assert("adjustments"@.len() == 11);
        assert("monthly-close"@.len() == 13);
        assert("receipts"@.len() == 8);
        assert("valid"@[0] != "final"@[0]);
    }
    if same_text(name, "valid") {
        valid_payments()
    } else if same_text(name, "adjustments") {
        small_adjustments()
    } else if same_text(name, "monthly-close") {
        monthly_close()
    } else if same_text(name, "final") {
        final_reconciliation()
    } else if same_text(name, "receipts") {
        receipt_imports()
    } else {
        Err(SableError::UnknownScenario(String::from_str(name)))
    }
}

} // verus!
