use sable_dtl::amount::{Bps, Money};
use sable_dtl::analytics::{AgingReport, CounterpartyStatement, ExposureReport};
use sable_dtl::close::{CloseBatch, CloseStatus, Period, ReconciliationReport};
use sable_dtl::codec::{push_json_string, text_digest, Digest};
use sable_dtl::error::SableError;
use sable_dtl::fixtures::reference::{merchant_skus, processor_rules, treasury_controls};
use sable_dtl::fixtures::state::seeded_state;
use sable_dtl::ids::{BatchId, InvoiceId, PartyId};
use sable_dtl::invoice::book::InvoiceBook;
use sable_dtl::invoice::model::{Invoice, LineItem, PaymentTerms};
use sable_dtl::policy::ClosePolicy;
use sable_dtl::receipts::model::PaymentChannel;

fn issued(id: &str, buyer: &str, issue_day: u32, amount: i64) -> Invoice {
    let line = LineItem::new("SKU".to_string(), "service".to_string(), 1, Money::from_cents(amount), Bps::zero());
    let mut inv = Invoice::new(
        InvoiceId::new(id),
        PartyId::new("merchant"),
        PartyId::new(buyer),
        "REF".to_string(),
        issue_day,
        PaymentTerms::net_30(),
        vec![line],
    )
    .unwrap();
    inv.issue().unwrap();
    inv
}

#[test]
fn aging_bands_partition_the_issued_invoices() {
    let mut book = InvoiceBook::new();
    book.insert(issued("inv-1", "b1", 1, 1_000)).unwrap();
    book.insert(issued("inv-2", "b1", 1, 2_000)).unwrap();
    book.insert(issued("inv-3", "b2", 50, 4_000)).unwrap();
    let mut draft = issued("inv-4", "b2", 1, 8_000);
    draft.status = sable_dtl::invoice::model::InvoiceStatus::Draft;
    book.insert(draft).unwrap();
    let report = AgingReport::build(&book, 100);
    let labels: Vec<&str> = report.bands.iter().map(|b| b.label.as_str()).collect();
    assert_eq!(labels, vec!["current", "1-30", "31-60", "61-90", "90+"]);
    let counts: Vec<usize> = report.bands.iter().map(|b| b.invoice_count).collect();
    assert_eq!(counts, vec![0, 1, 0, 2, 0]);
    assert_eq!(report.bands[3].accounting_total.cents(), 3_000);
    assert_eq!(report.bands[1].accounting_total.cents(), 4_000);
    assert_eq!(report.total_accounting.cents(), 7_000);
    assert_eq!(report.total_presentation.cents(), 7_000);
    let current = AgingReport::build(&book, 10);
    assert_eq!(current.bands[0].invoice_count, 3);
    assert!(current.bands[0].accepts(0) && !current.bands[0].accepts(1));
    assert!(current.bands[4].accepts(4_000_000));
}

#[test]
fn buyer_statement_totals_only_that_buyer() {
    let mut book = InvoiceBook::new();
    book.insert(issued("inv-1", "b1", 1, 1_000)).unwrap();
    book.insert(issued("inv-2", "b2", 1, 2_000)).unwrap();
    book.insert(issued("inv-3", "b1", 1, 4_000)).unwrap();
    book.apply_receipt(&InvoiceId::new("inv-3"), Money::from_cents(1_500)).unwrap();
    book.apply_debit_memo(&InvoiceId::new("inv-1"), Money::from_cents(100)).unwrap();
    let st = CounterpartyStatement::for_buyer(PartyId::new("b1"), &book);
    assert_eq!(st.invoice_count, 2);
    assert_eq!(st.gross_total.cents(), 5_100);
    assert_eq!(st.receipt_total.cents(), 1_500);
    assert_eq!(st.memo_total.cents(), -100);
    assert_eq!(st.accounting_open.cents(), 3_600);
    let ids: Vec<&str> = st.invoices.iter().map(|i| i.as_str()).collect();
    assert_eq!(ids, vec!["inv-1", "inv-3"]);
}

#[test]
fn exposure_counts_statuses_and_sums_balances() {
    let mut state = seeded_state().unwrap();
    let b = state.parties.buyer_beta.clone();
    let id = state.issue_standard_invoice(b, "R".to_string(), 1, Money::dollars(10), Bps::zero()).unwrap();
    state.record_receipt(&id, 2, Money::dollars(4), PaymentChannel::Ach, "A".to_string()).unwrap();
    let e = ExposureReport::build(&state.invoices, &state.receipts, &state.settlement);
    assert_eq!(e.accounting_open.cents(), 600);
    assert_eq!(e.receipts_posted.cents(), 400);
    assert_eq!(e.invoice_status_counts, vec![("PartiallyCollected".to_string(), 1)]);
}

#[test]
fn close_batch_seals_the_report_and_closes_when_balanced() {
    let mut state = seeded_state().unwrap();
    let a = state.parties.buyer_alpha.clone();
    state.issue_standard_invoice(a, "R".to_string(), 1, Money::dollars(100), Bps::zero()).unwrap();
    let mut batch = state.prepare_close(Period::new(2026, 2, 1, 28), 28).unwrap();
    assert_eq!(batch.status, CloseStatus::Prepared);
    assert_eq!(batch.id.as_str(), "batch-00000001");
    let text = batch.report.canonical_json();
    assert!(text.starts_with("{\"period\":{\"year\":2026,\"month\":2,\"start_day\":1,\"end_day\":28},\"invoice_count\":1,"));
    assert_eq!(batch.digest.as_str(), blake3::hash(text.as_bytes()).to_hex().to_string());
    assert_eq!(batch.period.label(), "2026-02");
    assert!(batch.period.contains(28) && !batch.period.contains(29));
    batch.close(&ClosePolicy::standard(), 30).unwrap();
    assert_eq!(batch.status, CloseStatus::Closed);
    assert_eq!(batch.closed_day, Some(30));
}

#[test]
fn close_is_refused_for_an_unbalanced_trial() {
    let state = seeded_state().unwrap();
    let report = ReconciliationReport::build(
        Period::new(2026, 3, 1, 31),
        &state.invoices,
        &state.receipts,
        &state.settlement,
        &state.ledger,
    );
    let mut batch = CloseBatch {
        id: BatchId::new("batch-x"),
        period: Period::new(2026, 3, 1, 31),
        status: CloseStatus::Prepared,
        prepared_day: 31,
        closed_day: None,
        report,
        digest: Digest::new(String::new()),
    };
    batch.report.trial_balance.balanced = false;
    match batch.close(&ClosePolicy::standard(), 31) {
        Err(SableError::PolicyRejected(m)) => assert_eq!(m, "trial balance must be balanced"),
        _ => panic!("unbalanced close accepted"),
    }
    assert_eq!(batch.status, CloseStatus::Prepared);
}

#[test]
fn json_strings_are_escaped_like_serde_json() {
    for s in ["plain", "quote \" and \\ slash", "tab\tnew\nline\rcr", "\u{8}\u{c}\u{1}\u{1f}", "é ü ☃", ""] {
        let mut out = String::new();
        push_json_string(&mut out, s);
        assert_eq!(out, serde_json::to_string(&serde_json::Value::String(s.to_string())).unwrap());
    }
}

#[test]
fn text_digest_is_blake3_hex() {
    let d = text_digest("abc");
    assert_eq!(d.as_str(), "6437b3ac38465133ffb63b75273a8db548c558465d79db03fd359c6cd5bd9d85");
    assert_eq!(Digest::new("x".to_string()).as_str(), "x");
}

#[test]
fn reference_tables_have_their_records() {
    let rules = processor_rules();
    assert_eq!(rules.len(), 6);
    assert_eq!(rules[0].code, "ACH-SAME-DAY");
    assert_eq!(treasury_controls()[3].evidence, "close batch digest and approval");
    let skus = merchant_skus();
    assert_eq!(skus.len(), 8);
    assert_eq!(skus[7].sku, "SBL-DISPUTE-BATCH");
}

#[test]
fn unbalanced_batches_are_never_closed() {
    let state = seeded_state().unwrap();
    let report = ReconciliationReport::build(
        Period::new(2026, 3, 1, 31),
        &state.invoices,
        &state.receipts,
        &state.settlement,
        &state.ledger,
    );
    let mut batch = CloseBatch {
        id: BatchId::new("batch-y"),
        period: Period::new(2026, 3, 1, 31),
        status: CloseStatus::Prepared,
        prepared_day: 31,
        closed_day: None,
        report,
        digest: Digest::new(String::new()),
    };
    batch.report.trial_balance.balanced = false;
    let lenient = ClosePolicy { require_balanced_trial: false, ..ClosePolicy::standard() };
    match batch.close(&lenient, 31) {
        Err(SableError::PolicyRejected(m)) => assert_eq!(m, "trial balance must be balanced"),
        _ => panic!("unbalanced close accepted"),
    }
    assert_eq!(batch.status, CloseStatus::Prepared);
    assert_eq!(batch.closed_day, None);
}
