use sable_dtl::amount::{Bps, Money};
use sable_dtl::error::SableError;
use sable_dtl::fixtures::state::seeded_state;
use sable_dtl::ids::{BatchId, InvoiceId, PartyId, ReceiptId, SettlementId};
use sable_dtl::invoice::model::{Invoice, LineItem, PaymentTerms};
use sable_dtl::ledger::account::{AccountClass, ChartAccount};
use sable_dtl::ledger::state::Ledger;
use sable_dtl::receipts::book::ReceiptBook;
use sable_dtl::receipts::model::{PaymentChannel, ReceiptStatus, SettlementReceipt};
use sable_dtl::settlement::model::{ClaimStatus, SettlementObligation};

fn issued(id: &str, amount: i64) -> Invoice {
    let line = LineItem::new("SKU".to_string(), "service".to_string(), 1, Money::from_cents(amount), Bps::zero());
    let mut inv = Invoice::new(
        InvoiceId::new(id),
        PartyId::new("merchant"),
        PartyId::new("buyer"),
        "REF".to_string(),
        1,
        PaymentTerms::net_30(),
        vec![line],
    )
    .unwrap();
    inv.issue().unwrap();
    inv
}

#[test]
fn generated_ids_are_padded_and_distinct() {
    assert_eq!(InvoiceId::generated(1).as_str(), "inv-00000001");
    assert_eq!(SettlementId::generated(42).as_str(), "set-00000042");
    assert_eq!(BatchId::generated(123_456_789).as_str(), "batch-123456789");
    assert_ne!(ReceiptId::generated(10).as_str(), ReceiptId::generated(100).as_str());
}

#[test]
fn obligations_come_from_open_issued_invoices() {
    let inv = issued("inv-1", 10_000);
    let o = SettlementObligation::from_invoice(&inv).expect("obligation");
    assert_eq!(o.presentable_amount.cents(), 10_000);
    assert_eq!(o.due_day, 31);
    assert!(o.is_due(31) && !o.is_due(30));
    let mut draft = issued("inv-2", 10);
    draft.status = sable_dtl::invoice::model::InvoiceStatus::Draft;
    assert!(SettlementObligation::from_invoice(&draft).is_none());
}

#[test]
fn claims_are_prepared_once_and_posted() {
    let mut state = seeded_state().unwrap();
    let b = state.parties.buyer_alpha.clone();
    let id = state.issue_standard_invoice(b, "R".to_string(), 1, Money::dollars(500), Bps::zero()).unwrap();
    state.record_receipt(&id, 5, Money::dollars(200), PaymentChannel::Ach, "A".to_string()).unwrap();
    let posted = state.prepare_and_post_settlement(40).unwrap();
    assert_eq!(posted, vec!["set-00000001".to_string()]);
    let claim = state.settlement.get(&SettlementId::new("set-00000001")).unwrap();
    assert_eq!(claim.status, ClaimStatus::Posted);
    assert_eq!(claim.amount.cents(), 30_000);
    assert_eq!(state.settlement.active_claim_total().cents(), 30_000);
    assert!(state.settlement.has_active_claim_for(&id));
    let again = state.prepare_and_post_settlement(41).unwrap();
    assert!(again.is_empty());
    assert_eq!(state.ledger.balance(&state.accounts.clearing).unwrap().cents(), 30_000);
    assert!(state.ledger.trial_balance().balanced);
}

#[test]
fn claim_status_changes_and_missing_claims() {
    let mut state = seeded_state().unwrap();
    let b = state.parties.buyer_beta.clone();
    state.issue_standard_invoice(b, "R".to_string(), 1, Money::dollars(50), Bps::zero()).unwrap();
    state.prepare_and_post_settlement(40).unwrap();
    let sid = SettlementId::new("set-00000001");
    state.settlement.freeze_claim(&sid).unwrap();
    assert_eq!(state.settlement.frozen_total().cents(), 5_000);
    assert_eq!(state.settlement.active_claim_total().cents(), 0);
    state.settlement.settle_claim(&sid).unwrap();
    assert_eq!(state.settlement.get(&sid).unwrap().status, ClaimStatus::Settled);
    state.settlement.cancel_claim(&sid).unwrap();
    assert_eq!(state.settlement.get(&sid).unwrap().status, ClaimStatus::Cancelled);
    let missing = SettlementId::new("set-x");
    assert!(matches!(state.settlement.cancel_claim(&missing), Err(SableError::SettlementNotFound(_))));
}

#[test]
fn receipt_book_tracks_matching_and_posting() {
    let mut book = ReceiptBook::new();
    let r = SettlementReceipt::new(
        ReceiptId::new("rcpt-1"),
        InvoiceId::new("inv-1"),
        PartyId::new("buyer"),
        PartyId::new("merchant"),
        PaymentChannel::Wire,
        "W".to_string(),
        Money::from_cents(700),
        4,
    );
    book.insert(r).unwrap();
    book.mark_matched(&ReceiptId::new("rcpt-1")).unwrap();
    assert_eq!(book.get(&ReceiptId::new("rcpt-1")).unwrap().status, ReceiptStatus::Matched);
    assert_eq!(book.by_invoice(&InvoiceId::new("inv-1")).len(), 1);
    assert_eq!(book.posted_by_invoice(&InvoiceId::new("inv-1")).len(), 0);
    assert!(matches!(book.mark_matched(&ReceiptId::new("rcpt-2")), Err(SableError::ReceiptNotFound(_))));
    assert_eq!(book.len(), 1);
    assert!(!book.is_empty());
}

#[test]
fn closing_eligible_invoices_closes_only_settled_ones() {
    let mut state = seeded_state().unwrap();
    let a = state.parties.buyer_alpha.clone();
    let g = state.parties.buyer_gamma.clone();
    let paid = state.issue_standard_invoice(a, "P".to_string(), 1, Money::dollars(10), Bps::zero()).unwrap();
    let open = state.issue_standard_invoice(g, "O".to_string(), 1, Money::dollars(10), Bps::zero()).unwrap();
    state.record_receipt(&paid, 2, Money::dollars(10), PaymentChannel::Wire, "W".to_string()).unwrap();
    assert_eq!(state.close_eligible_invoices(3).unwrap(), 1);
    assert_eq!(state.invoices.get(&paid).unwrap().closed_day, Some(3));
    assert_eq!(state.invoices.get(&open).unwrap().closed_day, None);
}

#[test]
fn settlement_run_without_a_clearing_account_is_refused() {
    let mut state = seeded_state().unwrap();
    let b = state.parties.buyer_beta.clone();
    let id = state.issue_standard_invoice(b, "R".to_string(), 1, Money::dollars(800), Bps::zero()).unwrap();
    state.record_receipt(&id, 3, Money::dollars(300), PaymentChannel::Wire, "W".to_string()).unwrap();
    let mut ledger = Ledger::new();
    for (acct, code) in [(state.accounts.cash.clone(), "1000"), (state.accounts.receivable.clone(), "1200")] {
        ledger
            .add_account(ChartAccount::new(acct, code.to_string(), "x".to_string(), AccountClass::Asset))
            .unwrap();
    }
    state.ledger = ledger;
    match state.prepare_and_post_settlement(40) {
        Err(SableError::AccountNotFound(a)) => assert_eq!(a, state.accounts.clearing),
        other => panic!("unexpected result: {:?}", other),
    }
    assert_eq!(state.ledger.journal().len(), 0);
}

#[test]
fn settlement_run_with_nothing_due_posts_nothing() {
    let mut state = seeded_state().unwrap();
    let b = state.parties.buyer_gamma.clone();
    state.issue_standard_invoice(b, "R".to_string(), 10, Money::dollars(80), Bps::zero()).unwrap();
    let before = state.ledger.journal().len();
    let ids = state.prepare_and_post_settlement(11).unwrap();
    assert!(ids.is_empty());
    assert_eq!(state.ledger.journal().len(), before);
    assert_eq!(state.next_batch, 2);
}

#[test]
fn preparing_due_claims_twice_prepares_nothing_the_second_time() {
    let mut state = seeded_state().unwrap();
    let buyer = state.parties.buyer_alpha.clone();
    state.issue_standard_invoice(buyer, "R".to_string(), 1, Money::dollars(100), Bps::zero()).unwrap();
    state.refresh_settlement();
    let first = state.settlement.prepare_due_claims(40, BatchId::new("batch-1")).unwrap();
    assert_eq!(first.len(), 1);
    let second = state.settlement.prepare_due_claims(40, BatchId::new("batch-2")).unwrap();
    assert!(second.is_empty());
    assert_eq!(state.settlement.posted_count(), 0);
}
