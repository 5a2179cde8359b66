use sable_dtl::adjustments::book::AdjustmentBook;
use sable_dtl::adjustments::model::{AdjustmentPolicy, AdjustmentReason, ManualAdjustment};
use sable_dtl::amount::{Bps, Money};
use sable_dtl::error::SableError;
use sable_dtl::fixtures::state::seeded_state;
use sable_dtl::ids::{AccountId, AdjustmentId, InvoiceId, PartyId, TxId};
use sable_dtl::invoice::book::InvoiceBook;
use sable_dtl::invoice::model::{Invoice, InvoiceStatus, LineItem, PaymentTerms};
use sable_dtl::ledger::account::{AccountClass, ChartAccount};
use sable_dtl::ledger::journal::{JournalEntry, JournalLine};
use sable_dtl::ledger::state::Ledger;
use sable_dtl::party::{BankAccount, Counterparty, CounterpartyBook, CounterpartyRole};
use sable_dtl::policy::{BatchPolicy, ClosePolicy, PolicySet, RiskDecision};
use sable_dtl::receipts::model::PaymentChannel;
use sable_dtl::settlement::book::SettlementBook;

fn chart() -> Ledger {
    let mut ledger = Ledger::new();
    for (id, code, class) in [
        ("1000-cash", "1000", AccountClass::Asset),
        ("1200-accounts-receivable", "1200", AccountClass::Asset),
        ("4000-merchant-revenue", "4000", AccountClass::Revenue),
        ("4090-commercial-allowance", "4090", AccountClass::ContraRevenue),
    ] {
        ledger
            .add_account(ChartAccount::new(AccountId::new(id), code.to_string(), id.to_string(), class))
            .unwrap();
    }
    ledger
}

fn invoice(id: &str, amount: i64) -> Invoice {
    let line = LineItem::new("SKU".to_string(), "service".to_string(), 1, Money::from_cents(amount), Bps::zero());
    Invoice::new(
        InvoiceId::new(id),
        PartyId::new("merchant"),
        PartyId::new("buyer"),
        "REF".to_string(),
        1,
        PaymentTerms::net_30(),
        vec![line],
    )
    .unwrap()
}

#[test]
fn ledger_posts_balanced_pairs_and_refuses_unbalanced_entries() {
    let mut ledger = chart();
    let tx = ledger
        .post_invoice(
            1,
            InvoiceId::new("inv-1"),
            AccountId::new("1200-accounts-receivable"),
            AccountId::new("4000-merchant-revenue"),
            Money::from_cents(5_000),
            "memo".to_string(),
        )
        .unwrap();
    assert_eq!(tx.as_str(), "tx-00000001");
    assert_eq!(ledger.balance(&AccountId::new("1200-accounts-receivable")).unwrap().cents(), 5_000);
    assert_eq!(ledger.balance(&AccountId::new("4000-merchant-revenue")).unwrap().cents(), -5_000);
    let entry = JournalEntry::new(TxId::new("tx-x"), 2, "manual".to_string(), "bad".to_string())
        .with_line(JournalLine::debit(AccountId::new("1000-cash"), Money::from_cents(10), String::new()))
        .with_line(JournalLine::credit(AccountId::new("4000-merchant-revenue"), Money::from_cents(9), String::new()));
    match ledger.post(entry) {
        Err(SableError::UnbalancedJournal { debits, credits }) => {
            assert_eq!((debits, credits), (10, 9));
        }
        _ => panic!("unbalanced entry accepted"),
    }
    assert_eq!(ledger.journal().len(), 1);
    let tb = ledger.trial_balance();
    assert!(tb.balanced);
    assert_eq!(tb.total_debits.cents(), 5_000);
    assert_eq!(tb.total_credits.cents(), 5_000);
}

#[test]
fn ledger_balances_are_the_totals_of_posted_lines() {
    let mut ledger = chart();
    let receivable = AccountId::new("1200-accounts-receivable");
    let cash = AccountId::new("1000-cash");
    ledger
        .post_invoice(1, InvoiceId::new("inv-1"), receivable.clone(), AccountId::new("4000-merchant-revenue"), Money::from_cents(9_000), "i".to_string())
        .unwrap();
    ledger
        .post_receipt(4, InvoiceId::new("inv-1"), sable_dtl::ids::ReceiptId::new("rcpt-1"), cash.clone(), receivable.clone(), Money::from_cents(2_500))
        .unwrap();
    ledger
        .post_receipt(6, InvoiceId::new("inv-1"), sable_dtl::ids::ReceiptId::new("rcpt-2"), cash.clone(), receivable.clone(), Money::from_cents(1_000))
        .unwrap();
    let mut totals: Vec<(String, i64)> = Vec::new();
    for entry in ledger.journal() {
        for line in &entry.lines {
            let effect = line.debit.cents() - line.credit.cents();
            match totals.iter_mut().find(|(a, _)| a == line.account.as_str()) {
                Some(t) => t.1 += effect,
                None => totals.push((line.account.as_str().to_string(), effect)),
            }
        }
    }
    for (account, total) in totals {
        assert_eq!(ledger.balance(&AccountId::new(&account)).unwrap().cents(), total);
    }
    assert_eq!(ledger.balance(&receivable).unwrap().cents(), 5_500);
    assert_eq!(ledger.balance(&cash).unwrap().cents(), 3_500);
    assert_eq!(ledger.balance(&AccountId::new("4090-commercial-allowance")).unwrap().cents(), 0);
}

#[test]
fn ledger_refuses_unknown_accounts_and_duplicate_chart_ids() {
    let mut ledger = chart();
    let r = ledger.post_receipt(
        3,
        InvoiceId::new("inv-1"),
        sable_dtl::ids::ReceiptId::new("rcpt-1"),
        AccountId::new("9999-missing"),
        AccountId::new("1200-accounts-receivable"),
        Money::from_cents(100),
    );
    assert!(matches!(r, Err(SableError::AccountNotFound(ref a)) if a.as_str() == "9999-missing"));
    assert_eq!(ledger.journal().len(), 0);
    let dup = ledger.add_account(ChartAccount::new(
        AccountId::new("1000-cash"),
        "1000".to_string(),
        "again".to_string(),
        AccountClass::Asset,
    ));
    assert!(matches!(dup, Err(SableError::DuplicateId(ref s)) if s == "1000-cash"));
    assert_eq!(ledger.account_count(), 4);
}

#[test]
fn invoice_life_cycle_follows_receipts_and_memos() {
    let mut inv = invoice("inv-1", 10_000);
    assert_eq!(inv.status, InvoiceStatus::Draft);
    assert_eq!(inv.due_day, 31);
    assert!(matches!(inv.apply_receipt(Money::from_cents(100)), Ok(())));
    assert_eq!(inv.status, InvoiceStatus::Draft);
    inv.issue().unwrap();
    assert!(inv.issue().is_err());
    inv.apply_receipt(Money::from_cents(4_000)).unwrap();
    assert_eq!(inv.status, InvoiceStatus::PartiallyCollected);
    match inv.apply_receipt(Money::from_cents(0)) {
        Err(SableError::InvalidTransition(m)) => assert_eq!(m, "receipt amount must be positive"),
        _ => panic!("zero receipt accepted"),
    }
    inv.apply_credit_memo(Money::from_cents(5_900)).unwrap();
    assert_eq!(inv.accounting_outstanding().cents(), 0);
    assert_eq!(inv.presentation_outstanding().cents(), 5_900);
    assert_eq!(inv.status, InvoiceStatus::Paid);
    inv.close(40).unwrap();
    assert_eq!(inv.status, InvoiceStatus::Closed);
    assert!(inv.apply_debit_memo(Money::from_cents(1)).is_err());
}

#[test]
fn invoice_book_refuses_duplicates_and_totals_open_balances() {
    let mut book = InvoiceBook::new();
    book.insert(invoice("inv-2", 3_000)).unwrap();
    book.insert(invoice("inv-1", 2_000)).unwrap();
    assert!(matches!(book.insert(invoice("inv-1", 1)), Err(SableError::DuplicateId(ref s)) if s == "inv-1"));
    let ids: Vec<&str> = book.values().iter().map(|i| i.id.as_str()).collect();
    assert_eq!(ids, vec!["inv-1", "inv-2"]);
    book.issue(&InvoiceId::new("inv-1")).unwrap();
    book.apply_receipt(&InvoiceId::new("inv-1"), Money::from_cents(500)).unwrap();
    assert_eq!(book.open_accounting_total().cents(), 4_500);
    assert_eq!(book.collected_total().cents(), 500);
    assert!(matches!(book.get(&InvoiceId::new("inv-9")), Err(SableError::InvoiceNotFound(_))));
}

#[test]
fn adjustment_policy_checks_amount_limit_and_approval() {
    let policy = AdjustmentPolicy::conservative();
    let mut inv = invoice("inv-1", 100_000);
    inv.issue().unwrap();
    let small = ManualAdjustment::credit(
        AdjustmentId::new("adj-1"),
        InvoiceId::new("inv-1"),
        AdjustmentReason::ServiceCredit,
        Money::from_cents(2_500),
        PartyId::new("ops"),
        3,
    );
    match policy.validate(&inv, &small) {
        Err(SableError::PolicyRejected(m)) => assert_eq!(m, "adjustment adj-1 requires approval"),
        _ => panic!("unapproved adjustment accepted"),
    }
    let approved = small.clone().approve(PartyId::new("treasury"));
    assert!(policy.validate(&inv, &approved).is_ok());
    let big = ManualAdjustment::credit(
        AdjustmentId::new("adj-2"),
        InvoiceId::new("inv-1"),
        AdjustmentReason::ServiceCredit,
        Money::from_cents(2_501),
        PartyId::new("ops"),
        3,
    )
    .approve(PartyId::new("treasury"));
    match policy.validate(&inv, &big) {
        Err(SableError::PolicyRejected(m)) => assert_eq!(m, "adjustment adj-2 exceeds single-entry policy"),
        _ => panic!("oversized adjustment accepted"),
    }
}

#[test]
fn adjustment_book_posts_memo_and_files_it() {
    let mut ledger = chart();
    let mut invoices = InvoiceBook::new();
    let mut inv = invoice("inv-1", 100_000);
    inv.issue().unwrap();
    invoices.insert(inv).unwrap();
    let mut book = AdjustmentBook::new();
    let adj = ManualAdjustment::credit(
        AdjustmentId::new("adj-1"),
        InvoiceId::new("inv-1"),
        AdjustmentReason::ContractRebate,
        Money::from_cents(1_000),
        PartyId::new("ops"),
        5,
    )
    .approve(PartyId::new("treasury"));
    book.apply(
        adj,
        &AdjustmentPolicy::conservative(),
        &mut invoices,
        &mut ledger,
        AccountId::new("1200-accounts-receivable"),
        AccountId::new("4000-merchant-revenue"),
        AccountId::new("4090-commercial-allowance"),
    )
    .unwrap();
    assert_eq!(book.len(), 1);
    let filed = book.get(&AdjustmentId::new("adj-1")).unwrap();
    assert_eq!(filed.journal_tx.as_ref().map(|t| t.as_str()), Some("tx-00000001"));
    assert_eq!(ledger.balance(&AccountId::new("4090-commercial-allowance")).unwrap().cents(), 1_000);
    assert_eq!(invoices.get(&InvoiceId::new("inv-1")).unwrap().credit_memos_applied.cents(), 1_000);
    let missing = ManualAdjustment::credit(
        AdjustmentId::new("adj-2"),
        InvoiceId::new("inv-404"),
        AdjustmentReason::ContractRebate,
        Money::from_cents(1),
        PartyId::new("ops"),
        5,
    );
    let r = book.apply(
        missing,
        &AdjustmentPolicy::conservative(),
        &mut invoices,
        &mut ledger,
        AccountId::new("1200-accounts-receivable"),
        AccountId::new("4000-merchant-revenue"),
        AccountId::new("4090-commercial-allowance"),
    );
    assert!(matches!(r, Err(SableError::InvoiceNotFound(_))));
    assert!(book.get(&AdjustmentId::new("adj-2")).is_err());
}

#[test]
fn counterparties_are_found_by_role_and_bank() {
    let mut book = CounterpartyBook::new();
    let party = Counterparty::new(
        PartyId::new("buyer-a"),
        "Buyer A".to_string(),
        CounterpartyRole::Buyer,
        AccountId::new("1000-cash"),
        AccountId::new("1200-accounts-receivable"),
        AccountId::new("2000-payable"),
    )
    .with_bank_account(BankAccount::new("Old".to_string(), "R1".to_string(), "A1".to_string(), "USD".to_string()).disabled())
    .with_bank_account(BankAccount::new("New".to_string(), "R2".to_string(), "A2".to_string(), "USD".to_string()));
    assert_eq!(party.primary_bank_account().unwrap().institution, "New");
    book.insert(party).unwrap();
    assert!(matches!(
        book.insert(Counterparty::new(
            PartyId::new("buyer-a"),
            "Again".to_string(),
            CounterpartyRole::Buyer,
            AccountId::new("1000-cash"),
            AccountId::new("1000-cash"),
            AccountId::new("1000-cash"),
        )),
        Err(SableError::DuplicateId(_))
    ));
    assert_eq!(book.by_role(CounterpartyRole::Buyer).len(), 1);
    assert_eq!(book.by_role(CounterpartyRole::Auditor).len(), 0);
    book.get_mut(&PartyId::new("buyer-a")).unwrap().deactivate();
    assert_eq!(book.active_parties().len(), 0);
    assert!(matches!(book.get(&PartyId::new("x")), Err(SableError::CounterpartyNotFound(_))));
}

#[test]
fn batch_policy_decides_by_count_and_amount() {
    let policy = BatchPolicy::standard();
    let book = SettlementBook::new();
    assert!(policy.evaluate(&book).is_accepted());
    let tight = BatchPolicy {
        max_claims: 0,
        max_batch_amount: Money::from_cents(-1),
        review_threshold: Money::from_cents(-2),
    };
    match tight.evaluate(&book) {
        RiskDecision::Rejected(m) => assert_eq!(m, "claim amount 0.00 exceeds policy"),
        other => panic!("unexpected decision {:?}", other),
    }
    let review = BatchPolicy { max_claims: 10, max_batch_amount: Money::from_cents(5), review_threshold: Money::from_cents(-1) };
    assert!(matches!(review.evaluate(&book).into_result(), Err(SableError::PolicyRejected(ref m)) if m == "claim amount 0.00 requires review"));
    let set = PolicySet::standard();
    assert_eq!(set.close, ClosePolicy::standard());
    assert_eq!(set.close.allowed_receivable_drift_bps.value(), 10);
}

#[test]
fn seeded_desk_issues_and_collects() {
    let mut state = seeded_state().unwrap();
    let buyer = state.parties.buyer_alpha.clone();
    let id = state
        .issue_standard_invoice(buyer, "REF-1".to_string(), 2, Money::from_cents(10_000), Bps::new(100).unwrap())
        .unwrap();
    assert_eq!(id.as_str(), "inv-00000001");
    let inv = state.invoices.get(&id).unwrap();
    assert_eq!(inv.total.cents(), 10_100);
    assert_eq!(inv.due_day, 32);
    assert_eq!(inv.line_items[0].sku, "SBL-1002");
    let rid = state
        .record_receipt(&id, 5, Money::from_cents(10_100), PaymentChannel::Wire, "W-1".to_string())
        .unwrap();
    assert_eq!(rid.as_str(), "rcpt-00000001");
    assert_eq!(state.invoices.get(&id).unwrap().status, InvoiceStatus::Paid);
    assert!(state.ledger.trial_balance().balanced);
    assert!(matches!(
        state.record_receipt(&InvoiceId::new("inv-x"), 5, Money::from_cents(1), PaymentChannel::Ach, String::new()),
        Err(SableError::InvoiceNotFound(_))
    ));
}

#[test]
fn seeded_desk_holds_the_seven_seed_parties() {
    let state = seeded_state().unwrap();
    assert_eq!(state.counterparties.values().len(), 7);
    let merchant = state.counterparties.get(&PartyId::new("merchant-sable-market")).unwrap();
    assert_eq!(merchant.legal_name, "Sable Market Labs Ltd.");
    assert_eq!(merchant.role, CounterpartyRole::Merchant);
    assert_eq!(merchant.bank_accounts.len(), 1);
    assert_eq!(merchant.bank_accounts[0].routing_code, "NLINUS33");
    assert_eq!(merchant.bank_accounts[0].currency, "USD");
    assert_eq!(state.counterparties.by_role(CounterpartyRole::Buyer).len(), 3);
    let auditor = state.counterparties.get(&PartyId::new("auditor-northdesk")).unwrap();
    assert!(auditor.bank_accounts.is_empty());
    assert_eq!(auditor.settlement_account, AccountId::new("1990-reconciliation-suspense"));
}

#[test]
fn dual_approval_refuses_the_creator_as_approver() {
    let policy = AdjustmentPolicy::conservative();
    let mut inv = invoice("inv-1", 100_000);
    inv.issue().unwrap();
    let own = ManualAdjustment::credit(
        AdjustmentId::new("adj-1"),
        InvoiceId::new("inv-1"),
        AdjustmentReason::ServiceCredit,
        Money::from_cents(2_500),
        PartyId::new("ops"),
        3,
    )
    .approve(PartyId::new("ops"));
    match policy.validate(&inv, &own) {
        Err(SableError::PolicyRejected(m)) => assert_eq!(m, "adjustment adj-1 cannot be approved by its creator"),
        _ => panic!("self-approved adjustment accepted"),
    }
}

#[test]
fn adjustments_past_the_period_limit_are_refused_and_change_nothing() {
    let mut ledger = chart();
    let mut invoices = InvoiceBook::new();
    let mut inv = invoice("inv-1", 100_000);
    inv.issue().unwrap();
    invoices.insert(inv).unwrap();
    let mut book = AdjustmentBook::new();
    for (n, id) in ["adj-1", "adj-2", "adj-3"].iter().enumerate() {
        let adj = ManualAdjustment::credit(
            AdjustmentId::new(id),
            InvoiceId::new("inv-1"),
            AdjustmentReason::ContractRebate,
            Money::from_cents(2_500),
            PartyId::new("ops"),
            5,
        )
        .approve(PartyId::new("treasury"));
        let r = book.apply(
            adj,
            &AdjustmentPolicy::conservative(),
            &mut invoices,
            &mut ledger,
            AccountId::new("1200-accounts-receivable"),
            AccountId::new("4000-merchant-revenue"),
            AccountId::new("4090-commercial-allowance"),
        );
        if n < 2 {
            r.unwrap();
        } else {
            match r {
                Err(SableError::PolicyRejected(m)) => assert_eq!(m, "adjustment adj-3 exceeds period policy"),
                _ => panic!("adjustment past the period limit accepted"),
            }
        }
    }
    assert_eq!(book.len(), 2);
    assert_eq!(book.filed_against(&InvoiceId::new("inv-1")), 5_000);
    assert_eq!(invoices.get(&InvoiceId::new("inv-1")).unwrap().credit_memos_applied.cents(), 5_000);
    assert_eq!(ledger.journal().len(), 2);
    assert_eq!(ledger.balance(&AccountId::new("4090-commercial-allowance")).unwrap().cents(), 5_000);
}

#[test]
fn posting_to_a_disabled_account_is_refused() {
    let mut ledger = chart();
    ledger
        .add_account(
            ChartAccount::new(AccountId::new("9000-old"), "9000".to_string(), "old".to_string(), AccountClass::Asset)
                .disabled(),
        )
        .unwrap();
    let entry = JournalEntry::new(TxId::new("tx-x"), 2, "manual".to_string(), "old account".to_string())
        .with_line(JournalLine::debit(AccountId::new("9000-old"), Money::from_cents(10), String::new()))
        .with_line(JournalLine::credit(AccountId::new("1000-cash"), Money::from_cents(10), String::new()));
    match ledger.post(entry) {
        Err(SableError::AccountNotFound(a)) => assert_eq!(a.as_str(), "9000-old"),
        _ => panic!("posting to a disabled account accepted"),
    }
    assert_eq!(ledger.journal().len(), 0);
    assert_eq!(ledger.balance(&AccountId::new("1000-cash")).unwrap().cents(), 0);
}

#[test]
fn refused_receipts_leave_the_desk_as_it_was() {
    let mut state = seeded_state().unwrap();
    let buyer = state.parties.buyer_alpha.clone();
    let id = state.issue_standard_invoice(buyer, "R".to_string(), 1, Money::dollars(100), Bps::zero()).unwrap();
    let entries = state.ledger.journal().len();
    let cash = state.accounts.cash.clone();
    match state.record_receipt(&id, 2, Money::from_cents(0), PaymentChannel::Ach, "ACH-0".to_string()) {
        Err(SableError::InvalidTransition(m)) => assert_eq!(m, "receipt amount must be positive"),
        _ => panic!("zero receipt accepted"),
    }
    assert_eq!(state.ledger.journal().len(), entries);
    assert_eq!(state.ledger.balance(&cash).unwrap().cents(), 0);
    assert_eq!(state.receipts.len(), 0);
    assert_eq!(state.invoices.get(&id).unwrap().receipts_applied.cents(), 0);
    let rid = state.record_receipt(&id, 3, Money::dollars(40), PaymentChannel::Ach, "ACH-1".to_string()).unwrap();
    let receipt = state.receipts.get(&rid).unwrap();
    let tx = receipt.journal_tx.clone().unwrap();
    let last = state.ledger.journal().last().unwrap();
    assert_eq!(last.tx_id, tx);
    assert_eq!(last.receipt_id.as_ref(), Some(&rid));
}

#[test]
fn posted_claims_carry_the_transaction_of_their_entry() {
    let mut state = seeded_state().unwrap();
    let buyer = state.parties.buyer_alpha.clone();
    let id = state.issue_standard_invoice(buyer, "R".to_string(), 1, Money::dollars(100), Bps::zero()).unwrap();
    let claims = state.prepare_and_post_settlement(40).unwrap();
    assert_eq!(claims.len(), 1);
    let claim = state.settlement.get(&sable_dtl::ids::SettlementId::new(&claims[0])).unwrap();
    let tx = claim.journal_tx.clone().unwrap();
    let entry = state.ledger.journal().iter().find(|e| e.tx_id == tx).unwrap();
    assert_eq!(entry.invoice_id.as_ref(), Some(&id));
    assert_eq!(entry.batch_id.as_ref(), Some(&claim.batch_id));
    assert_eq!(entry.lines[0].account, state.accounts.clearing);
    assert_eq!(entry.lines[0].debit, Money::dollars(100));
    assert_eq!(entry.lines[1].account, state.accounts.receivable);
}

#[test]
fn seeded_chart_holds_the_standard_accounts() {
    let state = seeded_state().unwrap();
    let cash = state.ledger.account(&state.accounts.cash).unwrap();
    assert_eq!(cash.code, "1000");
    assert_eq!(cash.name, "Operating cash");
    assert_eq!(cash.class, AccountClass::Asset);
    assert!(cash.normal_debit && cash.enabled);
    let allowance = state.ledger.account(&state.accounts.allowance).unwrap();
    assert_eq!(allowance.class, AccountClass::ContraRevenue);
    assert!(allowance.normal_debit);
    let revenue = state.ledger.account(&state.accounts.revenue).unwrap();
    assert!(!revenue.normal_debit);
    assert_eq!(state.adjustment_policy.max_period_bps.value(), 500);
}

#[test]
fn invoice_book_changes_an_invoice_in_place() {
    let mut book = InvoiceBook::new();
    book.insert(invoice("inv-2", 3_000)).unwrap();
    book.insert(invoice("inv-1", 2_000)).unwrap();
    book.value_at_mut(1).issue().unwrap();
    assert_eq!(book.values()[1].status, InvoiceStatus::Issued);
    assert_eq!(book.values()[0].status, InvoiceStatus::Draft);
    assert_eq!(book.values()[1].id.as_str(), "inv-2");
}
