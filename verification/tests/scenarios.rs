use sable_dtl::error::SableError;
use sable_dtl::scenarios::{run_named, ScenarioReport};

fn run_scenario(name: &str) -> ScenarioReport {
    match run_named(name) {
        Ok(report) => report,
        Err(error) => panic!("scenario failed: {:?}", error),
    }
}

#[test]
fn valid_scenario_is_balanced() {
    let report = run_scenario("valid");
    assert_eq!(report.conservation_ok, true);
    assert_eq!(report.invoices.accounting_open.cents(), 0);
    assert_eq!(report.settlement.obligations, 0);
}

#[test]
fn final_scenario_posts_expected_claim_count() {
    let report = run_scenario("final");
    assert_eq!(report.conservation_ok, true);
    assert_eq!(report.settlement.claims, 2);
    assert_eq!(report.settlement.posted_claims, 2);
}

#[test]
fn unknown_scenario_is_refused() {
    match run_named("weekly") {
        Err(SableError::UnknownScenario(name)) => assert_eq!(name, "weekly"),
        other => panic!("unexpected result: {:?}", other.map(|r| r.scenario)),
    }
}

#[test]
fn every_scenario_balances_and_names_itself() {
    for (name, day) in [("valid", 10), ("adjustments", 13), ("monthly-close", 31), ("final", 40), ("receipts", 5)] {
        let report = run_scenario(name);
        assert_eq!(report.scenario, name);
        assert_eq!(report.day, day);
        assert!(report.conservation_ok);
        assert!(report.ledger.balanced);
        assert_eq!(report.ledger.total_debits, report.ledger.total_credits);
        assert_eq!(report.digest.len(), 64);
        assert!(report.digest.chars().all(|c| c.is_ascii_hexdigit() && !c.is_ascii_uppercase()));
    }
}

#[test]
fn scenario_digest_is_the_hash_of_its_fingerprint() {
    let report = run_scenario("monthly-close");
    let text = report.fingerprint_json();
    assert_eq!(report.digest, blake3::hash(text.as_bytes()).to_hex().to_string());
    assert!(text.starts_with("{\"scenario\":\"monthly-close\",\"day\":31,"));
    assert!(text.ends_with(",\"conservation_ok\":true}"));
}

#[test]
fn scenario_digests_are_reproducible() {
    let a = run_scenario("final");
    let b = run_scenario("final");
    assert_eq!(a.digest, b.digest);
    assert_ne!(a.digest, run_scenario("valid").digest);
}

#[test]
fn adjustments_scenario_relieves_the_invoice_with_two_memos() {
    let report = run_scenario("adjustments");
    assert_eq!(report.invoices.count, 1);
    assert_eq!(report.invoices.collected.cents(), 9_750_000);
    assert_eq!(report.invoices.memos.cents(), 250_000);
    assert_eq!(report.invoices.accounting_open.cents(), 0);
    assert_eq!(report.invoices.presentation_open.cents(), 250_000);
    assert_eq!(report.invoice_rows[0].status.name(), "Paid");
    assert_eq!(report.ledger.entries, 4);
}

#[test]
fn monthly_close_closes_the_paid_invoices() {
    let report = run_scenario("monthly-close");
    assert_eq!(report.events, vec!["closed 2 eligible invoices".to_string()]);
    let close = report.close.expect("close figures");
    assert_eq!(close.period, "2026-01");
    assert_eq!(close.status, "Closed");
    assert_eq!(close.id, "batch-00000001");
    assert_eq!(close.digest.len(), 64);
    assert_eq!(close.accounting_open.cents(), 560_000);
    let statuses: Vec<(String, usize)> = report.invoices.statuses.clone();
    assert_eq!(statuses, vec![("Closed".to_string(), 2), ("PartiallyCollected".to_string(), 1)]);
}

#[test]
fn receipts_scenario_counts_statuses_by_name() {
    let report = run_scenario("receipts");
    assert_eq!(
        report.invoices.statuses,
        vec![("Paid".to_string(), 1), ("PartiallyCollected".to_string(), 1)]
    );
    assert_eq!(report.invoice_rows.len(), 2);
    assert_eq!(report.invoice_rows[1].accounting_open.cents(), 475_000);
    assert_eq!(report.ledger.accounts, 6);
}

#[test]
fn final_scenario_prepares_claims_for_open_invoices() {
    let report = run_scenario("final");
    assert_eq!(report.events, vec!["prepared 2 settlement claims".to_string()]);
    assert_eq!(report.claim_rows.len(), 2);
    assert!(report.claim_rows.iter().all(|c| c.status.name() == "Posted"));
    let claimed: i64 = report.claim_rows.iter().map(|c| c.amount.cents()).sum();
    assert_eq!(claimed, report.settlement.active_claim_total.cents());
    assert!(report.close.is_some());
}

#[test]
fn fingerprint_parts_are_written_as_serde_json_writes_them() {
    let report = run_scenario("monthly-close");
    let text = report.fingerprint_json();
    let mut statuses = serde_json::Map::new();
    for (name, count) in &report.invoices.statuses {
        statuses.insert(name.clone(), serde_json::Value::from(*count));
    }
    let statuses_text = serde_json::to_string(&serde_json::Value::Object(statuses)).unwrap();
    assert_eq!(statuses_text, "{\"Closed\":2,\"PartiallyCollected\":1}");
    assert!(text.contains(&format!("\"statuses\":{}", statuses_text)));
    let mut money = serde_json::Map::new();
    money.insert("cents".to_string(), serde_json::Value::from(report.invoices.accounting_open.cents()));
    let money_text = serde_json::to_string(&serde_json::Value::Object(money)).unwrap();
    assert_eq!(money_text, "{\"cents\":560000}");
    assert!(text.contains(&format!("\"accounting_open\":{}", money_text)));
    assert_eq!(report.events, vec!["closed 2 eligible invoices".to_string()]);
    assert_eq!(report.settlement.obligations, 2);
}

#[test]
fn scenario_figures_follow_the_desk() {
    let receipts = run_scenario("receipts");
    assert_eq!(receipts.invoices.count, 2);
    assert_eq!(receipts.invoices.accounting_open.cents(), 475_000);
    assert_eq!(receipts.invoices.collected.cents(), 2_075_000);
    assert_eq!(receipts.settlement.obligations, 1);
    assert_eq!(receipts.settlement.claims, 0);
    let adjustments = run_scenario("adjustments");
    assert_eq!(adjustments.invoices.accounting_open.cents(), 0);
    assert_eq!(adjustments.invoices.presentation_open.cents(), 250_000);
    assert_eq!(adjustments.invoices.memos.cents(), 250_000);
    assert_eq!(adjustments.ledger.entries, 4);
    let last = run_scenario("final");
    assert_eq!(last.events, vec!["prepared 2 settlement claims".to_string()]);
    assert_eq!(last.invoices.accounting_open.cents(), 1_350_000);
    let valid = run_scenario("valid");
    assert_eq!(valid.invoices.collected.cents(), 3_750_000);
    assert_eq!(valid.ledger.entries, 4);
}

#[test]
fn valid_rows_name_both_buyers_and_amounts() {
    let report = run_scenario("valid");
    assert_eq!(report.invoice_rows.len(), 2);
    let mut rows: Vec<(String, i64)> = report
        .invoice_rows
        .iter()
        .map(|r| (r.buyer.as_str().to_string(), r.total.cents()))
        .collect();
    rows.sort();
    assert_eq!(
        rows,
        vec![
            ("buyer-aurelian-retail".to_string(), 2_400_000),
            ("buyer-bluegrain-logistics".to_string(), 1_350_000),
        ]
    );
    let statuses: Vec<(String, usize)> = report.invoices.statuses.clone();
    assert_eq!(statuses, vec![("Paid".to_string(), 2)]);
}

fn row_summary(report: &ScenarioReport) -> Vec<(String, String, String, i64)> {
    report
        .invoice_rows
        .iter()
        .map(|r| (r.id.as_str().to_string(), r.buyer.as_str().to_string(), r.status.name().to_string(), r.total.cents()))
        .collect()
}

#[test]
fn monthly_rows_follow_the_book() {
    let report = run_scenario("monthly-close");
    assert_eq!(
        row_summary(&report),
        vec![
            ("inv-00000001".to_string(), "buyer-aurelian-retail".to_string(), "Closed".to_string(), 4_200_000),
            ("inv-00000002".to_string(), "buyer-bluegrain-logistics".to_string(), "Closed".to_string(), 1_800_000),
            ("inv-00000003".to_string(), "buyer-cavern-supply".to_string(), "PartiallyCollected".to_string(), 1_120_000),
        ]
    );
    assert_eq!(report.ledger.total_debits.cents(), 7_120_000);
    assert_eq!(report.ledger.entries, 7);
    let close = report.close.clone().unwrap();
    assert_eq!(close.id, "batch-00000001");
    assert_eq!(close.status, "Closed");
    assert_eq!(close.settlement_obligations.cents(), 605_000);
}

#[test]
fn final_rows_and_claims_follow_the_book() {
    let report = run_scenario("final");
    assert_eq!(
        row_summary(&report),
        vec![
            ("inv-00000001".to_string(), "buyer-aurelian-retail".to_string(), "Paid".to_string(), 7_200_000),
            ("inv-00000002".to_string(), "buyer-bluegrain-logistics".to_string(), "Paid".to_string(), 5_400_000),
            ("inv-00000003".to_string(), "buyer-cavern-supply".to_string(), "PartiallyCollected".to_string(), 2_150_000),
        ]
    );
    let claims: Vec<(String, String, i64)> = report
        .claim_rows
        .iter()
        .map(|c| (c.id.clone(), c.invoice_id.as_str().to_string(), c.amount.cents()))
        .collect();
    assert_eq!(
        claims,
        vec![
            ("set-00000001".to_string(), "inv-00000003".to_string(), 1_350_000),
            ("set-00000002".to_string(), "inv-00000002".to_string(), 270_000),
        ]
    );
    assert_eq!(report.ledger.total_debits.cents(), 15_020_000);
    assert_eq!(report.ledger.entries, 10);
    assert_eq!(report.close.clone().unwrap().id, "batch-00000002");
}

#[test]
fn adjustments_and_receipts_rows_follow_the_book() {
    let adjustments = run_scenario("adjustments");
    assert_eq!(
        row_summary(&adjustments),
        vec![("inv-00000001".to_string(), "buyer-aurelian-retail".to_string(), "Paid".to_string(), 10_000_000)]
    );
    let receipts = run_scenario("receipts");
    assert_eq!(
        row_summary(&receipts),
        vec![
            ("inv-00000001".to_string(), "buyer-aurelian-retail".to_string(), "Paid".to_string(), 1_600_000),
            ("inv-00000002".to_string(), "buyer-aurelian-retail".to_string(), "PartiallyCollected".to_string(), 950_000),
        ]
    );
}

#[test]
fn every_scenario_gives_the_same_report_twice() {
    for name in ["valid", "adjustments", "monthly-close", "final", "receipts"] {
        let a = run_scenario(name);
        let b = run_scenario(name);
        assert_eq!(a, b);
    }
}
