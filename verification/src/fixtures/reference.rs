//! Reference data of the desk: processor rules, treasury controls, merchant SKUs.
use vstd::prelude::*;

verus! {

/// A receipt rule of the payment processor.
#[derive(Clone, Debug, PartialEq, Eq)]
pub struct ProcessorRule {
    pub code: &'static str,
    pub lane: &'static str,
    pub description: &'static str,
    pub active: bool,
}

/// The fields of a reference record as plain values.
pub open spec fn processor_rule_fields(x: ProcessorRule) -> (Seq<char>, Seq<char>, Seq<char>, bool) {
    (x.code@, x.lane@, x.description@, x.active)
}

/// The processor rules of the desk, in order.
pub open spec fn processor_rules_table() -> Seq<(Seq<char>, Seq<char>, Seq<char>, bool)> {
    seq![
        ("ACH-SAME-DAY"@, "bank"@, "Same-day ACH files received before processor cutoff"@, true),
        ("ACH-NEXT-DAY"@, "bank"@, "Next-day ACH files received after same-day cutoff"@, true),
        ("WIRE-US"@, "bank"@, "Domestic wire deposits matched by bank reference"@, true),
        ("CARD-BATCH"@, "network"@, "Card network batch receipts imported from processor file"@, true),
        ("INTERNAL-OFFSET"@, "internal"@, "Internal transfer between treasury and merchant clearing"@, true),
        ("STABLE-RAIL"@, "digital"@, "Stablecoin rail receipt after treasury confirmation"@, true),
    ]
}

pub fn processor_rules() -> (r: Vec<ProcessorRule>)
    ensures
        r@.map_values(|x: ProcessorRule| processor_rule_fields(x)) == processor_rules_table(),
{
    let mut r: Vec<ProcessorRule> = Vec::new();
    r.push(ProcessorRule { code: "ACH-SAME-DAY", lane: "bank", description: "Same-day ACH files received before processor cutoff", active: true });
    r.push(ProcessorRule { code: "ACH-NEXT-DAY", lane: "bank", description: "Next-day ACH files received after same-day cutoff", active: true });
    r.push(ProcessorRule { code: "WIRE-US", lane: "bank", description: "Domestic wire deposits matched by bank reference", active: true });
    r.push(ProcessorRule { code: "CARD-BATCH", lane: "network", description: "Card network batch receipts imported from processor file", active: true });
    r.push(ProcessorRule { code: "INTERNAL-OFFSET", lane: "internal", description: "Internal transfer between treasury and merchant clearing", active: true });
    r.push(ProcessorRule { code: "STABLE-RAIL", lane: "digital", description: "Stablecoin rail receipt after treasury confirmation", active: true });
    assert(r@.map_values(|x: ProcessorRule| processor_rule_fields(x)) =~= processor_rules_table());
    r
}

/// A control that treasury performs on a cadence.
#[derive(Clone, Debug, PartialEq, Eq)]
pub struct TreasuryControl {
    pub code: &'static str,
    pub owner: &'static str,
    pub cadence: &'static str,
    pub evidence: &'static str,
}

/// The fields of a reference record as plain values.
pub open spec fn treasury_control_fields(x: TreasuryControl) -> (Seq<char>, Seq<char>, Seq<char>, Seq<char>) {
    (x.code@, x.owner@, x.cadence@, x.evidence@)
}

/// The treasury controls of the desk, in order.
pub open spec fn treasury_controls_table() -> Seq<(Seq<char>, Seq<char>, Seq<char>, Seq<char>)> {
    seq![
        ("TB-001"@, "controller"@, "daily"@, "balanced trial balance export"@),
        ("TB-002"@, "settlement-ops"@, "daily"@, "processor receipt import checksum"@),
        ("TB-003"@, "treasury"@, "weekly"@, "bank account confirmation"@),
        ("TB-004"@, "controller"@, "monthly"@, "close batch digest and approval"@),
        ("TB-005"@, "risk"@, "monthly"@, "settlement exposure report"@),
        ("TB-006"@, "audit"@, "quarterly"@, "counterparty statement sampling"@),
    ]
}

pub fn treasury_controls() -> (r: Vec<TreasuryControl>)
    ensures
        r@.map_values(|x: TreasuryControl| treasury_control_fields(x)) == treasury_controls_table(),
{
    let mut r: Vec<TreasuryControl> = Vec::new();
    r.push(TreasuryControl { code: "TB-001", owner: "controller", cadence: "daily", evidence: "balanced trial balance export" });
    r.push(TreasuryControl { code: "TB-002", owner: "settlement-ops", cadence: "daily", evidence: "processor receipt import checksum" });
    r.push(TreasuryControl { code: "TB-003", owner: "treasury", cadence: "weekly", evidence: "bank account confirmation" });
    r.push(TreasuryControl { code: "TB-004", owner: "controller", cadence: "monthly", evidence: "close batch digest and approval" });
    r.push(TreasuryControl { code: "TB-005", owner: "risk", cadence: "monthly", evidence: "settlement exposure report" });
    r.push(TreasuryControl { code: "TB-006", owner: "audit", cadence: "quarterly", evidence: "counterparty statement sampling" });
    assert(r@.map_values(|x: TreasuryControl| treasury_control_fields(x)) =~= treasury_controls_table());
    r
}

/// A service the merchant sells.
#[derive(Clone, Debug, PartialEq, Eq)]
pub struct MerchantSku {
    pub sku: &'static str,
    pub family: &'static str,
    pub description: &'static str,
}

/// The fields of a reference record as plain values.
pub open spec fn merchant_sku_fields(x: MerchantSku) -> (Seq<char>, Seq<char>, Seq<char>) {
    (x.sku@, x.family@, x.description@)
}

/// The merchant skus of the desk, in order.
pub open spec fn merchant_skus_table() -> Seq<(Seq<char>, Seq<char>, Seq<char>)> {
    seq![
        ("SBL-CLEAR-BASE"@, "clearing"@, "Base DTL clearing service bundle"@),
        ("SBL-CLEAR-PLUS"@, "clearing"@, "Enhanced DTL clearing service bundle"@),
        ("SBL-RECON-DAY"@, "reconciliation"@, "Daily processor reconciliation service"@),
        ("SBL-RECON-MONTH"@, "reconciliation"@, "Monthly accounting close support"@),
        ("SBL-SETTLE-STD"@, "settlement"@, "Standard settlement presentation service"@),
        ("SBL-SETTLE-FAST"@, "settlement"@, "Expedited settlement presentation service"@),
        ("SBL-DISPUTE-CASE"@, "dispute"@, "Case-level dispute support service"@),
        ("SBL-DISPUTE-BATCH"@, "dispute"@, "Batch dispute support service"@),
    ]
}

pub fn merchant_skus() -> (r: Vec<MerchantSku>)
    ensures
        r@.map_values(|x: MerchantSku| merchant_sku_fields(x)) == merchant_skus_table(),
{
    let mut r: Vec<MerchantSku> = Vec::new();
    r.push(MerchantSku { sku: "SBL-CLEAR-BASE", family: "clearing", description: "Base DTL clearing service bundle" });
    r.push(MerchantSku { sku: "SBL-CLEAR-PLUS", family: "clearing", description: "Enhanced DTL clearing service bundle" });
    r.push(MerchantSku { sku: "SBL-RECON-DAY", family: "reconciliation", description: "Daily processor reconciliation service" });
    r.push(MerchantSku { sku: "SBL-RECON-MONTH", family: "reconciliation", description: "Monthly accounting close support" });
    r.push(MerchantSku { sku: "SBL-SETTLE-STD", family: "settlement", description: "Standard settlement presentation service" });
    r.push(MerchantSku { sku: "SBL-SETTLE-FAST", family: "settlement", description: "Expedited settlement presentation service" });
    r.push(MerchantSku { sku: "SBL-DISPUTE-CASE", family: "dispute", description: "Case-level dispute support service" });
    r.push(MerchantSku { sku: "SBL-DISPUTE-BATCH", family: "dispute", description: "Batch dispute support service" });
    assert(r@.map_values(|x: MerchantSku| merchant_sku_fields(x)) =~= merchant_skus_table());
    r
}

} // verus!
