//! Invoices, their lines and payment terms, and the invoice life cycle.
use vstd::prelude::*;

use crate::amount::{fits_i64, running_sums_fit, scaled, seq_sum, sum_first, Bps, Money};
use crate::error::{SableError, SableResult};
use crate::ids::{InvoiceId, PartyId};
use crate::text::{join3, join4};

verus! {

/// When an invoice falls due, and its discount and late-fee rates.
#[derive(Clone, Copy, Debug, PartialEq, Eq, Structural)]
pub struct PaymentTerms {
    pub net_days: u32,
    pub early_discount_bps: Bps,
    pub late_fee_bps: Bps,
    pub grace_days: u32,
}

impl PaymentTerms {
    /// Due thirty days after issue, with three days of grace and no discount or fee.
    pub fn net_30() -> (r: PaymentTerms)
        ensures
            r.net_days == 30,
            r.early_discount_bps@ == 0,
            r.late_fee_bps@ == 0,
            r.grace_days == 3,
    {
        PaymentTerms {
            net_days: 30,
            early_discount_bps: Bps::zero(),
            late_fee_bps: Bps::zero(),
            grace_days: 3,
        }
    }

    pub fn with_discount(self, discount_bps: Bps) -> (r: PaymentTerms)
        ensures
            r == (PaymentTerms { early_discount_bps: discount_bps, ..self }),
    {
        PaymentTerms { early_discount_bps: discount_bps, ..self }
    }

    pub fn with_late_fee(self, late_fee_bps: Bps) -> (r: PaymentTerms)
        ensures
            r == (PaymentTerms { late_fee_bps, ..self }),
    {
        PaymentTerms { late_fee_bps, ..self }
    }
}

/// One billed line: a quantity of a priced item, taxed at a rate.
#[derive(Clone, Debug, PartialEq, Eq)]
pub struct LineItem {
    pub sku: String,
    pub description: String,
    pub quantity: i64,
    pub unit_price: Money,
    pub tax_bps: Bps,
}

impl LineItem {
    /// Net amount of the line: unit price times quantity.
    pub open spec fn net_spec(self) -> int {
        self.unit_price@ * self.quantity
    }

    /// Tax of the line: the net amount scaled by the tax rate, rounded to the cent.
    pub open spec fn tax_spec(self) -> int {
        scaled(self.net_spec(), self.tax_bps@ as int, 10000)
    }

    pub fn new(
        sku: String,
        description: String,
        quantity: i64,
        unit_price: Money,
        tax_bps: Bps,
    ) -> (r: LineItem)
        ensures
            r == (LineItem { sku, description, quantity, unit_price, tax_bps }),
    {
        LineItem { sku, description, quantity, unit_price, tax_bps }
    }

    pub fn net_amount(&self) -> (r: SableResult<Money>)
        ensures
            fits_i64(self.net_spec()) ==> (r matches Ok(m) && m@ == self.net_spec()),
            !fits_i64(self.net_spec()) ==> r == Err::<Money, SableError>(
                SableError::ArithmeticOverflow,
            ),
    {
        self.unit_price.checked_mul_i64(self.quantity)
    }

    pub fn tax_amount(&self) -> (r: SableResult<Money>)
        ensures
            fits_i64(self.net_spec()) && fits_i64(self.tax_spec()) ==> (r matches Ok(m) && m@
                == self.tax_spec()),
            !(fits_i64(self.net_spec()) && fits_i64(self.tax_spec())) ==> r == Err::<
                Money,
                SableError,
            >(SableError::ArithmeticOverflow),
    {
        let net = self.net_amount()?;
        net.apply_bps(self.tax_bps)
    }

    pub fn gross_amount(&self) -> (r: SableResult<Money>)
        ensures
            fits_i64(self.net_spec()) && fits_i64(self.tax_spec()) && fits_i64(
                self.net_spec() + self.tax_spec(),
            ) ==> (r matches Ok(m) && m@ == self.net_spec() + self.tax_spec()),
            !(fits_i64(self.net_spec()) && fits_i64(self.tax_spec()) && fits_i64(
                self.net_spec() + self.tax_spec(),
            )) ==> r == Err::<Money, SableError>(SableError::ArithmeticOverflow),
    {
        let net = self.net_amount()?;
        let tax = self.tax_amount()?;
        net.checked_add(tax)
    }
}

/// Where an invoice stands in its life cycle.
#[derive(Clone, Copy, Debug, PartialEq, Eq, Structural, Hash)]
pub enum InvoiceStatus {
    Draft,
    Issued,
    PartiallyCollected,
    Paid,
    Closed,
    Voided,
}

/// The name of a status, as its debug rendering prints it.
pub open spec fn invoice_status_name(s: InvoiceStatus) -> Seq<char> {
    match s {
        InvoiceStatus::Draft => "Draft"@,
        InvoiceStatus::Issued => "Issued"@,
        InvoiceStatus::PartiallyCollected => "PartiallyCollected"@,
        InvoiceStatus::Paid => "Paid"@,
        InvoiceStatus::Closed => "Closed"@,
        InvoiceStatus::Voided => "Voided"@,
    }
}

impl InvoiceStatus {
    /// The name of the status.
    pub fn name(self) -> (r: &'static str)
        ensures
            r@ == invoice_status_name(self),
    {
        match self {
            InvoiceStatus::Draft => "Draft",
            InvoiceStatus::Issued => "Issued",
            InvoiceStatus::PartiallyCollected => "PartiallyCollected",
            InvoiceStatus::Paid => "Paid",
            InvoiceStatus::Closed => "Closed",
            InvoiceStatus::Voided => "Voided",
        }
    }
}

/// `a - b` saturated to `i64` and raised to zero when negative.
pub open spec fn floor_sub(a: int, b: int) -> int {
    if a - b <= 0 {
        0
    } else if a - b > i64::MAX {
        i64::MAX as int
    } else {
        a - b
    }
}

/// The net amounts of a list of lines.
pub open spec fn line_nets(items: Seq<LineItem>) -> Seq<int> {
    items.map_values(|l: LineItem| l.net_spec())
}

/// The taxes of a list of lines.
pub open spec fn line_taxes(items: Seq<LineItem>) -> Seq<int> {
    items.map_values(|l: LineItem| l.tax_spec())
}

pub open spec fn all_fit(s: Seq<int>) -> bool {
    forall|i: int| 0 <= i < s.len() ==> fits_i64(#[trigger] s[i])
}

/// Whether the totals of an invoice with these lines can be computed.
pub open spec fn lines_price_ok(items: Seq<LineItem>) -> bool {
    &&& all_fit(line_nets(items))
    &&& all_fit(line_taxes(items))
    &&& fits_i64(seq_sum(line_nets(items)) + seq_sum(line_taxes(items)))
}

/// Whether computing the totals of these lines stays clear of an overflowing sum.
pub open spec fn lines_sum_safely(items: Seq<LineItem>) -> bool {
    &&& all_fit(line_nets(items)) ==> running_sums_fit(line_nets(items))
    &&& all_fit(line_nets(items)) && all_fit(line_taxes(items)) ==> running_sums_fit(
        line_taxes(items),
    )
}

/// A bill from a merchant to a buyer, with what has been collected and adjusted on it.
#[derive(Clone, Debug, PartialEq, Eq)]
pub struct Invoice {
    pub id: InvoiceId,
    pub merchant: PartyId,
    pub buyer: PartyId,
    pub external_ref: String,
    pub issue_day: u32,
    pub due_day: u32,
    pub terms: PaymentTerms,
    pub line_items: Vec<LineItem>,
    pub subtotal: Money,
    pub tax: Money,
    pub total: Money,
    pub receipts_applied: Money,
    pub credit_memos_applied: Money,
    pub debit_memos_applied: Money,
    pub status: InvoiceStatus,
    pub closed_day: Option<u32>,
    pub tags: Vec<String>,
}

/// What a refresh of the status makes of an invoice's status.
pub open spec fn refreshed_status(inv: Invoice) -> InvoiceStatus {
    match inv.status {
        InvoiceStatus::Draft | InvoiceStatus::Voided | InvoiceStatus::Closed => inv.status,
        _ => if inv.accounting_open() == 0 {
            InvoiceStatus::Paid
        } else if inv.receipts_applied@ > 0 || inv.credit_memos_applied@ > 0 {
            InvoiceStatus::PartiallyCollected
        } else {
            InvoiceStatus::Issued
        },
    }
}

/// Whether an invoice in this status takes receipts and memos.
pub open spec fn accepts_entries(s: InvoiceStatus) -> bool {
    !(s == InvoiceStatus::Voided || s == InvoiceStatus::Closed)
}

/// Whether a status refresh of this invoice computes its outstanding balance.
pub open spec fn refresh_computes(s: InvoiceStatus) -> bool {
    !(s == InvoiceStatus::Draft || s == InvoiceStatus::Voided || s == InvoiceStatus::Closed)
}

/// `receipts_applied` replaced, then the status refreshed.
pub open spec fn with_receipts(inv: Invoice, receipts: int) -> Invoice {
    let next = Invoice { receipts_applied: Money { cents: receipts as i64 }, ..inv };
    Invoice { status: refreshed_status(next), ..next }
}

pub open spec fn with_credits(inv: Invoice, credits: int) -> Invoice {
    let next = Invoice { credit_memos_applied: Money { cents: credits as i64 }, ..inv };
    Invoice { status: refreshed_status(next), ..next }
}

pub open spec fn with_debits(inv: Invoice, debits: int) -> Invoice {
    let next = Invoice { debit_memos_applied: Money { cents: debits as i64 }, ..inv };
    Invoice { status: refreshed_status(next), ..next }
}

/// Whether applying an entry of `amount` to an invoice in this state is accepted.
pub open spec fn entry_accepted(inv: Invoice, amount: Money) -> bool {
    amount@ > 0 && accepts_entries(inv.status)
}

/// Whether applying this receipt entry stays clear of an overflowing balance.
pub open spec fn receipt_entry_safe(inv: Invoice, amount: Money) -> bool {
    entry_accepted(inv, amount) && fits_i64(inv.receipts_applied@ + amount@) && refresh_computes(
        inv.status,
    ) ==> (Invoice { receipts_applied: Money { cents: (inv.receipts_applied@ + amount@) as i64 }, ..inv }).amounts_fit()
}

/// Whether applying this credit entry stays clear of an overflowing balance.
pub open spec fn credit_entry_safe(inv: Invoice, amount: Money) -> bool {
    entry_accepted(inv, amount) && fits_i64(inv.credit_memos_applied@ + amount@) && refresh_computes(
        inv.status,
    ) ==> (Invoice { credit_memos_applied: Money { cents: (inv.credit_memos_applied@ + amount@) as i64 }, ..inv }).amounts_fit()
}

/// Whether applying this debit entry stays clear of an overflowing balance.
pub open spec fn debit_entry_safe(inv: Invoice, amount: Money) -> bool {
    entry_accepted(inv, amount) && fits_i64(inv.debit_memos_applied@ + amount@) && refresh_computes(
        inv.status,
    ) ==> (Invoice { debit_memos_applied: Money { cents: (inv.debit_memos_applied@ + amount@) as i64 }, ..inv }).amounts_fit()
}

/// The invoice after an attempt to apply this receipt entry.
pub open spec fn receipt_applied(inv: Invoice, amount: Money) -> Invoice {
    if entry_accepted(inv, amount) && fits_i64(inv.receipts_applied@ + amount@) {
        with_receipts(inv, inv.receipts_applied@ + amount@)
    } else {
        inv
    }
}

/// What an attempt to apply this receipt entry returns.
pub open spec fn receipt_outcome(inv: Invoice, amount: Money, r: SableResult<()>) -> bool {
    &&& amount@ <= 0 ==> (r matches Err(SableError::InvalidTransition(msg)) && msg@
        == "receipt amount must be positive"@)
    &&& amount@ > 0 && !accepts_entries(inv.status) ==> (r matches Err(
        SableError::InvalidTransition(msg),
    ) && msg@ == "invoice "@ + inv.id@ + " does not accept receipts"@)
    &&& entry_accepted(inv, amount) && !fits_i64(inv.receipts_applied@ + amount@) ==> r == Err::<
        (),
        SableError,
    >(SableError::ArithmeticOverflow)
    &&& entry_accepted(inv, amount) && fits_i64(inv.receipts_applied@ + amount@) ==> r is Ok
}

/// The invoice after an attempt to apply this credit entry.
pub open spec fn credit_applied(inv: Invoice, amount: Money) -> Invoice {
    if entry_accepted(inv, amount) && fits_i64(inv.credit_memos_applied@ + amount@) {
        with_credits(inv, inv.credit_memos_applied@ + amount@)
    } else {
        inv
    }
}

/// A line nets its unit price times its quantity, and its tax is that net at the line's rate
/// in basis points, rounded to the nearest cent with halves away from zero.
pub proof fn lemma_line_amounts(l: LineItem)
    ensures
        l.net_spec() == l.unit_price@ * l.quantity,
        l.net_spec() * (l.tax_bps@ as int) >= 0 ==> 2 * (l.net_spec() * (l.tax_bps@ as int)) - 10000
            < 2 * (l.tax_spec() * 10000) <= 2 * (l.net_spec() * (l.tax_bps@ as int)) + 10000,
        l.net_spec() * (l.tax_bps@ as int) < 0 ==> 2 * (l.net_spec() * (l.tax_bps@ as int)) - 10000
            <= 2 * (l.tax_spec() * 10000) < 2 * (l.net_spec() * (l.tax_bps@ as int)) + 10000,
        l.tax_bps@ == 0 ==> l.tax_spec() == 0,
{
    crate::amount::lemma_scaled_nearest(l.net_spec(), l.tax_bps@ as int, 10000);
}

/// A status refresh leaves drafts, voided and closed invoices as they are. Any other invoice
/// becomes paid once nothing is open in the books; while something is, it is partly collected
/// exactly when a receipt or a credit memo has been applied to it, and issued when neither has.
pub proof fn lemma_refresh_marks_partial_collection(inv: Invoice)
    ensures
        inv.status is Draft || inv.status is Voided || inv.status is Closed ==> refreshed_status(inv)
            == inv.status,
        refresh_computes(inv.status) && inv.accounting_open() == 0 ==> refreshed_status(inv)
            == InvoiceStatus::Paid,
        refresh_computes(inv.status) && inv.accounting_open() != 0 && (inv.receipts_applied@ > 0
            || inv.credit_memos_applied@ > 0) ==> refreshed_status(inv)
            == InvoiceStatus::PartiallyCollected,
        refresh_computes(inv.status) && inv.accounting_open() != 0 && inv.receipts_applied@ <= 0
            && inv.credit_memos_applied@ <= 0 ==> refreshed_status(inv) == InvoiceStatus::Issued,
{
}

/// A credit memo accepted on a live invoice that still owes something afterwards leaves it
/// partly collected, receipts or none.
pub proof fn lemma_credit_memo_partly_collects(inv: Invoice, amount: Money)
    requires
        refresh_computes(inv.status),
        entry_accepted(inv, amount),
        inv.credit_memos_applied@ >= 0,
        fits_i64(inv.credit_memos_applied@ + amount@),
        credit_applied(inv, amount).accounting_open() != 0,
    ensures
        credit_applied(inv, amount).status == InvoiceStatus::PartiallyCollected,
        credit_applied(inv, amount).credit_memos_applied@ == inv.credit_memos_applied@ + amount@,
{
}

/// What an attempt to apply this credit entry returns.
pub open spec fn credit_outcome(inv: Invoice, amount: Money, r: SableResult<()>) -> bool {
    &&& amount@ <= 0 ==> (r matches Err(SableError::InvalidTransition(msg)) && msg@
        == "memo amount must be positive"@)
    &&& amount@ > 0 && !accepts_entries(inv.status) ==> (r matches Err(
        SableError::InvalidTransition(msg),
    ) && msg@ == "invoice "@ + inv.id@ + " does not accept memo entries"@)
    &&& entry_accepted(inv, amount) && !fits_i64(inv.credit_memos_applied@ + amount@) ==> r == Err::<
        (),
        SableError,
    >(SableError::ArithmeticOverflow)
    &&& entry_accepted(inv, amount) && fits_i64(inv.credit_memos_applied@ + amount@) ==> r is Ok
}

/// The invoice after an attempt to apply this debit entry.
pub open spec fn debit_applied(inv: Invoice, amount: Money) -> Invoice {
    if entry_accepted(inv, amount) && fits_i64(inv.debit_memos_applied@ + amount@) {
        with_debits(inv, inv.debit_memos_applied@ + amount@)
    } else {
        inv
    }
}

/// What an attempt to apply this debit entry returns.
pub open spec fn debit_outcome(inv: Invoice, amount: Money, r: SableResult<()>) -> bool {
    &&& amount@ <= 0 ==> (r matches Err(SableError::InvalidTransition(msg)) && msg@
        == "memo amount must be positive"@)
    &&& amount@ > 0 && !accepts_entries(inv.status) ==> (r matches Err(
        SableError::InvalidTransition(msg),
    ) && msg@ == "invoice "@ + inv.id@ + " does not accept memo entries"@)
    &&& entry_accepted(inv, amount) && !fits_i64(inv.debit_memos_applied@ + amount@) ==> r == Err::<
        (),
        SableError,
    >(SableError::ArithmeticOverflow)
    &&& entry_accepted(inv, amount) && fits_i64(inv.debit_memos_applied@ + amount@) ==> r is Ok
}

/// The invoice after an attempt to issue it.
pub open spec fn issued(inv: Invoice) -> Invoice {
    if inv.status == InvoiceStatus::Draft {
        Invoice { status: InvoiceStatus::Issued, ..inv }
    } else {
        inv
    }
}

/// What an attempt to issue the invoice returns.
pub open spec fn issue_outcome(inv: Invoice, r: SableResult<()>) -> bool {
    &&& inv.status == InvoiceStatus::Draft ==> r is Ok
    &&& inv.status != InvoiceStatus::Draft ==> (r matches Err(SableError::InvalidTransition(msg))
        && msg@ == "invoice "@ + inv.id@ + " cannot be issued from "@ + invoice_status_name(
        inv.status,
    ))
}

/// The invoice after an attempt to close it on `day`.
pub open spec fn closed_on(inv: Invoice, day: u32) -> Invoice {
    if inv.accounting_open() > 0 {
        inv
    } else {
        Invoice { status: InvoiceStatus::Closed, closed_day: Some(day), ..inv }
    }
}

/// What an attempt to close the invoice returns.
pub open spec fn close_outcome(inv: Invoice, r: SableResult<()>) -> bool {
    &&& inv.accounting_open() > 0 ==> (r matches Err(SableError::InvalidTransition(msg)) && msg@
        == "invoice "@ + inv.id@ + " has an open accounting balance"@)
    &&& inv.accounting_open() <= 0 ==> r is Ok
}

impl Invoice {
    /// What the buyer owes before receipts and credits: total plus debit memos.
    pub open spec fn gross(self) -> int {
        self.total@ + self.debit_memos_applied@
    }

    /// What is still open in the books: receipts and credit memos taken off the gross.
    pub open spec fn accounting_open(self) -> int {
        floor_sub(self.gross(), self.receipts_applied@ + self.credit_memos_applied@)
    }

    /// What may still be presented for settlement: only receipts taken off the gross.
    pub open spec fn presentation_open(self) -> int {
        floor_sub(self.gross(), self.receipts_applied@)
    }

    /// Whether the gross and the balances of the invoice can be computed.
    pub open spec fn amounts_fit(self) -> bool {
        &&& fits_i64(self.gross())
        &&& fits_i64(self.receipts_applied@ + self.credit_memos_applied@)
    }

    /// Builds a draft invoice and totals its lines.
    pub fn new(
        id: InvoiceId,
        merchant: PartyId,
        buyer: PartyId,
        external_ref: String,
        issue_day: u32,
        terms: PaymentTerms,
        line_items: Vec<LineItem>,
    ) -> (r: SableResult<Invoice>)
        requires
            lines_sum_safely(line_items@),
            lines_price_ok(line_items@) ==> issue_day + terms.net_days <= u32::MAX,
        ensures
            !lines_price_ok(line_items@) ==> r == Err::<Invoice, SableError>(
                SableError::ArithmeticOverflow,
            ),
            lines_price_ok(line_items@) ==> (r matches Ok(inv) && inv == (Invoice {
                id,
                merchant,
                buyer,
                external_ref,
                issue_day,
                due_day: (issue_day + terms.net_days) as u32,
                terms,
                line_items,
                subtotal: Money { cents: seq_sum(line_nets(line_items@)) as i64 },
                tax: Money { cents: seq_sum(line_taxes(line_items@)) as i64 },
                total: Money {
                    cents: (seq_sum(line_nets(line_items@)) + seq_sum(
                        line_taxes(line_items@),
                    )) as i64,
                },
                receipts_applied: Money { cents: 0 },
                credit_memos_applied: Money { cents: 0 },
                debit_memos_applied: Money { cents: 0 },
                status: InvoiceStatus::Draft,
                closed_day: None,
                tags: inv.tags,
            }) && inv.tags@.len() == 0),
    {
        let ghost nets = line_nets(line_items@);
        let ghost taxes = line_taxes(line_items@);
        let n = line_items.len();
        // every net amount first, then their sum
        let mut i: usize = 0;
        while i < n
            invariant
                n == line_items@.len(),
                nets == line_nets(line_items@),
                i <= n,
                forall|j: int| 0 <= j < i ==> fits_i64(#[trigger] nets[j]),
            decreases n - i,
        {
            match line_items[i].net_amount() {
                Ok(_) => {},
                Err(e) => {
                    assert(!fits_i64(nets[i as int]));
                    return Err(e);
                },
            }
            i += 1;
        }
        let mut subtotal = Money::zero();
        let mut i: usize = 0;
        while i < n
            invariant
                n == line_items@.len(),
                nets == line_nets(line_items@),
                i <= n,
                all_fit(nets),
                running_sums_fit(nets),
                subtotal@ == sum_first(nets, i as nat),
            decreases n - i,
        {
            assert(fits_i64(nets[i as int]));
            let net = match line_items[i].net_amount() {
                Ok(m) => m,
                Err(e) => {
                    assert(false);
                    return Err(e);
                },
            };
            assert(fits_i64(sum_first(nets, (i + 1) as nat)));
            subtotal = Money { cents: subtotal.cents + net.cents };
            i += 1;
        }
        let mut i: usize = 0;
        while i < n
            invariant
                n == line_items@.len(),
                nets == line_nets(line_items@),
                taxes == line_taxes(line_items@),
                all_fit(nets),
                i <= n,
                forall|j: int| 0 <= j < i ==> fits_i64(#[trigger] taxes[j]),
            decreases n - i,
        {
            match line_items[i].tax_amount() {
                Ok(_) => {},
                Err(e) => {
                    assert(fits_i64(nets[i as int]));
                    assert(!fits_i64(taxes[i as int]));
                    return Err(e);
                },
            }
            i += 1;
        }
        let mut tax = Money::zero();
        let mut i: usize = 0;
        while i < n
            invariant
                n == line_items@.len(),
                nets == line_nets(line_items@),
                taxes == line_taxes(line_items@),
                i <= n,
                all_fit(nets),
                all_fit(taxes),
                running_sums_fit(taxes),
                tax@ == sum_first(taxes, i as nat),
            decreases n - i,
        {
            assert(fits_i64(nets[i as int]));
            assert(fits_i64(taxes[i as int]));
            let t = match line_items[i].tax_amount() {
                Ok(m) => m,
                Err(e) => {
                    assert(fits_i64(nets[i as int]));
                    assert(false);
                    return Err(e);
                },
            };
            assert(fits_i64(sum_first(taxes, (i + 1) as nat)));
            tax = Money { cents: tax.cents + t.cents };
            i += 1;
        }
        let total = subtotal.checked_add(tax)?;
        Ok(Invoice {
            id,
            merchant,
            buyer,
            external_ref,
            issue_day,
            due_day: issue_day + terms.net_days,
            terms,
            line_items,
            subtotal,
            tax,
            total,
            receipts_applied: Money::zero(),
            credit_memos_applied: Money::zero(),
            debit_memos_applied: Money::zero(),
            status: InvoiceStatus::Draft,
            closed_day: None,
            tags: Vec::new(),
        })
    }

    /// Moves a draft invoice to issued.
    pub fn issue(&mut self) -> (r: SableResult<()>)
        ensures
            *final(self) == issued(*old(self)),
            issue_outcome(*old(self), r),
    {
        match self.status {
            InvoiceStatus::Draft => {
                self.status = InvoiceStatus::Issued;
                Ok(())
            },
            _ => Err(
                SableError::InvalidTransition(
                    join4("invoice ", self.id.as_str(), " cannot be issued from ", self.status.name()),
                ),
            ),
        }
    }

    fn refresh_status(&mut self)
        requires
            refresh_computes(old(self).status) ==> old(self).amounts_fit(),
        ensures
            *final(self) == (Invoice { status: refreshed_status(*old(self)), ..*old(self) }),
    {
        if matches!(
            self.status,
            InvoiceStatus::Draft | InvoiceStatus::Voided | InvoiceStatus::Closed
        ) {
            return ;
        }
        let outstanding = self.accounting_outstanding();
        self.status = if outstanding.is_zero() {
            InvoiceStatus::Paid
        } else if self.receipts_applied.is_positive() || self.credit_memos_applied.is_positive() {
            InvoiceStatus::PartiallyCollected
        } else {
            InvoiceStatus::Issued
        };
    }

    /// Records a receipt against the invoice.
    pub fn apply_receipt(&mut self, amount: Money) -> (r: SableResult<()>)
        requires
            receipt_entry_safe(*old(self), amount),
        ensures
            *final(self) == receipt_applied(*old(self), amount),
            receipt_outcome(*old(self), amount, r),
    {
        if amount.cents() <= 0 {
            return Err(
                SableError::InvalidTransition(String::from_str("receipt amount must be positive")),
            );
        }
        if matches!(self.status, InvoiceStatus::Voided | InvoiceStatus::Closed) {
            return Err(
                SableError::InvalidTransition(
                    join3("invoice ", self.id.as_str(), " does not accept receipts"),
                ),
            );
        }
        self.receipts_applied = self.receipts_applied.checked_add(amount)?;
        self.refresh_status();
        Ok(())
    }

    /// Records a credit memo against the invoice.
    pub fn apply_credit_memo(&mut self, amount: Money) -> (r: SableResult<()>)
        requires
            credit_entry_safe(*old(self), amount),
        ensures
            *final(self) == credit_applied(*old(self), amount),
            credit_outcome(*old(self), amount, r),
    {
        if amount.cents() <= 0 {
            return Err(
                SableError::InvalidTransition(String::from_str("memo amount must be positive")),
            );
        }
        if matches!(self.status, InvoiceStatus::Voided | InvoiceStatus::Closed) {
            return Err(
                SableError::InvalidTransition(
                    join3("invoice ", self.id.as_str(), " does not accept memo entries"),
                ),
            );
        }
        self.credit_memos_applied = self.credit_memos_applied.checked_add(amount)?;
        self.refresh_status();
        Ok(())
    }

    /// Records a debit memo against the invoice.
    pub fn apply_debit_memo(&mut self, amount: Money) -> (r: SableResult<()>)
        requires
            debit_entry_safe(*old(self), amount),
        ensures
            *final(self) == debit_applied(*old(self), amount),
            debit_outcome(*old(self), amount, r),
    {
        if amount.cents() <= 0 {
            return Err(
                SableError::InvalidTransition(String::from_str("memo amount must be positive")),
            );
        }
        if matches!(self.status, InvoiceStatus::Voided | InvoiceStatus::Closed) {
            return Err(
                SableError::InvalidTransition(
                    join3("invoice ", self.id.as_str(), " does not accept memo entries"),
                ),
            );
        }
        self.debit_memos_applied = self.debit_memos_applied.checked_add(amount)?;
        self.refresh_status();
        Ok(())
    }

    /// Closes the invoice once nothing is open in the books.
    pub fn close(&mut self, day: u32) -> (r: SableResult<()>)
        requires
            old(self).amounts_fit(),
        ensures
            *final(self) == closed_on(*old(self), day),
            close_outcome(*old(self), r),
    {
        if self.accounting_outstanding().cents() > 0 {
            return Err(
                SableError::InvalidTransition(
                    join3("invoice ", self.id.as_str(), " has an open accounting balance"),
                ),
            );
        }
        self.status = InvoiceStatus::Closed;
        self.closed_day = Some(day);
        Ok(())
    }

    /// Voids the invoice unless receipts were applied to it.
    pub fn void(&mut self, day: u32) -> (r: SableResult<()>)
        ensures
            old(self).receipts_applied@ != 0 ==> *final(self) == *old(self) && (r matches Err(
                SableError::InvalidTransition(msg),
            ) && msg@ == "invoice "@ + old(self).id@ + " already has receipts"@),
            old(self).receipts_applied@ == 0 ==> r is Ok && *final(self) == (Invoice {
                status: InvoiceStatus::Voided,
                closed_day: Some(day),
                ..*old(self)
            }),
    {
        if self.receipts_applied.cents() != 0 {
            return Err(
                SableError::InvalidTransition(
                    join3("invoice ", self.id.as_str(), " already has receipts"),
                ),
            );
        }
        self.status = InvoiceStatus::Voided;
        self.closed_day = Some(day);
        Ok(())
    }

    pub fn with_tag(self, tag: String) -> (r: Invoice)
        ensures
            r == (Invoice { tags: r.tags, ..self }),
            r.tags@ == self.tags@.push(tag),
    {
        let mut inv = self;
        inv.tags.push(tag);
        inv
    }

    /// Whether the gross and the relief on the invoice both fit in `i64`.
    pub(crate) fn amounts_fit_exec(&self) -> (r: bool)
        ensures
            r == self.amounts_fit(),
    {
        let gross = self.total.cents as i128 + self.debit_memos_applied.cents as i128;
        let relief = self.receipts_applied.cents as i128 + self.credit_memos_applied.cents as i128;
        i64::MIN as i128 <= gross && gross <= i64::MAX as i128 && i64::MIN as i128 <= relief
            && relief <= i64::MAX as i128
    }

    /// Whether applying a receipt of `amount` keeps the invoice's balances within `i64`.
    pub fn receipt_fits(&self, amount: Money) -> (r: bool)
        ensures
            r == receipt_entry_safe(*self, amount),
    {
        let sum = self.receipts_applied.cents as i128 + amount.cents as i128;
        if self.entry_check(amount, sum) {
            let gross = self.total.cents as i128 + self.debit_memos_applied.cents as i128;
            let relief = sum + self.credit_memos_applied.cents as i128;
            i64::MIN as i128 <= gross && gross <= i64::MAX as i128 && i64::MIN as i128 <= relief
                && relief <= i64::MAX as i128
        } else {
            true
        }
    }

    /// Whether applying a credit memo of `amount` keeps the invoice's balances within `i64`.
    pub fn credit_fits(&self, amount: Money) -> (r: bool)
        ensures
            r == credit_entry_safe(*self, amount),
    {
        let sum = self.credit_memos_applied.cents as i128 + amount.cents as i128;
        if self.entry_check(amount, sum) {
            let gross = self.total.cents as i128 + self.debit_memos_applied.cents as i128;
            let relief = self.receipts_applied.cents as i128 + sum;
            i64::MIN as i128 <= gross && gross <= i64::MAX as i128 && i64::MIN as i128 <= relief
                && relief <= i64::MAX as i128
        } else {
            true
        }
    }

    /// Whether applying a debit memo of `amount` keeps the invoice's balances within `i64`.
    pub fn debit_fits(&self, amount: Money) -> (r: bool)
        ensures
            r == debit_entry_safe(*self, amount),
    {
        let sum = self.debit_memos_applied.cents as i128 + amount.cents as i128;
        if self.entry_check(amount, sum) {
            let gross = self.total.cents as i128 + sum;
            let relief = self.receipts_applied.cents as i128 + self.credit_memos_applied.cents as i128;
            i64::MIN as i128 <= gross && gross <= i64::MAX as i128 && i64::MIN as i128 <= relief
                && relief <= i64::MAX as i128
        } else {
            true
        }
    }

    /// Whether an entry of `amount` is accepted, its running sum `sum` fits, and the
    /// status refresh that follows computes the balance.
    fn entry_check(&self, amount: Money, sum: i128) -> (r: bool)
        ensures
            r == (entry_accepted(*self, amount) && fits_i64(sum as int) && refresh_computes(
                self.status,
            )),
    {
        amount.cents > 0 && !(self.status == InvoiceStatus::Voided || self.status
            == InvoiceStatus::Closed) && i64::MIN as i128 <= sum && sum <= i64::MAX as i128 && !(
        self.status == InvoiceStatus::Draft || self.status == InvoiceStatus::Voided || self.status
            == InvoiceStatus::Closed)
    }

    /// Whether the gross of the invoice fits in `i64`.
    pub(crate) fn gross_fits_exec(&self) -> (r: bool)
        ensures
            r == fits_i64(self.gross()),
    {
        let gross = self.total.cents as i128 + self.debit_memos_applied.cents as i128;
        i64::MIN as i128 <= gross && gross <= i64::MAX as i128
    }

    pub fn gross_obligation(&self) -> (r: Money)
        requires
            fits_i64(self.gross()),
        ensures
            r@ == self.gross(),
    {
        Money { cents: self.total.cents + self.debit_memos_applied.cents }
    }

    pub fn accounting_outstanding(&self) -> (r: Money)
        requires
            self.amounts_fit(),
        ensures
            r@ == self.accounting_open(),
            r@ >= 0,
    {
        let relief = Money {
            cents: self.receipts_applied.cents + self.credit_memos_applied.cents,
        };
        self.gross_obligation().saturating_sub_floor_zero(relief)
    }

    pub fn presentation_outstanding(&self) -> (r: Money)
        requires
            fits_i64(self.gross()),
        ensures
            r@ == self.presentation_open(),
            r@ >= 0,
    {
        self.gross_obligation().saturating_sub_floor_zero(self.receipts_applied)
    }

    pub fn has_accounting_balance(&self) -> (r: bool)
        requires
            self.amounts_fit(),
        ensures
            r == (self.accounting_open() > 0),
    {
        self.accounting_outstanding().cents() > 0
    }

    pub fn has_presentation_balance(&self) -> (r: bool)
        requires
            fits_i64(self.gross()),
        ensures
            r == (self.presentation_open() > 0),
    {
        self.presentation_outstanding().cents() > 0
    }

    /// Whether the invoice is past due and its grace days, with something still open.
    pub fn is_late(&self, day: u32) -> (r: bool)
        requires
            self.due_day + self.terms.grace_days <= u32::MAX,
            day > self.due_day + self.terms.grace_days ==> self.amounts_fit(),
        ensures
            r == (day > self.due_day + self.terms.grace_days && self.accounting_open() > 0),
    {
        day > self.due_day + self.terms.grace_days && self.has_accounting_balance()
    }

    pub fn days_past_due(&self, day: u32) -> (r: u32)
        ensures
            r == if day > self.due_day {
                day - self.due_day
            } else {
                0
            },
    {
        if day > self.due_day {
            day - self.due_day
        } else {
            0
        }
    }

    /// Share of the gross collected by receipts, in basis points, clamped to 0..=10 000.
    pub fn effective_collected_ratio(&self) -> (r: SableResult<Bps>)
        requires
            fits_i64(self.gross()),
        ensures
            r matches Ok(b) && b@ == collected_ratio(self.receipts_applied@, self.gross()),
    {
        let gross = self.gross_obligation();
        if gross.is_zero() {
            return Ok(Bps::full());
        }
        let numerator = (self.receipts_applied.cents as i128) * 10000;
        let g = gross.cents as i128;
        let ua: u128 = if numerator < 0 {
            (-numerator) as u128
        } else {
            numerator as u128
        };
        let ub: u128 = if g < 0 {
            (-g) as u128
        } else {
            g as u128
        };
        let uq = ua / ub;
        assert(uq <= ua) by (nonlinear_arith)
            requires
                uq == ua / ub,
                ub >= 1,
        ;
        let value: i128 = if (numerator >= 0 && g > 0) || (numerator < 0 && g < 0) {
            uq as i128
        } else {
            -(uq as i128)
        };
        let clamped: u16 = if value < 0 {
            0
        } else if value > 10000 {
            10000
        } else {
            value as u16
        };
        Bps::new(clamped)
    }
}

/// Receipts over gross in basis points, truncated toward zero and clamped to 0..=10 000;
/// a zero gross counts as fully collected.
pub open spec fn collected_ratio(receipts: int, gross: int) -> int {
    if gross == 0 {
        10000
    } else {
        let v = crate::amount::trunc_div(receipts * 10000, gross);
        if v < 0 {
            0
        } else if v > 10000 {
            10000
        } else {
            v
        }
    }
}

/// The collected ratio is the share of the gross that receipts cover, in basis points rounded
/// down: nothing collected is 0, receipts covering the gross are 10 000, and in between the
/// ratio times the gross stays within one gross below receipts times 10 000.
pub proof fn lemma_collected_ratio_share(receipts: int, gross: int)
    requires
        gross > 0,
    ensures
        0 <= collected_ratio(receipts, gross) <= 10000,
        receipts <= 0 ==> collected_ratio(receipts, gross) == 0,
        receipts >= gross ==> collected_ratio(receipts, gross) == 10000,
        0 <= receipts <= gross ==> collected_ratio(receipts, gross) * gross <= receipts * 10000
            < (collected_ratio(receipts, gross) + 1) * gross,
{
    let n = receipts * 10000;
    if receipts >= 0 {
        assert(n >= 0) by (nonlinear_arith)
            requires
                receipts >= 0,
                n == receipts * 10000,
        ;
        let v = n / gross;
        assert(crate::amount::trunc_div(n, gross) == v);
        vstd::arithmetic::div_mod::lemma_fundamental_div_mod(n, gross);
        vstd::arithmetic::div_mod::lemma_mod_pos_bound(n, gross);
        vstd::arithmetic::mul::lemma_mul_is_commutative(gross, v);
        if receipts >= gross {
            assert(v >= 10000) by (nonlinear_arith)
                requires
                    receipts >= gross,
                    gross > 0,
                    n == receipts * 10000,
                    n == v * gross + n % gross,
                    n % gross < gross,
            ;
        }
        if receipts <= gross {
            assert(v <= 10000) by (nonlinear_arith)
                requires
                    0 <= receipts <= gross,
                    gross > 0,
                    n == receipts * 10000,
                    n == v * gross + n % gross,
                    0 <= n % gross,
            ;
            assert(v * gross <= n < (v + 1) * gross) by (nonlinear_arith)
                requires
                    n == v * gross + n % gross,
                    0 <= n % gross < gross,
            ;
        }
        if receipts == 0 {
            assert(n == 0);
        }
    } else {
        assert(n < 0) by (nonlinear_arith)
            requires
                receipts < 0,
                n == receipts * 10000,
        ;
    }
}

/// What is open on an invoice: receipts and credit memos come off the gross (the total plus
/// debit memos) until nothing is left; for presentation only receipts count.
pub proof fn lemma_open_balances(inv: Invoice)
    requires
        fits_i64(inv.total@ + inv.debit_memos_applied@),
        inv.receipts_applied@ >= 0,
        inv.credit_memos_applied@ >= 0,
    ensures
        inv.receipts_applied@ + inv.credit_memos_applied@ <= inv.total@ + inv.debit_memos_applied@
            ==> inv.accounting_open() + inv.receipts_applied@ + inv.credit_memos_applied@
            == inv.total@ + inv.debit_memos_applied@,
        inv.receipts_applied@ + inv.credit_memos_applied@ >= inv.total@ + inv.debit_memos_applied@
            ==> inv.accounting_open() == 0,
        inv.receipts_applied@ <= inv.total@ + inv.debit_memos_applied@ ==> inv.presentation_open()
            + inv.receipts_applied@ == inv.total@ + inv.debit_memos_applied@,
        inv.receipts_applied@ >= inv.total@ + inv.debit_memos_applied@ ==> inv.presentation_open()
            == 0,
        inv.accounting_open() <= inv.presentation_open(),
{
}

} // verus!
