//! The book of invoices, keyed by invoice id.
use vstd::prelude::*;

use crate::amount::{fits_i64, running_sums_fit, seq_sum, sum_first, Money};
use crate::error::{SableError, SableResult};
use crate::ids::{InvoiceId, PartyId};
use crate::invoice::model::{
    close_outcome, closed_on, credit_applied, credit_entry_safe, credit_outcome, debit_applied,
    debit_entry_safe, debit_outcome, issue_outcome, issued, receipt_applied, receipt_entry_safe,
    receipt_outcome, Invoice, InvoiceStatus,
};
use crate::keyed::{
    derefs, lemma_derefs_push, lemma_take_push,
    entry_keys, entry_values, has_key, key_index, lemma_filter_take_step,
    lemma_lookup_after_update, lemma_take_full, lookup, sorted_keys, BookKey, Registry,
};

verus! {

pub open spec fn grosses(invs: Seq<Invoice>) -> Seq<int> {
    invs.map_values(|i: Invoice| i.gross())
}

pub open spec fn accounting_opens(invs: Seq<Invoice>) -> Seq<int> {
    invs.map_values(|i: Invoice| i.accounting_open())
}

pub open spec fn presentation_opens(invs: Seq<Invoice>) -> Seq<int> {
    invs.map_values(|i: Invoice| i.presentation_open())
}

pub open spec fn receipt_amounts(invs: Seq<Invoice>) -> Seq<int> {
    invs.map_values(|i: Invoice| i.receipts_applied@)
}

/// Credit memos less debit memos, per invoice.
pub open spec fn net_memos(invs: Seq<Invoice>) -> Seq<int> {
    invs.map_values(|i: Invoice| i.credit_memos_applied@ - i.debit_memos_applied@)
}

pub open spec fn all_amounts_fit(invs: Seq<Invoice>) -> bool {
    forall|i: int| 0 <= i < invs.len() ==> (#[trigger] invs[i]).amounts_fit()
}

pub open spec fn all_grosses_fit(invs: Seq<Invoice>) -> bool {
    forall|i: int| 0 <= i < invs.len() ==> fits_i64((#[trigger] invs[i]).gross())
}

/// Whether the open accounting total of these invoices can be computed.
pub open spec fn accounting_total_ok(invs: Seq<Invoice>) -> bool {
    all_amounts_fit(invs) && running_sums_fit(accounting_opens(invs))
}

/// Whether the open presentation total of these invoices can be computed.
pub open spec fn presentation_total_ok(invs: Seq<Invoice>) -> bool {
    all_grosses_fit(invs) && running_sums_fit(presentation_opens(invs))
}

/// Whether the gross total of these invoices can be computed.
pub open spec fn gross_total_ok(invs: Seq<Invoice>) -> bool {
    all_grosses_fit(invs) && running_sums_fit(grosses(invs))
}

/// Whether the net memo total of these invoices can be computed.
pub open spec fn memo_total_ok(invs: Seq<Invoice>) -> bool {
    (forall|i: int| 0 <= i < invs.len() ==> fits_i64(#[trigger] net_memos(invs)[i]))
        && running_sums_fit(net_memos(invs))
}

/// Whether an invoice is ready to be closed on `day`: issued by then, collected, and
/// with nothing open in the books.
pub open spec fn closable(inv: Invoice, day: u32) -> bool {
    inv.issue_day <= day && (inv.status == InvoiceStatus::Paid || inv.status
        == InvoiceStatus::PartiallyCollected) && inv.accounting_open() <= 0
}

/// Closing takes exactly the invoices issued by the day that are paid or partly collected
/// and owe nothing more in the books: one that still owes something, one issued later, and a
/// draft, merely issued, voided or already closed invoice are left alone.
pub proof fn lemma_closable_exactly_settled(inv: Invoice, day: u32)
    ensures
        inv.accounting_open() > 0 ==> !closable(inv, day),
        day < inv.issue_day ==> !closable(inv, day),
        inv.status is Draft || inv.status is Issued || inv.status is Voided || inv.status is Closed
            ==> !closable(inv, day),
        (inv.status is Paid || inv.status is PartiallyCollected) && inv.issue_day <= day
            && inv.accounting_open() == 0 ==> closable(inv, day),
{
}

/// Whether looking at an invoice for closing computes its balance.
pub open spec fn close_check_computes(inv: Invoice, day: u32) -> bool {
    inv.issue_day <= day && (inv.status == InvoiceStatus::Paid || inv.status
        == InvoiceStatus::PartiallyCollected)
}

/// Entries in id order, each invoice filed under its own id.
pub open spec fn invoice_entries_wf(s: Seq<(InvoiceId, Invoice)>) -> bool {
    &&& sorted_keys(entry_keys(s))
    &&& forall|i: int| 0 <= i < s.len() ==> (#[trigger] s[i]).0@ == s[i].1.id@
}

/// The invoices of the desk, in id order.
pub struct InvoiceBook {
    invoices: Registry<InvoiceId, Invoice>,
}

impl View for InvoiceBook {
    type V = Seq<(InvoiceId, Invoice)>;

    closed spec fn view(&self) -> Seq<(InvoiceId, Invoice)> {
        self.invoices.entries()
    }
}

impl InvoiceBook {
    /// Invoices in id order, each filed under its own id.
    pub open spec fn wf(&self) -> bool {
        invoice_entries_wf(self@)
    }

    /// The invoices, in id order.
    pub open spec fn all(&self) -> Seq<Invoice> {
        entry_values(self@)
    }

    /// The invoice filed under `id`, if any.
    pub open spec fn find_spec(&self, id: Seq<char>) -> Option<Invoice> {
        lookup(self@, id)
    }

    /// The position of the invoice filed under `id`.
    pub open spec fn index_of(&self, id: Seq<char>) -> int {
        key_index(entry_keys(self@), id)
    }

    pub fn new() -> (r: InvoiceBook)
        ensures
            r@ == Seq::<(InvoiceId, Invoice)>::empty(),
            r.wf(),
    {
        InvoiceBook { invoices: Registry::new() }
    }

    /// Files a new invoice; an id already in the book is refused.
    pub fn insert(&mut self, invoice: Invoice) -> (r: SableResult<()>)
        requires
            old(self).wf(),
        ensures
            final(self).wf(),
            has_key(entry_keys(old(self)@), invoice.id@) ==> final(self)@ == old(self)@ && (
            r matches Err(SableError::DuplicateId(s)) && s@ == invoice.id@),
            !has_key(entry_keys(old(self)@), invoice.id@) ==> r is Ok && exists|p: int|
                0 <= p <= old(self)@.len() && final(self)@ == old(self)@.insert(
                    p,
                    (invoice.id, invoice),
                ),
    {
        let text = invoice.id.to_text();
        let key = invoice.id.duplicate();
        if self.invoices.insert_new(key, invoice) {
            Ok(())
        } else {
            Err(SableError::DuplicateId(text))
        }
    }

    /// Issues the draft invoice filed under `id`.
    pub fn issue(&mut self, id: &InvoiceId) -> (r: SableResult<()>)
        requires
            old(self).wf(),
        ensures
            final(self).wf(),
            match old(self).find_spec(id@) {
                None => final(self)@ == old(self)@ && r == Err::<(), SableError>(
                    SableError::InvoiceNotFound(*id),
                ),
                Some(inv) => issue_outcome(inv, r) && final(self)@ == old(self)@.update(
                    old(self).index_of(id@),
                    (old(self)@[old(self).index_of(id@)].0, issued(inv)),
                ),
            },
    {
        proof {
            self.lemma_update_keeps_order();
        }
        match self.invoices.find_mut(id.as_str()) {
            Some(inv) => inv.issue(),
            None => Err(SableError::InvoiceNotFound(id.duplicate())),
        }
    }

    proof fn lemma_update_keeps_order(&self)
        requires
            self.wf(),
        ensures
            forall|i: int, v: Invoice|
                0 <= i < self@.len() && v.id@ == self@[i].1.id@ ==> invoice_entries_wf(
                    #[trigger] self@.update(i, (self@[i].0, v)),
                ),
    {
        assert forall|i: int, v: Invoice|
            0 <= i < self@.len() && v.id@ == self@[i].1.id@ implies invoice_entries_wf(
            #[trigger] self@.update(i, (self@[i].0, v)),
        ) by {
            lemma_lookup_after_update(self@, i, v, self@[i].0.key());
            let t = self@.update(i, (self@[i].0, v));
            assert forall|j: int| 0 <= j < t.len() implies (#[trigger] t[j]).0@ == t[j].1.id@ by {
                if j != i {
                    assert(t[j] == self@[j]);
                }
            }
        }
    }

    pub fn get(&self, id: &InvoiceId) -> (r: SableResult<&Invoice>)
        requires
            self.wf(),
        ensures
            match self.find_spec(id@) {
                None => r == Err::<&Invoice, SableError>(SableError::InvoiceNotFound(*id)),
                Some(inv) => r == Ok::<&Invoice, SableError>(&inv),
            },
    {
        match self.invoices.find(id.as_str()) {
            Some(inv) => Ok(inv),
            None => Err(SableError::InvoiceNotFound(id.duplicate())),
        }
    }

    pub fn get_mut(&mut self, id: &InvoiceId) -> (r: SableResult<&mut Invoice>)
        requires
            old(self).wf(),
        ensures
            match r {
                Ok(inv) => (final(inv).id@ == inv.id@ ==> final(self).wf()) && old(self).find_spec(id@) == Some(*inv) && final(self)@ == old(
                    self,
                )@.update(
                    old(self).index_of(id@),
                    (old(self)@[old(self).index_of(id@)].0, *final(inv)),
                ),
                Err(e) => old(self).find_spec(id@) is None && e == SableError::InvoiceNotFound(
                    *id,
                ) && final(self)@ == old(self)@ && final(self).wf(),
            },
    {
        proof {
            self.lemma_update_keeps_order();
        }
        match self.invoices.find_mut(id.as_str()) {
            Some(inv) => Ok(inv),
            None => Err(SableError::InvoiceNotFound(id.duplicate())),
        }
    }

    /// The invoice at position `i` in id order, to change in place; the book stays in order
    /// as long as the invoice keeps its id.
    pub fn value_at_mut(&mut self, i: usize) -> (r: &mut Invoice)
        requires
            old(self).wf(),
            i < old(self)@.len(),
        ensures
            *r == old(self).all()[i as int],
            final(r).id@ == r.id@ ==> final(self).wf(),
            final(self)@ == old(self)@.update(i as int, (old(self)@[i as int].0, *final(r))),
    {
        proof {
            self.lemma_update_keeps_order();
        }
        self.invoices.value_at_mut(i)
    }

    pub fn apply_receipt(&mut self, id: &InvoiceId, amount: Money) -> (r: SableResult<()>)
        requires
            old(self).wf(),
            old(self).find_spec(id@) matches Some(inv) ==> receipt_entry_safe(inv, amount),
        ensures
            final(self).wf(),
            match old(self).find_spec(id@) {
                None => final(self)@ == old(self)@ && r == Err::<(), SableError>(
                    SableError::InvoiceNotFound(*id),
                ),
                Some(inv) => receipt_outcome(inv, amount, r) && final(self)@ == old(
                    self,
                )@.update(
                    old(self).index_of(id@),
                    (old(self)@[old(self).index_of(id@)].0, receipt_applied(inv, amount)),
                ),
            },
    {
        proof {
            self.lemma_update_keeps_order();
        }
        match self.invoices.find_mut(id.as_str()) {
            Some(inv) => inv.apply_receipt(amount),
            None => Err(SableError::InvoiceNotFound(id.duplicate())),
        }
    }

    pub fn apply_credit_memo(&mut self, id: &InvoiceId, amount: Money) -> (r: SableResult<()>)
        requires
            old(self).wf(),
            old(self).find_spec(id@) matches Some(inv) ==> credit_entry_safe(inv, amount),
        ensures
            final(self).wf(),
            match old(self).find_spec(id@) {
                None => final(self)@ == old(self)@ && r == Err::<(), SableError>(
                    SableError::InvoiceNotFound(*id),
                ),
                Some(inv) => credit_outcome(inv, amount, r) && final(self)@ == old(
                    self,
                )@.update(
                    old(self).index_of(id@),
                    (old(self)@[old(self).index_of(id@)].0, credit_applied(inv, amount)),
                ),
            },
    {
        proof {
            self.lemma_update_keeps_order();
        }
        match self.invoices.find_mut(id.as_str()) {
            Some(inv) => inv.apply_credit_memo(amount),
            None => Err(SableError::InvoiceNotFound(id.duplicate())),
        }
    }

    pub fn apply_debit_memo(&mut self, id: &InvoiceId, amount: Money) -> (r: SableResult<()>)
        requires
            old(self).wf(),
            old(self).find_spec(id@) matches Some(inv) ==> debit_entry_safe(inv, amount),
        ensures
            final(self).wf(),
            match old(self).find_spec(id@) {
                None => final(self)@ == old(self)@ && r == Err::<(), SableError>(
                    SableError::InvoiceNotFound(*id),
                ),
                Some(inv) => debit_outcome(inv, amount, r) && final(self)@ == old(
                    self,
                )@.update(
                    old(self).index_of(id@),
                    (old(self)@[old(self).index_of(id@)].0, debit_applied(inv, amount)),
                ),
            },
    {
        proof {
            self.lemma_update_keeps_order();
        }
        match self.invoices.find_mut(id.as_str()) {
            Some(inv) => inv.apply_debit_memo(amount),
            None => Err(SableError::InvoiceNotFound(id.duplicate())),
        }
    }

    pub fn close_invoice(&mut self, id: &InvoiceId, day: u32) -> (r: SableResult<()>)
        requires
            old(self).wf(),
            old(self).find_spec(id@) matches Some(inv) ==> inv.amounts_fit(),
        ensures
            final(self).wf(),
            match old(self).find_spec(id@) {
                None => final(self)@ == old(self)@ && r == Err::<(), SableError>(
                    SableError::InvoiceNotFound(*id),
                ),
                Some(inv) => close_outcome(inv, r) && final(self)@ == old(self)@.update(
                    old(self).index_of(id@),
                    (old(self)@[old(self).index_of(id@)].0, closed_on(inv, day)),
                ),
            },
    {
        proof {
            self.lemma_update_keeps_order();
        }
        match self.invoices.find_mut(id.as_str()) {
            Some(inv) => inv.close(day),
            None => Err(SableError::InvoiceNotFound(id.duplicate())),
        }
    }

    /// The invoices, in id order.
    pub fn values(&self) -> (r: Vec<&Invoice>)
        ensures
            derefs(r@) == self.all(),
    {
        let n = self.invoices.len();
        let mut r: Vec<&Invoice> = Vec::new();
        let mut i: usize = 0;
        while i < n
            invariant
                n == self@.len(),
                i <= n,
                derefs(r@) == self.all().take(i as int),
            decreases n - i,
        {
            let inv = self.invoices.value_at(i);
            proof {
                lemma_derefs_push(r@, inv);
                lemma_take_push(self.all(), i as int);
            }
            r.push(inv);
            i += 1;
        }
        assert(self.all().take(n as int) =~= self.all());
        r
    }

    /// The invoices billed to `buyer`, in id order.
    pub fn by_buyer(&self, buyer: &PartyId) -> (r: Vec<&Invoice>)
        ensures
            derefs(r@) == self.all().filter(|inv: Invoice| inv.buyer@ == buyer@),
    {
        let ghost pred = |inv: Invoice| inv.buyer@ == buyer@;
        let n = self.invoices.len();
        let mut r: Vec<&Invoice> = Vec::new();
        let mut i: usize = 0;
        while i < n
            invariant
                pred == (|inv: Invoice| inv.buyer@ == buyer@),
                n == self@.len(),
                i <= n,
                derefs(r@) == self.all().take(i as int).filter(pred),
            decreases n - i,
        {
            let inv = self.invoices.value_at(i);
            assert(*inv == self.all()[i as int]);
            proof {
                lemma_filter_take_step(self.all(), pred, i as int);
            }
            if inv.buyer.same(buyer) {
                proof {
                    lemma_derefs_push(r@, inv);
                }
                r.push(inv);
            }
            i += 1;
        }
        proof {
            lemma_take_full(self.all());
        }
        r
    }

    /// The invoices billed by `merchant`, in id order.
    pub fn by_merchant(&self, merchant: &PartyId) -> (r: Vec<&Invoice>)
        ensures
            derefs(r@) == self.all().filter(|inv: Invoice| inv.merchant@ == merchant@),
    {
        let ghost pred = |inv: Invoice| inv.merchant@ == merchant@;
        let n = self.invoices.len();
        let mut r: Vec<&Invoice> = Vec::new();
        let mut i: usize = 0;
        while i < n
            invariant
                pred == (|inv: Invoice| inv.merchant@ == merchant@),
                n == self@.len(),
                i <= n,
                derefs(r@) == self.all().take(i as int).filter(pred),
            decreases n - i,
        {
            let inv = self.invoices.value_at(i);
            assert(*inv == self.all()[i as int]);
            proof {
                lemma_filter_take_step(self.all(), pred, i as int);
            }
            if inv.merchant.same(merchant) {
                proof {
                    lemma_derefs_push(r@, inv);
                }
                r.push(inv);
            }
            i += 1;
        }
        proof {
            lemma_take_full(self.all());
        }
        r
    }

    /// The open accounting total, or `None` when it cannot be computed in `i64`.
    pub(crate) fn try_open_accounting_total(&self) -> (r: Option<Money>)
        ensures
            accounting_total_ok(self.all()) ==> r == Some(
                Money { cents: seq_sum(accounting_opens(self.all())) as i64 },
            ),
            !accounting_total_ok(self.all()) ==> r is None,
    {
        let ghost vals = accounting_opens(self.all());
        let n = self.invoices.len();
        let mut acc: i64 = 0;
        let mut i: usize = 0;
        while i < n
            invariant
                n == self@.len(),
                vals == accounting_opens(self.all()),
                i <= n,
                forall|j: int| 0 <= j < i ==> (#[trigger] self.all()[j]).amounts_fit(),
                forall|k: nat| 1 <= k <= i ==> fits_i64(#[trigger] sum_first(vals, k)),
                acc == sum_first(vals, i as nat),
            decreases n - i,
        {
            let inv = self.invoices.value_at(i);
            assert(*inv == self.all()[i as int]);
            if inv.total.cents as i128 + inv.debit_memos_applied.cents as i128 > i64::MAX as i128
                || (inv.total.cents as i128 + inv.debit_memos_applied.cents as i128) < i64::MIN as i128
                || inv.receipts_applied.cents as i128 + inv.credit_memos_applied.cents as i128
                > i64::MAX as i128 || (inv.receipts_applied.cents as i128
                + inv.credit_memos_applied.cents as i128) < i64::MIN as i128 {
                return None;
            }
            let v = inv.accounting_outstanding();
            match acc.checked_add(v.cents) {
                Some(s) => {
                    acc = s;
                },
                None => {
                    assert(!fits_i64(sum_first(vals, (i + 1) as nat)));
                    return None;
                },
            }
            i += 1;
        }
        assert(vals.len() == n);
        Some(Money { cents: acc })
    }

    /// Sum of what is open in the books on every invoice.
    pub fn open_accounting_total(&self) -> (r: Money)
        requires
            accounting_total_ok(self.all()),
        ensures
            r@ == seq_sum(accounting_opens(self.all())),
    {
        match self.try_open_accounting_total() {
            Some(m) => m,
            None => Money::zero(),
        }
    }

    pub(crate) fn try_open_presentation_total(&self) -> (r: Option<Money>)
        ensures
            presentation_total_ok(self.all()) ==> r == Some(
                Money { cents: seq_sum(presentation_opens(self.all())) as i64 },
            ),
            !presentation_total_ok(self.all()) ==> r is None,
    {
        let ghost vals = presentation_opens(self.all());
        let n = self.invoices.len();
        let mut acc: i64 = 0;
        let mut i: usize = 0;
        while i < n
            invariant
                n == self@.len(),
                vals == presentation_opens(self.all()),
                i <= n,
                forall|j: int| 0 <= j < i ==> fits_i64((#[trigger] self.all()[j]).gross()),
                forall|k: nat| 1 <= k <= i ==> fits_i64(#[trigger] sum_first(vals, k)),
                acc == sum_first(vals, i as nat),
            decreases n - i,
        {
            let inv = self.invoices.value_at(i);
            assert(*inv == self.all()[i as int]);
            if inv.total.cents as i128 + inv.debit_memos_applied.cents as i128 > i64::MAX as i128
                || (inv.total.cents as i128 + inv.debit_memos_applied.cents as i128) < i64::MIN as i128 {
                return None;
            }
            let v = inv.presentation_outstanding();
            match acc.checked_add(v.cents) {
                Some(s) => {
                    acc = s;
                },
                None => {
                    assert(!fits_i64(sum_first(vals, (i + 1) as nat)));
                    return None;
                },
            }
            i += 1;
        }
        assert(vals.len() == n);
        Some(Money { cents: acc })
    }

    /// Sum of what may still be presented for settlement on every invoice.
    pub fn open_presentation_total(&self) -> (r: Money)
        requires
            presentation_total_ok(self.all()),
        ensures
            r@ == seq_sum(presentation_opens(self.all())),
    {
        match self.try_open_presentation_total() {
            Some(m) => m,
            None => Money::zero(),
        }
    }

    pub(crate) fn try_gross_total(&self) -> (r: Option<Money>)
        ensures
            gross_total_ok(self.all()) ==> r == Some(
                Money { cents: seq_sum(grosses(self.all())) as i64 },
            ),
            !gross_total_ok(self.all()) ==> r is None,
    {
        let ghost vals = grosses(self.all());
        let n = self.invoices.len();
        let mut acc: i64 = 0;
        let mut i: usize = 0;
        while i < n
            invariant
                n == self@.len(),
                vals == grosses(self.all()),
                i <= n,
                forall|j: int| 0 <= j < i ==> fits_i64((#[trigger] self.all()[j]).gross()),
                forall|k: nat| 1 <= k <= i ==> fits_i64(#[trigger] sum_first(vals, k)),
                acc == sum_first(vals, i as nat),
            decreases n - i,
        {
            let inv = self.invoices.value_at(i);
            assert(*inv == self.all()[i as int]);
            if inv.total.cents as i128 + inv.debit_memos_applied.cents as i128 > i64::MAX as i128
                || (inv.total.cents as i128 + inv.debit_memos_applied.cents as i128) < i64::MIN as i128 {
                return None;
            }
            let v = inv.gross_obligation();
            match acc.checked_add(v.cents) {
                Some(s) => {
                    acc = s;
                },
                None => {
                    assert(!fits_i64(sum_first(vals, (i + 1) as nat)));
                    return None;
                },
            }
            i += 1;
        }
        assert(vals.len() == n);
        Some(Money { cents: acc })
    }

    pub(crate) fn try_collected_total(&self) -> (r: Option<Money>)
        ensures
            running_sums_fit(receipt_amounts(self.all())) ==> r == Some(
                Money { cents: seq_sum(receipt_amounts(self.all())) as i64 },
            ),
            !running_sums_fit(receipt_amounts(self.all())) ==> r is None,
    {
        let ghost vals = receipt_amounts(self.all());
        let n = self.invoices.len();
        let mut acc: i64 = 0;
        let mut i: usize = 0;
        while i < n
            invariant
                n == self@.len(),
                vals == receipt_amounts(self.all()),
                i <= n,
                forall|k: nat| 1 <= k <= i ==> fits_i64(#[trigger] sum_first(vals, k)),
                acc == sum_first(vals, i as nat),
            decreases n - i,
        {
            let inv = self.invoices.value_at(i);
            assert(*inv == self.all()[i as int]);
            match acc.checked_add(inv.receipts_applied.cents) {
                Some(s) => {
                    acc = s;
                },
                None => {
                    assert(!fits_i64(sum_first(vals, (i + 1) as nat)));
                    return None;
                },
            }
            i += 1;
        }
        assert(vals.len() == n);
        Some(Money { cents: acc })
    }

    /// Sum of the receipts applied to every invoice.
    pub fn collected_total(&self) -> (r: Money)
        requires
            running_sums_fit(receipt_amounts(self.all())),
        ensures
            r@ == seq_sum(receipt_amounts(self.all())),
    {
        match self.try_collected_total() {
            Some(m) => m,
            None => Money::zero(),
        }
    }

    pub(crate) fn try_memo_total(&self) -> (r: Option<Money>)
        ensures
            memo_total_ok(self.all()) ==> r == Some(
                Money { cents: seq_sum(net_memos(self.all())) as i64 },
            ),
            !memo_total_ok(self.all()) ==> r is None,
    {
        let ghost vals = net_memos(self.all());
        let n = self.invoices.len();
        let mut acc: i64 = 0;
        let mut i: usize = 0;
        while i < n
            invariant
                n == self@.len(),
                vals == net_memos(self.all()),
                i <= n,
                forall|j: int| 0 <= j < i ==> fits_i64(#[trigger] vals[j]),
                forall|k: nat| 1 <= k <= i ==> fits_i64(#[trigger] sum_first(vals, k)),
                acc == sum_first(vals, i as nat),
            decreases n - i,
        {
            let inv = self.invoices.value_at(i);
            assert(*inv == self.all()[i as int]);
            let v = match inv.credit_memos_applied.checked_sub(inv.debit_memos_applied) {
                Ok(v) => v,
                Err(_) => {
                    assert(!fits_i64(vals[i as int]));
                    return None;
                },
            };
            match acc.checked_add(v.cents) {
                Some(s) => {
                    acc = s;
                },
                None => {
                    assert(!fits_i64(sum_first(vals, (i + 1) as nat)));
                    return None;
                },
            }
            i += 1;
        }
        assert(vals.len() == n);
        Some(Money { cents: acc })
    }

    /// Sum of credit memos less debit memos over every invoice.
    pub fn memo_total(&self) -> (r: Money)
        requires
            memo_total_ok(self.all()),
        ensures
            r@ == seq_sum(net_memos(self.all())),
    {
        match self.try_memo_total() {
            Some(m) => m,
            None => Money::zero(),
        }
    }

    /// The invoices that can be closed on `day`, in id order.
    pub fn eligible_for_close(&self, day: u32) -> (r: Vec<&Invoice>)
        requires
            forall|i: int|
                0 <= i < self.all().len() && close_check_computes(#[trigger] self.all()[i], day)
                    ==> self.all()[i].amounts_fit(),
        ensures
            derefs(r@) == self.all().filter(|inv: Invoice| closable(inv, day)),
    {
        let ghost pred = |inv: Invoice| closable(inv, day);
        let n = self.invoices.len();
        let mut r: Vec<&Invoice> = Vec::new();
        let mut i: usize = 0;
        while i < n
            invariant
                pred == (|inv: Invoice| closable(inv, day)),
                n == self@.len(),
                i <= n,
                forall|j: int|
                    0 <= j < self.all().len() && close_check_computes(
                        #[trigger] self.all()[j],
                        day,
                    ) ==> self.all()[j].amounts_fit(),
                derefs(r@) == self.all().take(i as int).filter(pred),
            decreases n - i,
        {
            let inv = self.invoices.value_at(i);
            assert(*inv == self.all()[i as int]);
            proof {
                lemma_filter_take_step(self.all(), pred, i as int);
            }
            if inv.issue_day <= day && matches!(
                inv.status,
                InvoiceStatus::Paid | InvoiceStatus::PartiallyCollected
            ) && !inv.has_accounting_balance() {
                proof {
                    lemma_derefs_push(r@, inv);
                }
                r.push(inv);
            }
            i += 1;
        }
        proof {
            lemma_take_full(self.all());
        }
        r
    }

    /// How many invoices stand in `status`.
    pub fn count_by_status(&self, status: InvoiceStatus) -> (r: usize)
        ensures
            r == self.all().filter(|inv: Invoice| inv.status == status).len(),
    {
        let ghost pred = |inv: Invoice| inv.status == status;
        let n = self.invoices.len();
        let mut count: usize = 0;
        let mut i: usize = 0;
        while i < n
            invariant
                pred == (|inv: Invoice| inv.status == status),
                n == self@.len(),
                i <= n,
                count == self.all().take(i as int).filter(pred).len(),
            decreases n - i,
        {
            let inv = self.invoices.value_at(i);
            assert(*inv == self.all()[i as int]);
            proof {
                lemma_filter_take_step(self.all(), pred, i as int);
                self.all().take(i as int).lemma_filter_len(pred);
            }
            if inv.status == status {
                assert(pred(self.all()[i as int]));
                count += 1;
            } else {
                assert(!pred(self.all()[i as int]));
            }
            i += 1;
        }
        proof {
            lemma_take_full(self.all());
        }
        count
    }

    pub fn len(&self) -> (r: usize)
        ensures
            r == self@.len(),
    {
        self.invoices.len()
    }

    pub fn is_empty(&self) -> (r: bool)
        ensures
            r == (self@.len() == 0),
    {
        self.invoices.len() == 0
    }
}

} // verus!
