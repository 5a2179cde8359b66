//! The book of receipts, keyed by receipt id.
use vstd::prelude::*;

use crate::amount::{fits_i64, running_sums_fit, seq_sum, sum_first, Money};
use crate::error::{SableError, SableResult};
use crate::ids::{InvoiceId, ReceiptId};
use crate::keyed::{
    derefs, entry_keys, entry_values, has_key, key_index, lemma_derefs_push,
    lemma_filter_take_step, lemma_lookup_after_update, lemma_take_full, lemma_take_push, lookup,
    sorted_keys, BookKey, Registry,
};
use crate::receipts::model::{ReceiptStatus, SettlementReceipt};

verus! {

pub open spec fn receipt_values(rs: Seq<SettlementReceipt>) -> Seq<int> {
    rs.map_values(|r: SettlementReceipt| r.amount@)
}

/// The receipts of the desk, in id order.
pub struct ReceiptBook {
    receipts: Registry<ReceiptId, SettlementReceipt>,
}

impl View for ReceiptBook {
    type V = Seq<(ReceiptId, SettlementReceipt)>;

    closed spec fn view(&self) -> Seq<(ReceiptId, SettlementReceipt)> {
        self.receipts.entries()
    }
}

impl ReceiptBook {
    pub open spec fn wf(&self) -> bool {
        sorted_keys(entry_keys(self@))
    }

    pub open spec fn all(&self) -> Seq<SettlementReceipt> {
        entry_values(self@)
    }

    pub open spec fn find_spec(&self, id: Seq<char>) -> Option<SettlementReceipt> {
        lookup(self@, id)
    }

    pub open spec fn index_of(&self, id: Seq<char>) -> int {
        key_index(entry_keys(self@), id)
    }

    pub fn new() -> (r: ReceiptBook)
        ensures
            r@ == Seq::<(ReceiptId, SettlementReceipt)>::empty(),
            r.wf(),
    {
        ReceiptBook { receipts: Registry::new() }
    }

    /// Files a new receipt; an id already in the book is refused.
    pub fn insert(&mut self, receipt: SettlementReceipt) -> (r: SableResult<()>)
        requires
            old(self).wf(),
        ensures
            final(self).wf(),
            has_key(entry_keys(old(self)@), receipt.id@) ==> final(self)@ == old(self)@ && (
            r matches Err(SableError::DuplicateId(s)) && s@ == receipt.id@),
            !has_key(entry_keys(old(self)@), receipt.id@) ==> r is Ok && exists|p: int|
                0 <= p <= old(self)@.len() && final(self)@ == old(self)@.insert(
                    p,
                    (receipt.id, receipt),
                ),
    {
        let text = receipt.id.to_text();
        let key = receipt.id.duplicate();
        if self.receipts.insert_new(key, receipt) {
            Ok(())
        } else {
            Err(SableError::DuplicateId(text))
        }
    }

    pub fn get(&self, id: &ReceiptId) -> (r: SableResult<&SettlementReceipt>)
        requires
            self.wf(),
        ensures
            match self.find_spec(id@) {
                None => r == Err::<&SettlementReceipt, SableError>(
                    SableError::ReceiptNotFound(*id),
                ),
                Some(x) => r == Ok::<&SettlementReceipt, SableError>(&x),
            },
    {
        match self.receipts.find(id.as_str()) {
            Some(x) => Ok(x),
            None => Err(SableError::ReceiptNotFound(id.duplicate())),
        }
    }

    pub fn get_mut(&mut self, id: &ReceiptId) -> (r: SableResult<&mut SettlementReceipt>)
        requires
            old(self).wf(),
        ensures
            final(self).wf(),
            match r {
                Ok(x) => old(self).find_spec(id@) == Some(*x) && final(self)@ == old(self)@.update(
                    old(self).index_of(id@),
                    (old(self)@[old(self).index_of(id@)].0, *final(x)),
                ),
                Err(e) => old(self).find_spec(id@) is None && e == SableError::ReceiptNotFound(*id)
                    && final(self)@ == old(self)@,
            },
    {
        proof {
            self.lemma_update_keeps_order();
        }
        match self.receipts.find_mut(id.as_str()) {
            Some(x) => Ok(x),
            None => Err(SableError::ReceiptNotFound(id.duplicate())),
        }
    }

    proof fn lemma_update_keeps_order(&self)
        requires
            self.wf(),
        ensures
            forall|i: int, v: SettlementReceipt|
                0 <= i < self@.len() ==> sorted_keys(
                    #[trigger] entry_keys(self@.update(i, (self@[i].0, v))),
                ),
    {
        assert forall|i: int, v: SettlementReceipt| 0 <= i < self@.len() implies sorted_keys(
            #[trigger] entry_keys(self@.update(i, (self@[i].0, v))),
        ) by {
            lemma_lookup_after_update(self@, i, v, self@[i].0.key());
        }
    }

    /// Marks the receipt filed under `id` as matched, when it was just imported.
    pub fn mark_matched(&mut self, id: &ReceiptId) -> (r: SableResult<()>)
        requires
            old(self).wf(),
        ensures
            final(self).wf(),
            match old(self).find_spec(id@) {
                None => final(self)@ == old(self)@ && r == Err::<(), SableError>(
                    SableError::ReceiptNotFound(*id),
                ),
                Some(x) => r is Ok && final(self)@ == old(self)@.update(
                    old(self).index_of(id@),
                    (
                        old(self)@[old(self).index_of(id@)].0,
                        SettlementReceipt {
                            status: if x.status == ReceiptStatus::Imported {
                                ReceiptStatus::Matched
                            } else {
                                x.status
                            },
                            ..x
                        },
                    ),
                ),
            },
    {
        proof {
            self.lemma_update_keeps_order();
        }
        match self.receipts.find_mut(id.as_str()) {
            Some(x) => {
                x.mark_matched();
                Ok(())
            },
            None => Err(SableError::ReceiptNotFound(id.duplicate())),
        }
    }

    /// The receipts recorded for `invoice_id`, in id order.
    pub fn by_invoice(&self, invoice_id: &InvoiceId) -> (r: Vec<&SettlementReceipt>)
        ensures
            derefs(r@) == self.all().filter(|x: SettlementReceipt| x.invoice_id@ == invoice_id@),
    {
        let ghost pred = |x: SettlementReceipt| x.invoice_id@ == invoice_id@;
        let n = self.receipts.len();
        let mut r: Vec<&SettlementReceipt> = Vec::new();
        let mut i: usize = 0;
        while i < n
            invariant
                pred == (|x: SettlementReceipt| x.invoice_id@ == invoice_id@),
                n == self@.len(),
                i <= n,
                derefs(r@) == self.all().take(i as int).filter(pred),
            decreases n - i,
        {
            let x = self.receipts.value_at(i);
            assert(*x == self.all()[i as int]);
            proof {
                lemma_filter_take_step(self.all(), pred, i as int);
            }
            if x.invoice_id.same(invoice_id) {
                proof {
                    lemma_derefs_push(r@, x);
                }
                r.push(x);
            }
            i += 1;
        }
        proof {
            lemma_take_full(self.all());
        }
        r
    }

    /// The posted receipts recorded for `invoice_id`, in id order.
    pub fn posted_by_invoice(&self, invoice_id: &InvoiceId) -> (r: Vec<&SettlementReceipt>)
        ensures
            derefs(r@) == self.all().filter(
                |x: SettlementReceipt| x.invoice_id@ == invoice_id@ && x.status
                    == ReceiptStatus::Posted,
            ),
    {
        let ghost pred = |x: SettlementReceipt|
            x.invoice_id@ == invoice_id@ && x.status == ReceiptStatus::Posted;
        let n = self.receipts.len();
        let mut r: Vec<&SettlementReceipt> = Vec::new();
        let mut i: usize = 0;
        while i < n
            invariant
                pred == (|x: SettlementReceipt|
                    x.invoice_id@ == invoice_id@ && x.status == ReceiptStatus::Posted),
                n == self@.len(),
                i <= n,
                derefs(r@) == self.all().take(i as int).filter(pred),
            decreases n - i,
        {
            let x = self.receipts.value_at(i);
            assert(*x == self.all()[i as int]);
            proof {
                lemma_filter_take_step(self.all(), pred, i as int);
            }
            if x.invoice_id.same(invoice_id) && x.status == ReceiptStatus::Posted {
                proof {
                    lemma_derefs_push(r@, x);
                }
                r.push(x);
            }
            i += 1;
        }
        proof {
            lemma_take_full(self.all());
        }
        r
    }

    /// The receipts, in id order.
    pub fn values(&self) -> (r: Vec<&SettlementReceipt>)
        ensures
            derefs(r@) == self.all(),
    {
        let n = self.receipts.len();
        let mut r: Vec<&SettlementReceipt> = Vec::new();
        let mut i: usize = 0;
        while i < n
            invariant
                n == self@.len(),
                i <= n,
                derefs(r@) == self.all().take(i as int),
            decreases n - i,
        {
            let x = self.receipts.value_at(i);
            proof {
                lemma_derefs_push(r@, x);
                lemma_take_push(self.all(), i as int);
            }
            r.push(x);
            i += 1;
        }
        proof {
            lemma_take_full(self.all());
        }
        r
    }

    /// Sum of every receipt's amount, or `None` when it leaves `i64`.
    pub(crate) fn try_amount_total(&self) -> (r: Option<Money>)
        ensures
            running_sums_fit(receipt_values(self.all())) ==> r == Some(
                Money { cents: seq_sum(receipt_values(self.all())) as i64 },
            ),
            !running_sums_fit(receipt_values(self.all())) ==> r is None,
    {
        let ghost vals = receipt_values(self.all());
        let n = self.receipts.len();
        let mut acc: i64 = 0;
        let mut i: usize = 0;
        while i < n
            invariant
                n == self@.len(),
                vals == receipt_values(self.all()),
                i <= n,
                forall|k: nat| 1 <= k <= i ==> fits_i64(#[trigger] sum_first(vals, k)),
                acc == sum_first(vals, i as nat),
            decreases n - i,
        {
            let x = self.receipts.value_at(i);
            assert(*x == self.all()[i as int]);
            match acc.checked_add(x.amount.cents) {
                Some(s) => {
                    acc = s;
                },
                None => {
                    assert(!fits_i64(sum_first(vals, (i + 1) as nat)));
                    return None;
                },
            }
            i += 1;
        }
        assert(vals.len() == n);
        Some(Money { cents: acc })
    }

    pub fn len(&self) -> (r: usize)
        ensures
            r == self@.len(),
    {
        self.receipts.len()
    }

    pub fn is_empty(&self) -> (r: bool)
        ensures
            r == (self@.len() == 0),
    {
        self.receipts.len() == 0
    }
}

} // verus!
