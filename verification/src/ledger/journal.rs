//! Journal lines and entries.
use vstd::prelude::*;

use crate::amount::{fits_i64, running_sums_fit, seq_sum, sum_first, Money};
use crate::ids::{AccountId, BatchId, InvoiceId, ReceiptId, TxId};

verus! {

/// One side of a journal entry on one account.
#[derive(Clone, Debug, PartialEq, Eq)]
pub struct JournalLine {
    pub account: AccountId,
    pub debit: Money,
    pub credit: Money,
    pub memo: String,
}

impl JournalLine {
    pub fn debit(account: AccountId, amount: Money, memo: String) -> (r: JournalLine)
        ensures
            r == (JournalLine { account, debit: amount, credit: Money { cents: 0 }, memo }),
    {
        JournalLine { account, debit: amount, credit: Money::zero(), memo }
    }

    pub fn credit(account: AccountId, amount: Money, memo: String) -> (r: JournalLine)
        ensures
            r == (JournalLine { account, debit: Money { cents: 0 }, credit: amount, memo }),
    {
        JournalLine { account, debit: Money::zero(), credit: amount, memo }
    }

    /// What the line does to its account's balance: debit less credit.
    pub open spec fn effect(self) -> int {
        self.debit@ - self.credit@
    }

    pub fn signed_effect(&self) -> (r: Money)
        requires
            fits_i64(self.effect()),
        ensures
            r@ == self.effect(),
    {
        Money { cents: self.debit.cents - self.credit.cents }
    }
}

pub open spec fn line_debits(lines: Seq<JournalLine>) -> Seq<int> {
    lines.map_values(|l: JournalLine| l.debit@)
}

pub open spec fn line_credits(lines: Seq<JournalLine>) -> Seq<int> {
    lines.map_values(|l: JournalLine| l.credit@)
}

/// A dated, sourced set of journal lines.
#[derive(Clone, Debug, PartialEq, Eq)]
pub struct JournalEntry {
    pub tx_id: TxId,
    pub day: u32,
    pub batch_id: Option<BatchId>,
    pub invoice_id: Option<InvoiceId>,
    pub receipt_id: Option<ReceiptId>,
    pub source: String,
    pub memo: String,
    pub lines: Vec<JournalLine>,
}

impl JournalEntry {
    /// Whether the entry's debits equal its credits.
    pub open spec fn balanced(self) -> bool {
        seq_sum(line_debits(self.lines@)) == seq_sum(line_credits(self.lines@))
    }

    pub fn new(tx_id: TxId, day: u32, source: String, memo: String) -> (r: JournalEntry)
        ensures
            r == (JournalEntry {
                tx_id,
                day,
                batch_id: None,
                invoice_id: None,
                receipt_id: None,
                source,
                memo,
                lines: r.lines,
            }),
            r.lines@.len() == 0,
    {
        JournalEntry {
            tx_id,
            day,
            batch_id: None,
            invoice_id: None,
            receipt_id: None,
            source,
            memo,
            lines: Vec::new(),
        }
    }

    pub fn for_invoice(self, invoice_id: InvoiceId) -> (r: JournalEntry)
        ensures
            r == (JournalEntry { invoice_id: Some(invoice_id), ..self }),
    {
        JournalEntry { invoice_id: Some(invoice_id), ..self }
    }

    pub fn for_receipt(self, receipt_id: ReceiptId) -> (r: JournalEntry)
        ensures
            r == (JournalEntry { receipt_id: Some(receipt_id), ..self }),
    {
        JournalEntry { receipt_id: Some(receipt_id), ..self }
    }

    pub fn in_batch(self, batch_id: BatchId) -> (r: JournalEntry)
        ensures
            r == (JournalEntry { batch_id: Some(batch_id), ..self }),
    {
        JournalEntry { batch_id: Some(batch_id), ..self }
    }

    pub fn with_line(self, line: JournalLine) -> (r: JournalEntry)
        ensures
            r == (JournalEntry { lines: r.lines, ..self }),
            r.lines@ == self.lines@.push(line),
    {
        let mut e = self;
        e.lines.push(line);
        e
    }

    pub fn total_debits(&self) -> (r: Money)
        requires
            running_sums_fit(line_debits(self.lines@)),
        ensures
            r@ == seq_sum(line_debits(self.lines@)),
    {
        let ghost vals = line_debits(self.lines@);
        let n = self.lines.len();
        let mut acc: i64 = 0;
        let mut i: usize = 0;
        while i < n
            invariant
                n == self.lines@.len(),
                vals == line_debits(self.lines@),
                running_sums_fit(vals),
                i <= n,
                acc == sum_first(vals, i as nat),
            decreases n - i,
        {
            assert(fits_i64(sum_first(vals, (i + 1) as nat)));
            acc = acc + self.lines[i].debit.cents;
            i += 1;
        }
        Money { cents: acc }
    }

    pub fn total_credits(&self) -> (r: Money)
        requires
            running_sums_fit(line_credits(self.lines@)),
        ensures
            r@ == seq_sum(line_credits(self.lines@)),
    {
        let ghost vals = line_credits(self.lines@);
        let n = self.lines.len();
        let mut acc: i64 = 0;
        let mut i: usize = 0;
        while i < n
            invariant
                n == self.lines@.len(),
                vals == line_credits(self.lines@),
                running_sums_fit(vals),
                i <= n,
                acc == sum_first(vals, i as nat),
            decreases n - i,
        {
            assert(fits_i64(sum_first(vals, (i + 1) as nat)));
            acc = acc + self.lines[i].credit.cents;
            i += 1;
        }
        Money { cents: acc }
    }
}

} // verus!
