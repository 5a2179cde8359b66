//! The book of posted adjustments, and the flow that validates and posts one.
use vstd::prelude::*;

use crate::adjustments::model::{
    policy_accepts, validation_outcome, AdjustmentPolicy, AdjustmentSide, ManualAdjustment,
};
use crate::amount::{fits_i64, lemma_sum_insert, scaled, seq_sum, sum_first, Money};
use crate::error::{SableError, SableResult};
use crate::text::join3;
use crate::ids::{generated_text, AccountId, AdjustmentId, TxId};
use crate::invoice::book::InvoiceBook;
use crate::invoice::model::{
    credit_applied, credit_entry_safe, credit_outcome, debit_applied, debit_entry_safe,
    debit_outcome, entry_accepted, Invoice,
};
use crate::ids::InvoiceId;
use crate::keyed::{
    derefs, entry_keys, entry_values, has_key, lemma_derefs_push, lemma_take_full,
    lemma_take_push, lookup, same_text, sorted_keys, BookKey, Registry,
};
use crate::ledger::state::{
    effects_known, pair_effects, pair_ledger_effect, pair_missing, pair_safe, Ledger,
};

verus! {

/// The accounts an adjustment posts to, debited first: an allowance against the
/// receivable for a credit memo, the receivable against revenue for a debit memo.
pub open spec fn adjustment_accounts(
    side: AdjustmentSide,
    receivable: AccountId,
    revenue: AccountId,
    allowance: AccountId,
) -> (AccountId, AccountId) {
    match side {
        AdjustmentSide::CreditMemo => (allowance, receivable),
        AdjustmentSide::DebitMemo => (receivable, revenue),
    }
}

/// The invoice after the adjustment's memo is applied to it.
pub open spec fn memo_applied(inv: Invoice, adj: ManualAdjustment) -> Invoice {
    match adj.side {
        AdjustmentSide::CreditMemo => credit_applied(inv, adj.amount),
        AdjustmentSide::DebitMemo => debit_applied(inv, adj.amount),
    }
}

/// What applying the adjustment's memo to the invoice returns.
pub open spec fn memo_outcome(inv: Invoice, adj: ManualAdjustment, r: SableResult<()>) -> bool {
    match adj.side {
        AdjustmentSide::CreditMemo => credit_outcome(inv, adj.amount, r),
        AdjustmentSide::DebitMemo => debit_outcome(inv, adj.amount, r),
    }
}

/// Whether applying a memo of this side and amount keeps the invoice's balances within `i64`.
pub open spec fn side_entry_safe(inv: Invoice, side: AdjustmentSide, amount: Money) -> bool {
    match side {
        AdjustmentSide::CreditMemo => credit_entry_safe(inv, amount),
        AdjustmentSide::DebitMemo => debit_entry_safe(inv, amount),
    }
}

/// Whether applying and posting a memo of this side and amount stays within machine integers.
pub open spec fn memo_posting_safe(
    inv: Invoice,
    side: AdjustmentSide,
    amount: Money,
    ledger: Ledger,
    receivable: AccountId,
    revenue: AccountId,
    allowance: AccountId,
) -> bool {
    let accts = adjustment_accounts(side, receivable, revenue, allowance);
    &&& amount@ > 0 ==> fits_i64(inv.gross())
    &&& side_entry_safe(inv, side, amount)
    &&& pair_safe(ledger, accts.0, accts.1, amount)
}

/// Whether every step of applying the adjustment to this invoice and ledger stays
/// within machine integers.
pub open spec fn adjustment_safe(
    inv: Invoice,
    adj: ManualAdjustment,
    ledger: Ledger,
    receivable: AccountId,
    revenue: AccountId,
    allowance: AccountId,
) -> bool {
    memo_posting_safe(inv, adj.side, adj.amount, ledger, receivable, revenue, allowance)
}

/// Whether applying and posting a memo of this side and amount stays within machine integers.
pub fn memo_posting_fits(
    inv: &Invoice,
    side: AdjustmentSide,
    amount: Money,
    ledger: &Ledger,
    receivable: &AccountId,
    revenue: &AccountId,
    allowance: &AccountId,
) -> (r: bool)
    requires
        ledger.wf(),
    ensures
        r == memo_posting_safe(*inv, side, amount, *ledger, *receivable, *revenue, *allowance),
{
    let gross_ok = amount.cents <= 0 || inv.gross_fits_exec();
    match side {
        AdjustmentSide::CreditMemo => gross_ok && inv.credit_fits(amount) && ledger.pair_fits(
            allowance,
            receivable,
            amount,
        ),
        AdjustmentSide::DebitMemo => gross_ok && inv.debit_fits(amount) && ledger.pair_fits(
            receivable,
            revenue,
            amount,
        ),
    }
}

/// What filing the posted adjustment did to the book and returned.
pub open spec fn adjustment_filed(
    old_book: Seq<(AdjustmentId, ManualAdjustment)>,
    new_book: Seq<(AdjustmentId, ManualAdjustment)>,
    adj: ManualAdjustment,
    tx: Seq<char>,
    r: SableResult<()>,
) -> bool {
    &&& has_key(entry_keys(old_book), adj.id@) ==> new_book == old_book && (r matches Err(
        SableError::DuplicateId(s),
    ) && s@ == adj.id@)
    &&& !has_key(entry_keys(old_book), adj.id@) ==> r is Ok && exists|p: int, t: TxId|
        0 <= p <= old_book.len() && t@ == tx && new_book == old_book.insert(
            p,
            (adj.id, ManualAdjustment { journal_tx: Some(t), ..adj }),
        )
}

/// The most the adjustments filed against this invoice may add up to: its gross scaled
/// by the period limit.
pub open spec fn period_limit(policy: AdjustmentPolicy, inv: Invoice) -> int {
    scaled(inv.gross(), policy.max_period_bps@ as int, 10000)
}

/// What the policy lets be filed against an invoice in a period is the policy's period share
/// of the invoice's gross: the gross times the share in basis points over 10 000, rounded to
/// the nearest cent.
pub proof fn lemma_period_limit_share(policy: AdjustmentPolicy, inv: Invoice)
    ensures
        inv.gross() * (policy.max_period_bps@ as int) >= 0 ==> 2 * (inv.gross() * (
        policy.max_period_bps@ as int)) - 10000 < 2 * (period_limit(policy, inv) * 10000) <= 2 * (
        inv.gross() * (policy.max_period_bps@ as int)) + 10000,
        inv.gross() * (policy.max_period_bps@ as int) < 0 ==> 2 * (inv.gross() * (
        policy.max_period_bps@ as int)) - 10000 <= 2 * (period_limit(policy, inv) * 10000) < 2 * (
        inv.gross() * (policy.max_period_bps@ as int)) + 10000,
{
    crate::amount::lemma_scaled_nearest(inv.gross(), policy.max_period_bps@ as int, 10000);
}

/// The amount of each filed adjustment that counts against `invoice`: its own amount
/// when it was made against that invoice, nothing otherwise.
pub open spec fn filed_amounts(adjs: Seq<ManualAdjustment>, invoice: Seq<char>) -> Seq<int> {
    adjs.map_values(|a: ManualAdjustment| if a.invoice_id@ == invoice { a.amount@ as int } else { 0 })
}

/// What the adjustments filed against `invoice` add up to.
pub open spec fn filed_total(adjs: Seq<ManualAdjustment>, invoice: Seq<char>) -> int {
    seq_sum(filed_amounts(adjs, invoice))
}

/// Whether the adjustment keeps what is filed against its invoice within the period limit.
pub open spec fn period_accepts(
    policy: AdjustmentPolicy,
    inv: Invoice,
    filed: Seq<ManualAdjustment>,
    adj: ManualAdjustment,
) -> bool {
    &&& fits_i64(period_limit(policy, inv))
    &&& filed_total(filed, adj.invoice_id@) + adj.amount@ <= period_limit(policy, inv)
}

/// Filing one more adjustment adds its amount to what is filed against its invoice and
/// leaves every other invoice's total as it was.
pub proof fn lemma_filed_total_insert(
    s: Seq<(AdjustmentId, ManualAdjustment)>,
    p: int,
    e: (AdjustmentId, ManualAdjustment),
    invoice: Seq<char>,
)
    requires
        0 <= p <= s.len(),
    ensures
        filed_total(entry_values(s.insert(p, e)), invoice) == filed_total(entry_values(s), invoice)
            + if e.1.invoice_id@ == invoice { e.1.amount@ as int } else { 0 },
{
    let v = if e.1.invoice_id@ == invoice { e.1.amount@ as int } else { 0 };
    assert(filed_amounts(entry_values(s.insert(p, e)), invoice) =~= filed_amounts(
        entry_values(s),
        invoice,
    ).insert(p, v));
    lemma_sum_insert(filed_amounts(entry_values(s), invoice), p, v);
}

/// Whether applying the adjustment's memo to the invoice succeeds.
pub open spec fn memo_succeeds(inv: Invoice, adj: ManualAdjustment) -> bool {
    &&& entry_accepted(inv, adj.amount)
    &&& match adj.side {
        AdjustmentSide::CreditMemo => fits_i64(inv.credit_memos_applied@ + adj.amount@),
        AdjustmentSide::DebitMemo => fits_i64(inv.debit_memos_applied@ + adj.amount@),
    }
}

/// What applying a validated-or-refused adjustment to the invoice found at `idx`
/// did to the three books and returned: the policy is checked first, then the period
/// limit against the adjustments already filed for the invoice, then the
/// memo is applied to the invoice, then the entry is posted, then the adjustment
/// is filed with its transaction. A step that fails stops the flow and leaves
/// the later books as they were; earlier steps are not undone.
pub open spec fn adjustment_flow(
    old_book: Seq<(AdjustmentId, ManualAdjustment)>,
    new_book: Seq<(AdjustmentId, ManualAdjustment)>,
    old_invoices: Seq<(InvoiceId, Invoice)>,
    new_invoices: Seq<(InvoiceId, Invoice)>,
    old_ledger: Ledger,
    new_ledger: Ledger,
    idx: int,
    inv: Invoice,
    policy: AdjustmentPolicy,
    adj: ManualAdjustment,
    receivable: AccountId,
    revenue: AccountId,
    allowance: AccountId,
    r: SableResult<()>,
) -> bool {
    let accts = adjustment_accounts(adj.side, receivable, revenue, allowance);
    let effs = pair_effects(accts.0, accts.1, adj.amount);
    let accepted = policy_accepts(policy, inv, adj) && period_accepts(
        policy,
        inv,
        entry_values(old_book),
        adj,
    );
    &&& !policy_accepts(policy, inv, adj) ==> {
        &&& validation_outcome(policy, inv, adj, r)
        &&& new_book == old_book
        &&& new_invoices == old_invoices
        &&& new_ledger == old_ledger
    }
    &&& policy_accepts(policy, inv, adj) && !period_accepts(policy, inv, entry_values(old_book), adj)
        ==> {
        &&& !fits_i64(period_limit(policy, inv)) ==> r == Err::<(), SableError>(
            SableError::ArithmeticOverflow,
        )
        &&& fits_i64(period_limit(policy, inv)) ==> (r matches Err(SableError::PolicyRejected(msg))
            && msg@ == "adjustment "@ + adj.id@ + " exceeds period policy"@)
        &&& new_book == old_book
        &&& new_invoices == old_invoices
        &&& new_ledger == old_ledger
    }
    &&& accepted ==> new_invoices == old_invoices.update(
        idx,
        (old_invoices[idx].0, memo_applied(inv, adj)),
    )
    &&& accepted && !memo_succeeds(inv, adj) ==> {
        &&& memo_outcome(inv, adj, r)
        &&& new_book == old_book
        &&& new_ledger == old_ledger
    }
    &&& accepted && memo_succeeds(inv, adj) ==> {
        &&& pair_ledger_effect(old_ledger, new_ledger, accts.0, accts.1, adj.amount)
        &&& !effects_known(old_ledger.slots(), effs) ==> {
            &&& r == Err::<(), SableError>(
                SableError::AccountNotFound(pair_missing(old_ledger, accts.0, accts.1)),
            )
            &&& new_book == old_book
        }
        &&& effects_known(old_ledger.slots(), effs) ==> {
            &&& new_ledger.entries().last().day == adj.day
            &&& new_ledger.entries().last().invoice_id == Some(adj.invoice_id)
            &&& new_ledger.entries().last().source@ == "adjustment"@
            &&& adjustment_filed(
                old_book,
                new_book,
                adj,
                generated_text(TxId::prefix(), old_ledger.next_tx_spec()),
                r,
            )
        }
    }
}

/// An adjustment that goes through posts exactly one two-line entry for its amount: a debit
/// memo debits the receivable and credits revenue, a credit memo debits the allowance and
/// credits the receivable.
pub proof fn lemma_adjustment_posts_memo_entry(
    old_book: Seq<(AdjustmentId, ManualAdjustment)>,
    new_book: Seq<(AdjustmentId, ManualAdjustment)>,
    old_invoices: Seq<(InvoiceId, Invoice)>,
    new_invoices: Seq<(InvoiceId, Invoice)>,
    old_ledger: Ledger,
    new_ledger: Ledger,
    idx: int,
    inv: Invoice,
    policy: AdjustmentPolicy,
    adj: ManualAdjustment,
    receivable: AccountId,
    revenue: AccountId,
    allowance: AccountId,
    r: SableResult<()>,
)
    requires
        adjustment_flow(
            old_book,
            new_book,
            old_invoices,
            new_invoices,
            old_ledger,
            new_ledger,
            idx,
            inv,
            policy,
            adj,
            receivable,
            revenue,
            allowance,
            r,
        ),
        r is Ok,
    ensures
        new_ledger.entries().len() == old_ledger.entries().len() + 1,
        new_ledger.entries().drop_last() == old_ledger.entries(),
        new_ledger.entries().last().lines@.len() == 2,
        new_ledger.entries().last().lines@[0].debit == adj.amount,
        new_ledger.entries().last().lines@[0].credit@ == 0,
        new_ledger.entries().last().lines@[1].debit@ == 0,
        new_ledger.entries().last().lines@[1].credit == adj.amount,
        adj.side is DebitMemo ==> new_ledger.entries().last().lines@[0].account == receivable
            && new_ledger.entries().last().lines@[1].account == revenue,
        adj.side is CreditMemo ==> new_ledger.entries().last().lines@[0].account == allowance
            && new_ledger.entries().last().lines@[1].account == receivable,
{
}

/// The adjustments of the desk that have been posted, in id order.
pub struct AdjustmentBook {
    adjustments: Registry<AdjustmentId, ManualAdjustment>,
}

impl View for AdjustmentBook {
    type V = Seq<(AdjustmentId, ManualAdjustment)>;

    closed spec fn view(&self) -> Seq<(AdjustmentId, ManualAdjustment)> {
        self.adjustments.entries()
    }
}

impl AdjustmentBook {
    pub open spec fn wf(&self) -> bool {
        sorted_keys(entry_keys(self@))
    }

    pub open spec fn all(&self) -> Seq<ManualAdjustment> {
        entry_values(self@)
    }

    pub open spec fn find_spec(&self, id: Seq<char>) -> Option<ManualAdjustment> {
        lookup(self@, id)
    }

    pub fn new() -> (r: AdjustmentBook)
        ensures
            r@ == Seq::<(AdjustmentId, ManualAdjustment)>::empty(),
            r.wf(),
    {
        AdjustmentBook { adjustments: Registry::new() }
    }

    /// Files an adjustment; an id already in the book is refused.
    pub fn insert(&mut self, adjustment: ManualAdjustment) -> (r: SableResult<()>)
        requires
            old(self).wf(),
        ensures
            final(self).wf(),
            has_key(entry_keys(old(self)@), adjustment.id@) ==> final(self)@ == old(self)@ && (
            r matches Err(SableError::DuplicateId(s)) && s@ == adjustment.id@),
            !has_key(entry_keys(old(self)@), adjustment.id@) ==> r is Ok && exists|p: int|
                0 <= p <= old(self)@.len() && final(self)@ == old(self)@.insert(
                    p,
                    (adjustment.id, adjustment),
                ),
    {
        let text = adjustment.id.to_text();
        let key = adjustment.id.duplicate();
        if self.adjustments.insert_new(key, adjustment) {
            Ok(())
        } else {
            Err(SableError::DuplicateId(text))
        }
    }

    pub fn get(&self, id: &AdjustmentId) -> (r: SableResult<&ManualAdjustment>)
        requires
            self.wf(),
        ensures
            match self.find_spec(id@) {
                None => r == Err::<&ManualAdjustment, SableError>(
                    SableError::AdjustmentNotFound(*id),
                ),
                Some(x) => r == Ok::<&ManualAdjustment, SableError>(&x),
            },
    {
        match self.adjustments.find(id.as_str()) {
            Some(x) => Ok(x),
            None => Err(SableError::AdjustmentNotFound(id.duplicate())),
        }
    }

    /// The adjustments, in id order.
    pub fn values(&self) -> (r: Vec<&ManualAdjustment>)
        ensures
            derefs(r@) == self.all(),
    {
        let n = self.adjustments.len();
        let mut r: Vec<&ManualAdjustment> = Vec::new();
        let mut i: usize = 0;
        while i < n
            invariant
                n == self@.len(),
                i <= n,
                derefs(r@) == self.all().take(i as int),
            decreases n - i,
        {
            let x = self.adjustments.value_at(i);
            proof {
                lemma_derefs_push(r@, x);
                lemma_take_push(self.all(), i as int);
            }
            r.push(x);
            i = i + 1;
        }
        proof {
            lemma_take_full(self.all());
        }
        r
    }

    /// Validates the adjustment against the policy, refuses it when the adjustments filed
    /// against its invoice would pass the period limit, applies its memo to the invoice,
    /// posts the matching journal entry and files the adjustment with its transaction.
    pub fn apply(
        &mut self,
        adjustment: ManualAdjustment,
        policy: &AdjustmentPolicy,
        invoices: &mut InvoiceBook,
        ledger: &mut Ledger,
        receivable_account: AccountId,
        revenue_account: AccountId,
        allowance_account: AccountId,
    ) -> (r: SableResult<()>)
        requires
            old(self).wf(),
            old(invoices).wf(),
            old(ledger).wf(),
            old(invoices).find_spec(adjustment.invoice_id@) matches Some(inv) ==> adjustment_safe(
                inv,
                adjustment,
                *old(ledger),
                receivable_account,
                revenue_account,
                allowance_account,
            ),
        ensures
            final(self).wf(),
            final(invoices).wf(),
            final(ledger).wf(),
            match old(invoices).find_spec(adjustment.invoice_id@) {
                None => {
                    &&& r == Err::<(), SableError>(
                        SableError::InvoiceNotFound(adjustment.invoice_id),
                    )
                    &&& final(self)@ == old(self)@
                    &&& final(invoices)@ == old(invoices)@
                    &&& *final(ledger) == *old(ledger)
                },
                Some(inv) => adjustment_flow(
                    old(self)@,
                    final(self)@,
                    old(invoices)@,
                    final(invoices)@,
                    *old(ledger),
                    *final(ledger),
                    old(invoices).index_of(adjustment.invoice_id@),
                    inv,
                    *policy,
                    adjustment,
                    receivable_account,
                    revenue_account,
                    allowance_account,
                    r,
                ),
            },
            r is Ok ==> (old(invoices).find_spec(adjustment.invoice_id@) matches Some(inv) && filed_total(
                final(self).all(),
                adjustment.invoice_id@,
            ) == filed_total(old(self).all(), adjustment.invoice_id@) + adjustment.amount@ && filed_total(
                final(self).all(),
                adjustment.invoice_id@,
            ) <= period_limit(*policy, inv)),
            r is Ok ==> forall|k: Seq<char>|
                k != adjustment.invoice_id@ ==> #[trigger] filed_total(final(self).all(), k) == filed_total(
                    old(self).all(),
                    k,
                ),
    {
        let valid = match invoices.get(&adjustment.invoice_id) {
            Ok(inv) => policy.validate(inv, &adjustment),
            Err(e) => Err(e),
        };
        if let Err(e) = valid {
            return Err(e);
        }
        let limit = match invoices.get(&adjustment.invoice_id) {
            Ok(inv) => inv.gross_obligation().apply_bps(policy.max_period_bps),
            Err(e) => Err(e),
        };
        let limit = match limit {
            Ok(m) => m,
            Err(e) => {
                return Err(e);
            },
        };
        let filed = self.filed_against(&adjustment.invoice_id);
        if filed > (limit.cents as i128) - (adjustment.amount.cents as i128) {
            return Err(
                SableError::PolicyRejected(
                    join3("adjustment ", adjustment.id.as_str(), " exceeds period policy"),
                ),
            );
        }
        let mut adjustment = adjustment;
        let tx_id = match adjustment.side {
            AdjustmentSide::CreditMemo => {
                invoices.apply_credit_memo(&adjustment.invoice_id, adjustment.amount)?;
                ledger.post_credit_memo(
                    adjustment.day,
                    adjustment.invoice_id.duplicate(),
                    receivable_account,
                    allowance_account,
                    adjustment.amount,
                )?
            },
            AdjustmentSide::DebitMemo => {
                invoices.apply_debit_memo(&adjustment.invoice_id, adjustment.amount)?;
                ledger.post_debit_memo(
                    adjustment.day,
                    adjustment.invoice_id.duplicate(),
                    receivable_account,
                    revenue_account,
                    adjustment.amount,
                )?
            },
        };
        adjustment.mark_posted(tx_id);
        let ghost filed = adjustment;
        let r = self.insert(adjustment);
        proof {
            if r is Ok {
                let p = choose|p: int|
                    0 <= p <= old(self)@.len() && self@ == old(self)@.insert(p, (filed.id, filed));
                assert forall|k: Seq<char>| #[trigger] filed_total(self.all(), k) == filed_total(old(self).all(), k)
                    + if k == filed.invoice_id@ { filed.amount@ as int } else { 0 } by {
                    lemma_filed_total_insert(old(self)@, p, (filed.id, filed), k);
                }
            }
        }
        r
    }

    /// What the adjustments filed against `invoice_id` add up to.
    pub fn filed_against(&self, invoice_id: &InvoiceId) -> (r: i128)
        ensures
            r == filed_total(self.all(), invoice_id@),
    {
        let n = self.adjustments.len();
        let ghost amounts = filed_amounts(self.all(), invoice_id@);
        let mut total: i128 = 0;
        let mut i: usize = 0;
        while i < n
            invariant
                n == self@.len(),
                amounts == filed_amounts(self.all(), invoice_id@),
                amounts.len() == n,
                i <= n,
                total == sum_first(amounts, i as nat),
                -(i as int) * 0x8000_0000_0000_0000 <= total <= (i as int) * 0x8000_0000_0000_0000,
            decreases n - i,
        {
            let a = self.adjustments.value_at(i);
            assert(*a == self.all()[i as int]);
            assert(amounts[i as int] == if a.invoice_id@ == invoice_id@ { a.amount@ as int } else { 0 });
            let add: i128 = if same_text(a.invoice_id.key_str(), invoice_id.key_str()) {
                a.amount.cents as i128
            } else {
                0
            };
            assert((i as int) * 0x8000_0000_0000_0000 + 0x8000_0000_0000_0000 == (i as int + 1) * 0x8000_0000_0000_0000);
            assert((i as int + 1) * 0x8000_0000_0000_0000 <= 0x8000_0000_0000_0000 * 0x1_0000_0000_0000_0000) by (nonlinear_arith)
                requires
                    i < n,
                    n <= usize::MAX,
            ;
            total = total + add;
            i = i + 1;
        }
        assert(sum_first(amounts, n as nat) == seq_sum(amounts));
        total
    }

    pub fn len(&self) -> (r: usize)
        ensures
            r == self@.len(),
    {
        self.adjustments.len()
    }

    pub fn is_empty(&self) -> (r: bool)
        ensures
            r == (self@.len() == 0),
    {
        self.adjustments.len() == 0
    }
}

} // verus!
