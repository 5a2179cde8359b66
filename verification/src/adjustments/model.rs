//! Manual adjustments to invoices and the policy that bounds them.
use vstd::prelude::*;

use crate::amount::{fits_i64, scaled, Bps, Money};
use crate::error::{SableError, SableResult};
use crate::ids::{AdjustmentId, InvoiceId, PartyId, TxId};
use crate::invoice::model::Invoice;
use crate::keyed::{same_text, BookKey};
use crate::text::join3;

verus! {

/// Why an adjustment was made.
#[derive(Clone, Copy, Debug, PartialEq, Eq, Structural, Hash)]
pub enum AdjustmentReason {
    FreightVariance,
    TaxRounding,
    ServiceCredit,
    ContractRebate,
    ProcessorFeeTrueUp,
    ManualReview,
}

/// Whether an adjustment lowers (credit memo) or raises (debit memo) what is owed.
#[derive(Clone, Copy, Debug, PartialEq, Eq, Structural, Hash)]
pub enum AdjustmentSide {
    CreditMemo,
    DebitMemo,
}

/// Limits on manual adjustments.
#[derive(Clone, Copy, Debug, PartialEq, Eq, Structural)]
pub struct AdjustmentPolicy {
    pub max_single_bps: Bps,
    pub max_period_bps: Bps,
    pub require_dual_approval: bool,
}

/// A manual credit or debit memo against an invoice.
#[derive(Clone, Debug, PartialEq, Eq)]
pub struct ManualAdjustment {
    pub id: AdjustmentId,
    pub invoice_id: InvoiceId,
    pub side: AdjustmentSide,
    pub reason: AdjustmentReason,
    pub amount: Money,
    pub created_by: PartyId,
    pub approved_by: Option<PartyId>,
    pub day: u32,
    pub memo: String,
    pub journal_tx: Option<TxId>,
}

/// The most a single adjustment may be on this invoice: its gross scaled by the limit.
pub open spec fn single_limit(policy: AdjustmentPolicy, inv: Invoice) -> int {
    scaled(inv.gross(), policy.max_single_bps@ as int, 10000)
}

/// The largest single adjustment the policy allows on an invoice is the policy's share of the
/// invoice's gross: the gross times the share in basis points over 10 000, rounded to the
/// nearest cent.
pub proof fn lemma_single_limit_share(policy: AdjustmentPolicy, inv: Invoice)
    ensures
        inv.gross() * (policy.max_single_bps@ as int) >= 0 ==> 2 * (inv.gross() * (
        policy.max_single_bps@ as int)) - 10000 < 2 * (single_limit(policy, inv) * 10000) <= 2 * (
        inv.gross() * (policy.max_single_bps@ as int)) + 10000,
        inv.gross() * (policy.max_single_bps@ as int) < 0 ==> 2 * (inv.gross() * (
        policy.max_single_bps@ as int)) - 10000 <= 2 * (single_limit(policy, inv) * 10000) < 2 * (
        inv.gross() * (policy.max_single_bps@ as int)) + 10000,
{
    crate::amount::lemma_scaled_nearest(inv.gross(), policy.max_single_bps@ as int, 10000);
}

/// Whether the policy accepts the adjustment on this invoice.
pub open spec fn policy_accepts(policy: AdjustmentPolicy, inv: Invoice, adj: ManualAdjustment) -> bool {
    &&& adj.amount@ > 0
    &&& fits_i64(single_limit(policy, inv))
    &&& adj.amount@ <= single_limit(policy, inv)
    &&& !(policy.require_dual_approval && !independently_approved(adj))
}

/// Whether the adjustment carries an approver other than the party that created it.
pub open spec fn independently_approved(adj: ManualAdjustment) -> bool {
    adj.approved_by matches Some(a) && a@ != adj.created_by@
}

/// What validating the adjustment against the policy returns.
pub open spec fn validation_outcome(
    policy: AdjustmentPolicy,
    inv: Invoice,
    adj: ManualAdjustment,
    r: SableResult<()>,
) -> bool {
    &&& adj.amount@ <= 0 ==> (r matches Err(SableError::PolicyRejected(msg)) && msg@
        == "adjustment amount must be positive"@)
    &&& adj.amount@ > 0 && !fits_i64(single_limit(policy, inv)) ==> r == Err::<(), SableError>(
        SableError::ArithmeticOverflow,
    )
    &&& adj.amount@ > 0 && fits_i64(single_limit(policy, inv)) && adj.amount@ > single_limit(
        policy,
        inv,
    ) ==> (r matches Err(SableError::PolicyRejected(msg)) && msg@ == "adjustment "@ + adj.id@
        + " exceeds single-entry policy"@)
    &&& adj.amount@ > 0 && fits_i64(single_limit(policy, inv)) && adj.amount@ <= single_limit(
        policy,
        inv,
    ) && policy.require_dual_approval && adj.approved_by is None ==> (r matches Err(
        SableError::PolicyRejected(msg),
    ) && msg@ == "adjustment "@ + adj.id@ + " requires approval"@)
    &&& adj.amount@ > 0 && fits_i64(single_limit(policy, inv)) && adj.amount@ <= single_limit(
        policy,
        inv,
    ) && policy.require_dual_approval && adj.approved_by is Some && !independently_approved(adj)
        ==> (r matches Err(SableError::PolicyRejected(msg)) && msg@ == "adjustment "@ + adj.id@
        + " cannot be approved by its creator"@)
    &&& policy_accepts(policy, inv, adj) ==> r is Ok
}

impl AdjustmentPolicy {
    /// At most 2.5% of the gross per adjustment and 5% per period, with dual approval.
    pub fn conservative() -> (r: AdjustmentPolicy)
        ensures
            r.max_single_bps@ == 250,
            r.max_period_bps@ == 500,
            r.require_dual_approval,
    {
        let single = match Bps::new(250) {
            Ok(b) => b,
            Err(_) => Bps::zero(),
        };
        let period = match Bps::new(500) {
            Ok(b) => b,
            Err(_) => Bps::zero(),
        };
        AdjustmentPolicy { max_single_bps: single, max_period_bps: period, require_dual_approval: true }
    }

    /// Checks the adjustment against the policy.
    pub fn validate(&self, invoice: &Invoice, adjustment: &ManualAdjustment) -> (r: SableResult<()>)
        requires
            adjustment.amount@ > 0 ==> fits_i64(invoice.gross()),
        ensures
            validation_outcome(*self, *invoice, *adjustment, r),
    {
        if adjustment.amount.cents() <= 0 {
            return Err(
                SableError::PolicyRejected(String::from_str("adjustment amount must be positive")),
            );
        }
        let max_amount = invoice.gross_obligation().apply_bps(self.max_single_bps)?;
        if adjustment.amount.cents > max_amount.cents {
            return Err(
                SableError::PolicyRejected(
                    join3("adjustment ", adjustment.id.as_str(), " exceeds single-entry policy"),
                ),
            );
        }
        if self.require_dual_approval {
            match &adjustment.approved_by {
                None => {
                    return Err(
                        SableError::PolicyRejected(
                            join3("adjustment ", adjustment.id.as_str(), " requires approval"),
                        ),
                    );
                },
                Some(approver) => {
                    if same_text(approver.key_str(), adjustment.created_by.key_str()) {
                        return Err(
                            SableError::PolicyRejected(
                                join3(
                                    "adjustment ",
                                    adjustment.id.as_str(),
                                    " cannot be approved by its creator",
                                ),
                            ),
                        );
                    }
                },
            }
        }
        Ok(())
    }
}

impl ManualAdjustment {
    /// An unapproved credit memo with an empty memo text.
    pub fn credit(
        id: AdjustmentId,
        invoice_id: InvoiceId,
        reason: AdjustmentReason,
        amount: Money,
        created_by: PartyId,
        day: u32,
    ) -> (r: ManualAdjustment)
        ensures
            r == (ManualAdjustment {
                id,
                invoice_id,
                side: AdjustmentSide::CreditMemo,
                reason,
                amount,
                created_by,
                approved_by: None,
                day,
                memo: r.memo,
                journal_tx: None,
            }),
            r.memo@ == Seq::<char>::empty(),
    {
        ManualAdjustment {
            id,
            invoice_id,
            side: AdjustmentSide::CreditMemo,
            reason,
            amount,
            created_by,
            approved_by: None,
            day,
            memo: String::new(),
            journal_tx: None,
        }
    }

    /// An unapproved debit memo with an empty memo text.
    pub fn debit(
        id: AdjustmentId,
        invoice_id: InvoiceId,
        reason: AdjustmentReason,
        amount: Money,
        created_by: PartyId,
        day: u32,
    ) -> (r: ManualAdjustment)
        ensures
            r == (ManualAdjustment {
                id,
                invoice_id,
                side: AdjustmentSide::DebitMemo,
                reason,
                amount,
                created_by,
                approved_by: None,
                day,
                memo: r.memo,
                journal_tx: None,
            }),
            r.memo@ == Seq::<char>::empty(),
    {
        ManualAdjustment {
            id,
            invoice_id,
            side: AdjustmentSide::DebitMemo,
            reason,
            amount,
            created_by,
            approved_by: None,
            day,
            memo: String::new(),
            journal_tx: None,
        }
    }

    pub fn approve(self, approver: PartyId) -> (r: ManualAdjustment)
        ensures
            r == (ManualAdjustment { approved_by: Some(approver), ..self }),
    {
        ManualAdjustment { approved_by: Some(approver), ..self }
    }

    pub fn with_memo(self, memo: String) -> (r: ManualAdjustment)
        ensures
            r == (ManualAdjustment { memo, ..self }),
    {
        ManualAdjustment { memo, ..self }
    }

    pub fn mark_posted(&mut self, tx_id: TxId)
        ensures
            *final(self) == (ManualAdjustment { journal_tx: Some(tx_id), ..*old(self) }),
    {
        self.journal_tx = Some(tx_id);
    }
}

} // verus!
