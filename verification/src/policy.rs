//! Risk limits on settlement batches and on the period close.
use vstd::prelude::*;

use crate::amount::{money_text, running_sums_fit, seq_sum, Bps, Money};
use crate::error::{SableError, SableResult};
use crate::settlement::book::{active_claims, claim_amounts, SettlementBook};
use crate::settlement::model::{ClaimStatus, SettlementClaim};
use crate::text::{decimal, push_decimal};

verus! {

/// The verdict of a risk check.
#[derive(Clone, Debug, PartialEq, Eq)]
pub enum RiskDecision {
    Accepted,
    ReviewRequired(String),
    Rejected(String),
}

impl RiskDecision {
    pub fn is_accepted(&self) -> (r: bool)
        ensures
            r == (*self is Accepted),
    {
        matches!(self, RiskDecision::Accepted)
    }

    /// `Ok` when accepted; otherwise the reason, as a policy rejection.
    pub fn into_result(self) -> (r: SableResult<()>)
        ensures
            match self {
                RiskDecision::Accepted => r is Ok,
                RiskDecision::ReviewRequired(m) => r == Err::<(), SableError>(
                    SableError::PolicyRejected(m),
                ),
                RiskDecision::Rejected(m) => r == Err::<(), SableError>(
                    SableError::PolicyRejected(m),
                ),
            },
    {
        match self {
            RiskDecision::Accepted => Ok(()),
            RiskDecision::ReviewRequired(reason) => Err(SableError::PolicyRejected(reason)),
            RiskDecision::Rejected(reason) => Err(SableError::PolicyRejected(reason)),
        }
    }
}

/// Limits on what one settlement batch may carry.
#[derive(Clone, Copy, Debug, PartialEq, Eq, Structural)]
pub struct BatchPolicy {
    pub max_claims: usize,
    pub max_batch_amount: Money,
    pub review_threshold: Money,
}

/// The decision on a batch of `count` posted claims whose active claims total `amount`.
pub open spec fn batch_decision(policy: BatchPolicy, count: int, amount: int, r: RiskDecision) -> bool {
    &&& count > policy.max_claims ==> (r matches RiskDecision::Rejected(m) && m@ == "claim count "@
        + decimal(count as nat) + " exceeds policy"@)
    &&& count <= policy.max_claims && amount > policy.max_batch_amount@ ==> (r matches RiskDecision::Rejected(m)
        && m@ == "claim amount "@ + money_text(amount) + " exceeds policy"@)
    &&& count <= policy.max_claims && amount <= policy.max_batch_amount@ && amount
        > policy.review_threshold@ ==> (r matches RiskDecision::ReviewRequired(m) && m@
        == "claim amount "@ + money_text(amount) + " requires review"@)
    &&& count <= policy.max_claims && amount <= policy.max_batch_amount@ && amount
        <= policy.review_threshold@ ==> r == RiskDecision::Accepted
}

impl BatchPolicy {
    /// At most 250 claims and $5,000,000 per batch; review above $250,000.
    pub fn standard() -> (r: BatchPolicy)
        ensures
            r.max_claims == 250,
            r.max_batch_amount@ == 500_000_000,
            r.review_threshold@ == 25_000_000,
    {
        BatchPolicy {
            max_claims: 250,
            max_batch_amount: Money::dollars(5_000_000),
            review_threshold: Money::dollars(250_000),
        }
    }

    /// Checks the posted claim count and the active claim total of the book.
    pub fn evaluate(&self, settlement: &SettlementBook) -> (r: RiskDecision)
        requires
            running_sums_fit(claim_amounts(active_claims(settlement.all_claims()))),
        ensures
            batch_decision(
                *self,
                settlement.all_claims().filter(|c: SettlementClaim| c.status == ClaimStatus::Posted).len() as int,
                seq_sum(claim_amounts(active_claims(settlement.all_claims()))),
                r,
            ),
    {
        let count = settlement.posted_count();
        let amount = settlement.active_claim_total();
        if count > self.max_claims {
            let mut m = String::from_str("claim count ");
            push_decimal(&mut m, count as u128);
            m.append(" exceeds policy");
            return RiskDecision::Rejected(m);
        }
        if amount.cents > self.max_batch_amount.cents {
            let mut m = String::from_str("claim amount ");
            m.append(amount.format_major().as_str());
            m.append(" exceeds policy");
            return RiskDecision::Rejected(m);
        }
        if amount.cents > self.review_threshold.cents {
            let mut m = String::from_str("claim amount ");
            m.append(amount.format_major().as_str());
            m.append(" requires review");
            return RiskDecision::ReviewRequired(m);
        }
        RiskDecision::Accepted
    }
}

/// What the period close tolerates.
#[derive(Clone, Copy, Debug, PartialEq, Eq, Structural)]
pub struct ClosePolicy {
    pub allowed_receivable_drift_bps: Bps,
    pub require_balanced_trial: bool,
    pub allow_open_dispute_freeze: bool,
}

impl ClosePolicy {
    /// A drift of 10 bps, a balanced trial required, disputed claims may stay frozen.
    pub fn standard() -> (r: ClosePolicy)
        ensures
            r.allowed_receivable_drift_bps@ == 10,
            r.require_balanced_trial,
            r.allow_open_dispute_freeze,
    {
        let drift = match Bps::new(10) {
            Ok(b) => b,
            Err(_) => Bps::zero(),
        };
        ClosePolicy {
            allowed_receivable_drift_bps: drift,
            require_balanced_trial: true,
            allow_open_dispute_freeze: true,
        }
    }
}

/// The batch and close policies together.
#[derive(Clone, Copy, Debug, PartialEq, Eq, Structural)]
pub struct PolicySet {
    pub batch: BatchPolicy,
    pub close: ClosePolicy,
}

impl PolicySet {
    pub fn standard() -> (r: PolicySet)
        ensures
            r.batch.max_claims == 250,
            r.batch.max_batch_amount@ == 500_000_000,
            r.batch.review_threshold@ == 25_000_000,
            r.close.allowed_receivable_drift_bps@ == 10,
            r.close.require_balanced_trial,
            r.close.allow_open_dispute_freeze,
    {
        PolicySet { batch: BatchPolicy::standard(), close: ClosePolicy::standard() }
    }
}

} // verus!
