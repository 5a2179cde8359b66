//! Aging, statement and exposure reports over the books.
use vstd::prelude::*;

use crate::amount::{
    fits_i64, lemma_prefix_overflows, lemma_push_running, running_sums_fit, seq_sum, sum_first,
    Money,
};
use crate::codec::{
    json_array, json_money, json_object, json_opt_nat, json_string, lemma_texts_push,
    push_json_array, push_json_money, push_json_object, push_json_opt_nat, push_json_string,
};
use crate::ids::{InvoiceId, PartyId};
use crate::text::{decimal, push_decimal};
use crate::invoice::book::{
    accounting_opens, accounting_total_ok, gross_total_ok, grosses, memo_total_ok, net_memos,
    presentation_opens, presentation_total_ok, receipt_amounts, InvoiceBook,
};
use crate::invoice::model::{invoice_status_name, Invoice, InvoiceStatus};
use crate::receipts::book::{receipt_values, ReceiptBook};
use crate::settlement::book::{active_claims, claim_amounts, frozen_claims, SettlementBook};
use crate::keyed::{derefs, lemma_filter_split, lemma_filter_take_step, lemma_take_full, BookKey};

verus! {

/// Whether an invoice is aged at all: drafts and voided invoices are not.
pub open spec fn aged(inv: Invoice) -> bool {
    !(inv.status == InvoiceStatus::Voided || inv.status == InvoiceStatus::Draft)
}

/// Days past the due day on `day`, zero before it.
pub open spec fn past_due(inv: Invoice, day: u32) -> int {
    if day > inv.due_day {
        day - inv.due_day
    } else {
        0
    }
}

/// The band that `days` past due fall in: current, 1-30, 31-60, 61-90, over 90.
pub open spec fn band_of(days: int) -> int {
    if days <= 0 {
        0
    } else if days <= 30 {
        1
    } else if days <= 60 {
        2
    } else if days <= 90 {
        3
    } else {
        4
    }
}

/// The day bounds of the standard band `k`.
pub open spec fn band_bounds(k: int) -> (u32, Option<u32>) {
    if k == 0 {
        (0, Some(0u32))
    } else if k == 1 {
        (1, Some(30u32))
    } else if k == 2 {
        (31, Some(60u32))
    } else if k == 3 {
        (61, Some(90u32))
    } else {
        (91, None)
    }
}

/// The label of the standard band `k`.
pub open spec fn band_label(k: int) -> Seq<char> {
    if k == 0 {
        "current"@
    } else if k == 1 {
        "1-30"@
    } else if k == 2 {
        "31-60"@
    } else if k == 3 {
        "61-90"@
    } else {
        "90+"@
    }
}

/// Whether an invoice is aged into band `k` on `as_of`.
pub open spec fn in_band(as_of: u32, k: int) -> spec_fn(Invoice) -> bool {
    |inv: Invoice| aged(inv) && band_of(past_due(inv, as_of)) == k
}

/// The invoices aged into band `k`, in book order.
pub open spec fn band_members(invs: Seq<Invoice>, as_of: u32, k: int) -> Seq<Invoice> {
    invs.filter(in_band(as_of, k))
}

/// The open accounting amounts of band `k`.
pub open spec fn band_accounting(invs: Seq<Invoice>, as_of: u32, k: int) -> Seq<int> {
    accounting_opens(band_members(invs, as_of, k))
}

/// The open presentation amounts of band `k`.
pub open spec fn band_presentation(invs: Seq<Invoice>, as_of: u32, k: int) -> Seq<int> {
    presentation_opens(band_members(invs, as_of, k))
}

/// The accounting total of each of the five bands.
pub open spec fn band_accounting_totals(invs: Seq<Invoice>, as_of: u32) -> Seq<int> {
    Seq::new(5, |k: int| seq_sum(band_accounting(invs, as_of, k)))
}

/// The presentation total of each of the five bands.
pub open spec fn band_presentation_totals(invs: Seq<Invoice>, as_of: u32) -> Seq<int> {
    Seq::new(5, |k: int| seq_sum(band_presentation(invs, as_of, k)))
}

/// Whether the aging of these invoices can be computed in `i64`.
pub open spec fn aging_ok(invs: Seq<Invoice>, as_of: u32) -> bool {
    &&& forall|i: int| 0 <= i < invs.len() && aged(invs[i]) ==> (#[trigger] invs[i]).amounts_fit()
    &&& forall|k: int|
        0 <= k < 5 ==> running_sums_fit(#[trigger] band_accounting(invs, as_of, k))
            && running_sums_fit(band_presentation(invs, as_of, k))
    &&& running_sums_fit(band_accounting_totals(invs, as_of))
    &&& running_sums_fit(band_presentation_totals(invs, as_of))
}

/// Invoices of one aging band and what is open on them.
#[derive(Clone, Debug, PartialEq, Eq)]
pub struct AgingBand {
    pub label: String,
    pub min_days: u32,
    pub max_days: Option<u32>,
    pub invoice_count: usize,
    pub accounting_total: Money,
    pub presentation_total: Money,
}

/// Whether band `b` is the standard band `k` holding exactly its share of `invs`.
pub open spec fn band_holds(b: AgingBand, invs: Seq<Invoice>, as_of: u32, k: int) -> bool {
    &&& b.label@ == band_label(k)
    &&& (b.min_days, b.max_days) == band_bounds(k)
    &&& b.invoice_count == band_members(invs, as_of, k).len()
    &&& b.accounting_total@ == seq_sum(band_accounting(invs, as_of, k))
    &&& b.presentation_total@ == seq_sum(band_presentation(invs, as_of, k))
}

impl AgingBand {
    /// An empty band for ages from `min_days` up to `max_days`, unbounded when `None`.
    pub fn new(label: String, min_days: u32, max_days: Option<u32>) -> (r: AgingBand)
        ensures
            r.label == label,
            r.min_days == min_days,
            r.max_days == max_days,
            r.invoice_count == 0,
            r.accounting_total@ == 0,
            r.presentation_total@ == 0,
    {
        AgingBand {
            label,
            min_days,
            max_days,
            invoice_count: 0,
            accounting_total: Money::zero(),
            presentation_total: Money::zero(),
        }
    }

    pub open spec fn accepts_spec(&self, days: int) -> bool {
        days >= self.min_days && (self.max_days matches Some(m) ==> days <= m)
    }

    /// Whether an invoice `days` past due belongs in the band.
    pub fn accepts(&self, days: u32) -> (r: bool)
        ensures
            r == self.accepts_spec(days as int),
    {
        days >= self.min_days && match self.max_days {
            Some(max) => days <= max,
            None => true,
        }
    }

    /// Counts the invoice in the band and adds what is open on it.
    pub fn add(&mut self, invoice: &Invoice)
        requires
            old(self).invoice_count < usize::MAX,
            invoice.amounts_fit(),
            fits_i64(old(self).accounting_total@ + invoice.accounting_open()),
            fits_i64(old(self).presentation_total@ + invoice.presentation_open()),
        ensures
            final(self).label == old(self).label,
            final(self).min_days == old(self).min_days,
            final(self).max_days == old(self).max_days,
            final(self).invoice_count == old(self).invoice_count + 1,
            final(self).accounting_total@ == old(self).accounting_total@ + invoice.accounting_open(),
            final(self).presentation_total@ == old(self).presentation_total@
                + invoice.presentation_open(),
    {
        self.invoice_count = self.invoice_count + 1;
        let a = invoice.accounting_outstanding();
        let p = invoice.presentation_outstanding();
        self.accounting_total = Money { cents: self.accounting_total.cents + a.cents };
        self.presentation_total = Money { cents: self.presentation_total.cents + p.cents };
    }
}

/// Membership of band `k` after one more invoice is looked at.
proof fn lemma_band_step(invs: Seq<Invoice>, as_of: u32, k: int, i: int)
    requires
        0 <= i < invs.len(),
    ensures
        in_band(as_of, k)(invs[i]) ==> {
            &&& band_members(invs.take(i + 1), as_of, k) == band_members(
                invs.take(i),
                as_of,
                k,
            ).push(invs[i])
            &&& band_accounting(invs.take(i + 1), as_of, k) == band_accounting(
                invs.take(i),
                as_of,
                k,
            ).push(invs[i].accounting_open())
            &&& band_presentation(invs.take(i + 1), as_of, k) == band_presentation(
                invs.take(i),
                as_of,
                k,
            ).push(invs[i].presentation_open())
        },
        !in_band(as_of, k)(invs[i]) ==> {
            &&& band_members(invs.take(i + 1), as_of, k) == band_members(invs.take(i), as_of, k)
            &&& band_accounting(invs.take(i + 1), as_of, k) == band_accounting(
                invs.take(i),
                as_of,
                k,
            )
            &&& band_presentation(invs.take(i + 1), as_of, k) == band_presentation(
                invs.take(i),
                as_of,
                k,
            )
        },
        band_members(invs.take(i), as_of, k).len() <= i,
{
    lemma_filter_take_step(invs, in_band(as_of, k), i);
    invs.take(i).lemma_filter_len(in_band(as_of, k));
    let m0 = band_members(invs.take(i), as_of, k);
    if in_band(as_of, k)(invs[i]) {
        assert(band_accounting(invs.take(i + 1), as_of, k) =~= accounting_opens(m0).push(
            invs[i].accounting_open(),
        ));
        assert(band_presentation(invs.take(i + 1), as_of, k) =~= presentation_opens(m0).push(
            invs[i].presentation_open(),
        ));
    }
}

/// The amounts of band `k` over a prefix of the invoices begin the amounts over all of them.
proof fn lemma_band_prefix(invs: Seq<Invoice>, as_of: u32, k: int, i: int)
    requires
        0 <= i <= invs.len(),
    ensures
        band_accounting(invs.take(i), as_of, k).len() <= band_accounting(invs, as_of, k).len(),
        forall|j: int|
            0 <= j < band_accounting(invs.take(i), as_of, k).len() ==> band_accounting(
                invs.take(i),
                as_of,
                k,
            )[j] == band_accounting(invs, as_of, k)[j],
        band_presentation(invs.take(i), as_of, k).len() <= band_presentation(
            invs,
            as_of,
            k,
        ).len(),
        forall|j: int|
            0 <= j < band_presentation(invs.take(i), as_of, k).len() ==> band_presentation(
                invs.take(i),
                as_of,
                k,
            )[j] == band_presentation(invs, as_of, k)[j],
{
    lemma_filter_split(invs, in_band(as_of, k), i);
    let full = band_members(invs, as_of, k);
    let pre = band_members(invs.take(i), as_of, k);
    assert forall|j: int| 0 <= j < pre.len() implies full[j] == pre[j] by {}
}

/// Which of the standard bands accepts `days`: only the band `band_of(days)`.
proof fn lemma_standard_band_accepts(b: AgingBand, k: int, days: int)
    requires
        0 <= k < 5,
        (b.min_days, b.max_days) == band_bounds(k),
        days >= 0,
    ensures
        b.accepts_spec(days) <==> band_of(days) == k,
{
}

/// The aging report of `invs` on `as_of`: the five standard bands, each holding exactly its
/// invoices, and totals that add up the bands.
pub open spec fn aging_holds(r: AgingReport, invs: Seq<Invoice>, as_of: u32) -> bool {
    &&& r.as_of_day == as_of
    &&& r.bands@.len() == 5
    &&& forall|k: int| 0 <= k < 5 ==> band_holds(#[trigger] r.bands@[k], invs, as_of, k)
    &&& r.total_accounting@ == seq_sum(band_accounting_totals(invs, as_of))
    &&& r.total_presentation@ == seq_sum(band_presentation_totals(invs, as_of))
}

/// What is open on the invoices, by how long they are past due.
#[derive(Clone, Debug, PartialEq, Eq)]
pub struct AgingReport {
    pub as_of_day: u32,
    pub bands: Vec<AgingBand>,
    pub total_accounting: Money,
    pub total_presentation: Money,
}

/// The five standard bands, empty.
fn standard_bands() -> (r: Vec<AgingBand>)
    ensures
        r@.len() == 5,
        forall|k: int|
            0 <= k < 5 ==> {
                &&& (#[trigger] r@[k]).label@ == band_label(k)
                &&& (r@[k].min_days, r@[k].max_days) == band_bounds(k)
                &&& r@[k].invoice_count == 0
                &&& r@[k].accounting_total@ == 0
                &&& r@[k].presentation_total@ == 0
            },
{
    let mut r: Vec<AgingBand> = Vec::new();
    r.push(AgingBand::new(String::from_str("current"), 0, Some(0)));
    r.push(AgingBand::new(String::from_str("1-30"), 1, Some(30)));
    r.push(AgingBand::new(String::from_str("31-60"), 31, Some(60)));
    r.push(AgingBand::new(String::from_str("61-90"), 61, Some(90)));
    r.push(AgingBand::new(String::from_str("90+"), 91, None));
    r
}

/// The first band of `bands` that accepts `days`.
fn find_band(bands: &Vec<AgingBand>, days: u32) -> (r: Option<usize>)
    ensures
        match r {
            Some(k) => k < bands@.len() && bands@[k as int].accepts_spec(days as int) && forall|
                j: int,
            | 0 <= j < k ==> !(#[trigger] bands@[j]).accepts_spec(days as int),
            None => forall|j: int|
                0 <= j < bands@.len() ==> !(#[trigger] bands@[j]).accepts_spec(days as int),
        },
{
    let mut k: usize = 0;
    while k < bands.len()
        invariant
            k <= bands@.len(),
            forall|j: int| 0 <= j < k ==> !(#[trigger] bands@[j]).accepts_spec(days as int),
        decreases bands@.len() - k,
    {
        if bands[k].accepts(days) {
            return Some(k);
        }
        k = k + 1;
    }
    None
}

impl AgingReport {
    /// The aging report, or `None` when a band or a total leaves `i64`.
    pub(crate) fn try_build(invoices: &InvoiceBook, as_of_day: u32) -> (r: Option<AgingReport>)
        ensures
            aging_ok(invoices.all(), as_of_day) ==> (r matches Some(rep) && aging_holds(
                rep,
                invoices.all(),
                as_of_day,
            )),
            !aging_ok(invoices.all(), as_of_day) ==> r is None,
    {
        let ghost invs = invoices.all();
        let mut bands = standard_bands();
        let values = invoices.values();
        let n = values.len();
        proof {
            assert forall|k: int| 0 <= k < 5 implies band_holds(
                #[trigger] bands@[k],
                invs.take(0),
                as_of_day,
                k,
            ) && running_sums_fit(band_accounting(invs.take(0), as_of_day, k)) && running_sums_fit(
                band_presentation(invs.take(0), as_of_day, k),
            ) by {
                assert(invs.take(0) =~= Seq::<Invoice>::empty());
                assert(band_members(invs.take(0), as_of_day, k) =~= Seq::<Invoice>::empty());
                assert(band_accounting(invs.take(0), as_of_day, k) =~= Seq::<int>::empty());
                assert(band_presentation(invs.take(0), as_of_day, k) =~= Seq::<int>::empty());
            }
        }
        let mut i: usize = 0;
        while i < n
            invariant
                derefs(values@) == invs,
                invs == invoices.all(),
                n == invs.len(),
                i <= n,
                bands@.len() == 5,
                forall|k: int|
                    0 <= k < 5 ==> band_holds(#[trigger] bands@[k], invs.take(i as int), as_of_day, k)
                        && running_sums_fit(band_accounting(invs.take(i as int), as_of_day, k))
                        && running_sums_fit(band_presentation(invs.take(i as int), as_of_day, k)),
                forall|j: int| 0 <= j < i && aged(invs[j]) ==> (#[trigger] invs[j]).amounts_fit(),
            decreases n - i,
        {
            let inv = values[i];
            assert(*inv == invs[i as int]);
            if inv.status == InvoiceStatus::Voided || inv.status == InvoiceStatus::Draft {
                assert forall|k: int| 0 <= k < 5 implies band_holds(
                    #[trigger] bands@[k],
                    invs.take(i + 1),
                    as_of_day,
                    k,
                ) && running_sums_fit(band_accounting(invs.take(i + 1), as_of_day, k))
                    && running_sums_fit(band_presentation(invs.take(i + 1), as_of_day, k)) by {
                    lemma_band_step(invs, as_of_day, k, i as int);
                    assert(band_holds(bands@[k], invs.take(i as int), as_of_day, k));
                    assert(!in_band(as_of_day, k)(invs[i as int]));
                    assert(band_members(invs.take(i + 1), as_of_day, k) == band_members(
                        invs.take(i as int),
                        as_of_day,
                        k,
                    ));
                }
            } else {
                if !inv.amounts_fit_exec() {
                    return None;
                }
                let days = inv.days_past_due(as_of_day);
                let ghost b = band_of(days as int);
                proof {
                    assert forall|j: int| 0 <= j < 5 implies (#[trigger] bands@[j]).accepts_spec(
                        days as int,
                    ) == (b == j) by {
                        lemma_standard_band_accepts(bands@[j], j, days as int);
                    }
                    assert(bands@[b].accepts_spec(days as int));
                }
                match find_band(&bands, days) {
                    Some(k) => {
                        assert(k == b);
                        let ghost old_bands = bands@;
                        let a = inv.accounting_outstanding();
                        let p = inv.presentation_outstanding();
                        let ghost acc0 = band_accounting(invs.take(i as int), as_of_day, b);
                        let ghost pres0 = band_presentation(invs.take(i as int), as_of_day, b);
                        proof {
                            lemma_band_step(invs, as_of_day, b, i as int);
                            assert(in_band(as_of_day, b)(invs[i as int]));
                            assert(band_accounting(invs.take(i + 1), as_of_day, b) == acc0.push(
                                a@,
                            ));
                            assert(band_presentation(invs.take(i + 1), as_of_day, b) == pres0.push(
                                p@,
                            ));
                            lemma_push_running(acc0, a@);
                            lemma_push_running(pres0, p@);
                            lemma_band_prefix(invs, as_of_day, b, i + 1);
                            lemma_take_full(invs);
                        }
                        if bands[k].accounting_total.cents.checked_add(a.cents).is_none() {
                            proof {
                                lemma_prefix_overflows(
                                    band_accounting(invs, as_of_day, b),
                                    band_accounting(invs.take(i + 1), as_of_day, b),
                                );
                            }
                            return None;
                        }
                        if bands[k].presentation_total.cents.checked_add(p.cents).is_none() {
                            proof {
                                lemma_prefix_overflows(
                                    band_presentation(invs, as_of_day, b),
                                    band_presentation(invs.take(i + 1), as_of_day, b),
                                );
                            }
                            return None;
                        }
                        bands[k].add(inv);
                        assert forall|j: int| 0 <= j < 5 implies band_holds(
                            #[trigger] bands@[j],
                            invs.take(i + 1),
                            as_of_day,
                            j,
                        ) && running_sums_fit(band_accounting(invs.take(i + 1), as_of_day, j))
                            && running_sums_fit(band_presentation(invs.take(i + 1), as_of_day, j)) by {
                            lemma_band_step(invs, as_of_day, j, i as int);
                            if j != b {
                                assert(bands@[j] == old_bands[j]);
                                assert(!in_band(as_of_day, j)(invs[i as int]));
                                assert(band_members(invs.take(i + 1), as_of_day, j) == band_members(
                                    invs.take(i as int),
                                    as_of_day,
                                    j,
                                ));
                            } else {
                                assert(band_members(invs.take(i + 1), as_of_day, j) == band_members(
                                    invs.take(i as int),
                                    as_of_day,
                                    j,
                                ).push(invs[i as int]));
                            }
                        }
                    },
                    None => {
                        assert(!bands@[b].accepts_spec(days as int));
                    },
                }
            }
            i = i + 1;
        }
        proof {
            lemma_take_full(invs);
            assert forall|j: int| 0 <= j < 5 implies running_sums_fit(
                #[trigger] band_accounting(invs, as_of_day, j),
            ) && running_sums_fit(band_presentation(invs, as_of_day, j)) by {
                assert(band_holds(bands@[j], invs.take(n as int), as_of_day, j));
            }
        }
        let ghost acc_totals = band_accounting_totals(invs, as_of_day);
        let ghost pres_totals = band_presentation_totals(invs, as_of_day);
        let mut total_a: i64 = 0;
        let mut total_p: i64 = 0;
        let mut k: usize = 0;
        while k < 5
            invariant
                invs == invoices.all(),
                n == invs.len(),
                invs.take(n as int) == invs,
                bands@.len() == 5,
                forall|j: int| 0 <= j < n && aged(invs[j]) ==> (#[trigger] invs[j]).amounts_fit(),
                forall|j: int|
                    0 <= j < 5 ==> running_sums_fit(#[trigger] band_accounting(invs, as_of_day, j))
                        && running_sums_fit(band_presentation(invs, as_of_day, j)),
                forall|j: int|
                    0 <= j < 5 ==> band_holds(#[trigger] bands@[j], invs.take(n as int), as_of_day, j),
                acc_totals == band_accounting_totals(invs, as_of_day),
                pres_totals == band_presentation_totals(invs, as_of_day),
                k <= 5,
                total_a == sum_first(acc_totals, k as nat),
                total_p == sum_first(pres_totals, k as nat),
                forall|m: nat| 1 <= m <= k ==> fits_i64(#[trigger] sum_first(acc_totals, m)),
                forall|m: nat| 1 <= m <= k ==> fits_i64(#[trigger] sum_first(pres_totals, m)),
            decreases 5 - k,
        {
            assert(bands@[k as int].accounting_total@ == acc_totals[k as int]);
            assert(bands@[k as int].presentation_total@ == pres_totals[k as int]);
            match total_a.checked_add(bands[k].accounting_total.cents) {
                Some(t) => {
                    total_a = t;
                },
                None => {
                    assert(!fits_i64(sum_first(acc_totals, (k + 1) as nat)));
                    return None;
                },
            }
            match total_p.checked_add(bands[k].presentation_total.cents) {
                Some(t) => {
                    total_p = t;
                },
                None => {
                    assert(!fits_i64(sum_first(pres_totals, (k + 1) as nat)));
                    return None;
                },
            }
            k = k + 1;
        }
        Some(
            AgingReport {
                as_of_day,
                bands,
                total_accounting: Money { cents: total_a },
                total_presentation: Money { cents: total_p },
            },
        )
    }

    /// Ages the issued invoices into the five standard bands on `as_of_day`.
    pub fn build(invoices: &InvoiceBook, as_of_day: u32) -> (r: AgingReport)
        requires
            aging_ok(invoices.all(), as_of_day),
        ensures
            aging_holds(r, invoices.all(), as_of_day),
    {
        match AgingReport::try_build(invoices, as_of_day) {
            Some(r) => r,
            None => {
                proof {
                    assert(false);
                }
                AgingReport {
                    as_of_day,
                    bands: Vec::new(),
                    total_accounting: Money::zero(),
                    total_presentation: Money::zero(),
                }
            },
        }
    }
}

/// The five band sums of an aging, added up.
proof fn lemma_five_sum(s: Seq<int>)
    requires
        s.len() == 5,
    ensures
        seq_sum(s) == s[0] + s[1] + s[2] + s[3] + s[4],
{
    reveal_with_fuel(sum_first, 6);
}

/// One more invoice adds what is open on it to exactly one band when it is aged,
/// and to none otherwise.
proof fn lemma_band_totals_push(s: Seq<Invoice>, x: Invoice, as_of: u32)
    ensures
        seq_sum(band_accounting_totals(s.push(x), as_of)) == seq_sum(
            band_accounting_totals(s, as_of),
        ) + if aged(x) {
            x.accounting_open()
        } else {
            0
        },
        seq_sum(band_presentation_totals(s.push(x), as_of)) == seq_sum(
            band_presentation_totals(s, as_of),
        ) + if aged(x) {
            x.presentation_open()
        } else {
            0
        },
        seq_sum(accounting_opens(s.push(x).filter(|i: Invoice| aged(i)))) == seq_sum(
            accounting_opens(s.filter(|i: Invoice| aged(i))),
        ) + if aged(x) {
            x.accounting_open()
        } else {
            0
        },
        seq_sum(presentation_opens(s.push(x).filter(|i: Invoice| aged(i)))) == seq_sum(
            presentation_opens(s.filter(|i: Invoice| aged(i))),
        ) + if aged(x) {
            x.presentation_open()
        } else {
            0
        },
        s.push(x).filter(|i: Invoice| aged(i)).len() == s.filter(|i: Invoice| aged(i)).len() + if aged(
            x,
        ) {
            1int
        } else {
            0int
        },
{
    let t = s.push(x);
    assert(t.drop_last() =~= s);
    reveal(Seq::filter);
    assert forall|k: int| 0 <= k < 5 implies {
        &&& seq_sum(#[trigger] band_accounting(t, as_of, k)) == seq_sum(
            band_accounting(s, as_of, k),
        ) + if in_band(as_of, k)(x) {
            x.accounting_open()
        } else {
            0
        }
        &&& seq_sum(band_presentation(t, as_of, k)) == seq_sum(band_presentation(s, as_of, k))
            + if in_band(as_of, k)(x) {
            x.presentation_open()
        } else {
            0
        }
    } by {
        let m = band_members(s, as_of, k);
        if in_band(as_of, k)(x) {
            assert(band_members(t, as_of, k) == m.push(x));
            assert(band_accounting(t, as_of, k) =~= accounting_opens(m).push(x.accounting_open()));
            assert(band_presentation(t, as_of, k) =~= presentation_opens(m).push(
                x.presentation_open(),
            ));
            assert(band_accounting(t, as_of, k).drop_last() =~= accounting_opens(m));
            assert(band_presentation(t, as_of, k).drop_last() =~= presentation_opens(m));
            crate::amount::lemma_seq_sum_drop_last(band_accounting(t, as_of, k));
            crate::amount::lemma_seq_sum_drop_last(band_presentation(t, as_of, k));
        } else {
            assert(band_members(t, as_of, k) == m);
        }
    }
    lemma_five_sum(band_accounting_totals(t, as_of));
    lemma_five_sum(band_accounting_totals(s, as_of));
    lemma_five_sum(band_presentation_totals(t, as_of));
    lemma_five_sum(band_presentation_totals(s, as_of));
    let pa = |i: Invoice| aged(i);
    let f = s.filter(pa);
    if aged(x) {
        assert(t.filter(pa) == f.push(x));
        let ga = accounting_opens(t.filter(pa));
        let gp = presentation_opens(t.filter(pa));
        assert(ga.drop_last() =~= accounting_opens(f));
        assert(gp.drop_last() =~= presentation_opens(f));
        crate::amount::lemma_seq_sum_drop_last(ga);
        crate::amount::lemma_seq_sum_drop_last(gp);
        let b = band_of(past_due(x, as_of));
        assert(in_band(as_of, b)(x));
        assert(seq_sum(band_accounting(t, as_of, b)) == seq_sum(band_accounting(s, as_of, b))
            + x.accounting_open());
        assert(seq_sum(band_presentation(t, as_of, b)) == seq_sum(band_presentation(s, as_of, b))
            + x.presentation_open());
        assert forall|k: int| 0 <= k < 5 && k != b implies seq_sum(
            #[trigger] band_accounting(t, as_of, k),
        ) == seq_sum(band_accounting(s, as_of, k)) && seq_sum(band_presentation(t, as_of, k))
            == seq_sum(band_presentation(s, as_of, k)) by {
            assert(!in_band(as_of, k)(x));
        }
        assert(seq_sum(band_accounting(t, as_of, 0)) == seq_sum(band_accounting(s, as_of, 0))
            + if b == 0 { x.accounting_open() } else { 0 });
    } else {
        assert(t.filter(pa) == f);
        assert forall|k: int| 0 <= k < 5 implies seq_sum(
            #[trigger] band_accounting(t, as_of, k),
        ) == seq_sum(band_accounting(s, as_of, k)) && seq_sum(band_presentation(t, as_of, k))
            == seq_sum(band_presentation(s, as_of, k)) by {
            assert(!in_band(as_of, k)(x));
        }
    }
}

/// The five bands of an aging report carry the bounds their labels name, and each counts
/// exactly the aged invoices whose days past due fall within those bounds: not yet overdue,
/// 1 to 30 days, 31 to 60, 61 to 90, and more than 90 days overdue.
pub proof fn lemma_aging_bands_follow_labels(r: AgingReport, invs: Seq<Invoice>, as_of: u32)
    requires
        aging_holds(r, invs, as_of),
    ensures
        r.bands@.len() == 5,
        r.bands@[0].label@ == "current"@ && r.bands@[0].min_days == 0 && r.bands@[0].max_days
            == Some(0u32),
        r.bands@[1].label@ == "1-30"@ && r.bands@[1].min_days == 1 && r.bands@[1].max_days == Some(
            30u32,
        ),
        r.bands@[2].label@ == "31-60"@ && r.bands@[2].min_days == 31 && r.bands@[2].max_days
            == Some(60u32),
        r.bands@[3].label@ == "61-90"@ && r.bands@[3].min_days == 61 && r.bands@[3].max_days
            == Some(90u32),
        r.bands@[4].label@ == "90+"@ && r.bands@[4].min_days == 91 && r.bands@[4].max_days is None,
        r.bands@[0].invoice_count == invs.filter(|inv: Invoice| aged(inv) && as_of <= inv.due_day).len(),
        r.bands@[1].invoice_count == invs.filter(
            |inv: Invoice| aged(inv) && inv.due_day < as_of && as_of <= inv.due_day + 30,
        ).len(),
        r.bands@[2].invoice_count == invs.filter(
            |inv: Invoice| aged(inv) && inv.due_day + 30 < as_of && as_of <= inv.due_day + 60,
        ).len(),
        r.bands@[3].invoice_count == invs.filter(
            |inv: Invoice| aged(inv) && inv.due_day + 60 < as_of && as_of <= inv.due_day + 90,
        ).len(),
        r.bands@[4].invoice_count == invs.filter(|inv: Invoice| aged(inv) && inv.due_day + 90 < as_of).len(),
{
    assert(band_holds(r.bands@[0], invs, as_of, 0));
    assert(band_holds(r.bands@[1], invs, as_of, 1));
    assert(band_holds(r.bands@[2], invs, as_of, 2));
    assert(band_holds(r.bands@[3], invs, as_of, 3));
    assert(band_holds(r.bands@[4], invs, as_of, 4));
    assert(in_band(as_of, 0) =~= (|inv: Invoice| aged(inv) && as_of <= inv.due_day));
    assert(in_band(as_of, 1) =~= (|inv: Invoice|
        aged(inv) && inv.due_day < as_of && as_of <= inv.due_day + 30));
    assert(in_band(as_of, 2) =~= (|inv: Invoice|
        aged(inv) && inv.due_day + 30 < as_of && as_of <= inv.due_day + 60));
    assert(in_band(as_of, 3) =~= (|inv: Invoice|
        aged(inv) && inv.due_day + 60 < as_of && as_of <= inv.due_day + 90));
    assert(in_band(as_of, 4) =~= (|inv: Invoice| aged(inv) && inv.due_day + 90 < as_of));
}

/// Aging partitions the aged invoices: every invoice that is neither a draft nor voided
/// falls in exactly one band, so the band totals add up to what is open on all of them.
pub proof fn lemma_aging_partition(invs: Seq<Invoice>, as_of: u32)
    ensures
        seq_sum(band_accounting_totals(invs, as_of)) == seq_sum(
            accounting_opens(invs.filter(|i: Invoice| aged(i))),
        ),
        seq_sum(band_presentation_totals(invs, as_of)) == seq_sum(
            presentation_opens(invs.filter(|i: Invoice| aged(i))),
        ),
    decreases invs.len(),
{
    if invs.len() == 0 {
        reveal(Seq::filter);
        assert(invs.filter(|i: Invoice| aged(i)) =~= Seq::<Invoice>::empty());
        assert forall|k: int| 0 <= k < 5 implies #[trigger] band_members(invs, as_of, k)
            =~= Seq::<Invoice>::empty() by {}
        lemma_five_sum(band_accounting_totals(invs, as_of));
        lemma_five_sum(band_presentation_totals(invs, as_of));
        assert(accounting_opens(invs.filter(|i: Invoice| aged(i))) =~= Seq::<int>::empty());
        assert(presentation_opens(invs.filter(|i: Invoice| aged(i))) =~= Seq::<int>::empty());
        assert forall|k: int| 0 <= k < 5 implies #[trigger] band_accounting(invs, as_of, k)
            =~= Seq::<int>::empty() && band_presentation(invs, as_of, k) =~= Seq::<int>::empty() by {
            assert(band_members(invs, as_of, k) =~= Seq::<Invoice>::empty());
        }
    } else {
        let s = invs.drop_last();
        let x = invs.last();
        lemma_aging_partition(s, as_of);
        assert(s.push(x) =~= invs);
        lemma_band_totals_push(s, x, as_of);
    }
}

/// The report's totals are what is open on every aged invoice of the book.
pub proof fn lemma_aging_report_totals(r: AgingReport, invs: Seq<Invoice>, as_of: u32)
    requires
        aging_holds(r, invs, as_of),
    ensures
        r.total_accounting@ == seq_sum(accounting_opens(invs.filter(|i: Invoice| aged(i)))),
        r.total_presentation@ == seq_sum(presentation_opens(invs.filter(|i: Invoice| aged(i)))),
{
    lemma_aging_partition(invs, as_of);
}

/// The invoices of a buyer, in id order.
pub open spec fn buyer_invoices(invs: Seq<Invoice>, party: Seq<char>) -> Seq<Invoice> {
    invs.filter(|inv: Invoice| inv.buyer@ == party)
}

/// Whether every total of a statement over these invoices can be computed in `i64`.
pub open spec fn statement_ok(sel: Seq<Invoice>) -> bool {
    &&& gross_total_ok(sel)
    &&& running_sums_fit(receipt_amounts(sel))
    &&& memo_total_ok(sel)
    &&& accounting_total_ok(sel)
    &&& presentation_total_ok(sel)
}

/// What a buyer owes and has paid, over all its invoices.
#[derive(Clone, Debug, PartialEq, Eq)]
pub struct CounterpartyStatement {
    pub party: PartyId,
    pub invoice_count: usize,
    pub gross_total: Money,
    pub receipt_total: Money,
    pub memo_total: Money,
    pub accounting_open: Money,
    pub presentation_open: Money,
    pub invoices: Vec<InvoiceId>,
}

/// The statement of `party` over the invoices `sel` that it buys.
pub open spec fn statement_holds(r: CounterpartyStatement, party: PartyId, sel: Seq<Invoice>) -> bool {
    &&& r.party == party
    &&& r.invoice_count == sel.len()
    &&& r.gross_total@ == seq_sum(grosses(sel))
    &&& r.receipt_total@ == seq_sum(receipt_amounts(sel))
    &&& r.memo_total@ == seq_sum(net_memos(sel))
    &&& r.accounting_open@ == seq_sum(accounting_opens(sel))
    &&& r.presentation_open@ == seq_sum(presentation_opens(sel))
    &&& r.invoices@ == sel.map_values(|inv: Invoice| inv.id)
}

impl CounterpartyStatement {
    /// The statement of a buyer, or `None` when one of its totals leaves `i64`.
    pub(crate) fn try_for_buyer(party: &PartyId, invoices: &InvoiceBook) -> (r: Option<
        CounterpartyStatement,
    >)
        ensures
            statement_ok(buyer_invoices(invoices.all(), party@)) ==> (r matches Some(st)
                && statement_holds(st, *party, buyer_invoices(invoices.all(), party@))),
            !statement_ok(buyer_invoices(invoices.all(), party@)) ==> r is None,
    {
        let selected = invoices.by_buyer(party);
        let ghost sel = derefs(selected@);
        assert(sel == buyer_invoices(invoices.all(), party@));
        let ghost g = grosses(sel);
        let ghost rc = receipt_amounts(sel);
        let ghost mm = net_memos(sel);
        let ghost ao = accounting_opens(sel);
        let ghost po = presentation_opens(sel);
        let n = selected.len();
        let mut gross: i64 = 0;
        let mut receipts: i64 = 0;
        let mut memos: i64 = 0;
        let mut acc_open: i64 = 0;
        let mut pres_open: i64 = 0;
        let mut ids: Vec<InvoiceId> = Vec::new();
        let mut i: usize = 0;
        while i < n
            invariant
                sel == derefs(selected@),
                sel == buyer_invoices(invoices.all(), party@),
                g == grosses(sel),
                rc == receipt_amounts(sel),
                mm == net_memos(sel),
                ao == accounting_opens(sel),
                po == presentation_opens(sel),
                n == sel.len(),
                i <= n,
                forall|j: int| 0 <= j < i ==> (#[trigger] sel[j]).amounts_fit(),
                forall|j: int| 0 <= j < i ==> fits_i64(#[trigger] mm[j]),
                forall|m: nat| 1 <= m <= i ==> fits_i64(#[trigger] sum_first(g, m)),
                forall|m: nat| 1 <= m <= i ==> fits_i64(#[trigger] sum_first(rc, m)),
                forall|m: nat| 1 <= m <= i ==> fits_i64(#[trigger] sum_first(mm, m)),
                forall|m: nat| 1 <= m <= i ==> fits_i64(#[trigger] sum_first(ao, m)),
                forall|m: nat| 1 <= m <= i ==> fits_i64(#[trigger] sum_first(po, m)),
                gross == sum_first(g, i as nat),
                receipts == sum_first(rc, i as nat),
                memos == sum_first(mm, i as nat),
                acc_open == sum_first(ao, i as nat),
                pres_open == sum_first(po, i as nat),
                ids@ == sel.take(i as int).map_values(|inv: Invoice| inv.id),
            decreases n - i,
        {
            let inv = selected[i];
            assert(*inv == sel[i as int]);
            if !inv.amounts_fit_exec() {
                assert(!sel[i as int].amounts_fit());
                return None;
            }
            let memo = inv.credit_memos_applied.cents as i128 - inv.debit_memos_applied.cents as i128;
            if memo < i64::MIN as i128 || memo > i64::MAX as i128 {
                assert(!fits_i64(mm[i as int]));
                return None;
            }
            let go = inv.gross_obligation();
            let a = inv.accounting_outstanding();
            let p = inv.presentation_outstanding();
            assert(g[i as int] == go@ && rc[i as int] == inv.receipts_applied@ && mm[i as int] == memo
                && ao[i as int] == a@ && po[i as int] == p@);
            match gross.checked_add(go.cents) {
                Some(v) => gross = v,
                None => {
                    assert(!fits_i64(sum_first(g, (i + 1) as nat)));
                    return None;
                },
            }
            match receipts.checked_add(inv.receipts_applied.cents) {
                Some(v) => receipts = v,
                None => {
                    assert(!fits_i64(sum_first(rc, (i + 1) as nat)));
                    return None;
                },
            }
            match memos.checked_add(memo as i64) {
                Some(v) => memos = v,
                None => {
                    assert(!fits_i64(sum_first(mm, (i + 1) as nat)));
                    return None;
                },
            }
            match acc_open.checked_add(a.cents) {
                Some(v) => acc_open = v,
                None => {
                    assert(!fits_i64(sum_first(ao, (i + 1) as nat)));
                    return None;
                },
            }
            match pres_open.checked_add(p.cents) {
                Some(v) => pres_open = v,
                None => {
                    assert(!fits_i64(sum_first(po, (i + 1) as nat)));
                    return None;
                },
            }
            ids.push(inv.id.duplicate());
            assert(sel.take(i + 1).map_values(|inv: Invoice| inv.id) =~= sel.take(
                i as int,
            ).map_values(|inv: Invoice| inv.id).push(sel[i as int].id));
            i = i + 1;
        }
        proof {
            lemma_take_full(sel);
        }
        Some(
            CounterpartyStatement {
                party: party.duplicate(),
                invoice_count: n,
                gross_total: Money { cents: gross },
                receipt_total: Money { cents: receipts },
                memo_total: Money { cents: memos },
                accounting_open: Money { cents: acc_open },
                presentation_open: Money { cents: pres_open },
                invoices: ids,
            },
        )
    }

    /// Totals what the buyer `party` owes, has paid and has been credited, invoice by invoice.
    pub fn for_buyer(party: PartyId, invoices: &InvoiceBook) -> (r: CounterpartyStatement)
        requires
            statement_ok(buyer_invoices(invoices.all(), party@)),
        ensures
            statement_holds(r, party, buyer_invoices(invoices.all(), party@)),
    {
        match CounterpartyStatement::try_for_buyer(&party, invoices) {
            Some(st) => st,
            None => {
                proof {
                    assert(false);
                }
                CounterpartyStatement {
                    party,
                    invoice_count: 0,
                    gross_total: Money::zero(),
                    receipt_total: Money::zero(),
                    memo_total: Money::zero(),
                    accounting_open: Money::zero(),
                    presentation_open: Money::zero(),
                    invoices: Vec::new(),
                }
            },
        }
    }
}

/// The statuses, in the order of their names.
pub open spec fn statuses_by_name() -> Seq<InvoiceStatus> {
    seq![
        InvoiceStatus::Closed,
        InvoiceStatus::Draft,
        InvoiceStatus::Issued,
        InvoiceStatus::Paid,
        InvoiceStatus::PartiallyCollected,
        InvoiceStatus::Voided,
    ]
}

/// How many of the invoices are in status `s`.
pub open spec fn status_count(invs: Seq<Invoice>, s: InvoiceStatus) -> nat {
    invs.filter(|inv: Invoice| inv.status == s).len()
}

/// Each status that some invoice is in, by name, with how many are in it.
pub open spec fn status_counts_spec(invs: Seq<Invoice>) -> Seq<(Seq<char>, nat)> {
    statuses_by_name().filter(|s: InvoiceStatus| status_count(invs, s) > 0).map_values(
        |s: InvoiceStatus| (invoice_status_name(s), status_count(invs, s)),
    )
}

/// The names and counts held in a count table.
pub open spec fn count_table(t: Seq<(String, usize)>) -> Seq<(Seq<char>, nat)> {
    t.map_values(|e: (String, usize)| (e.0@, e.1 as nat))
}

/// The number of invoices in each status that occurs, ordered by the status's name.
pub fn status_counts(invoices: &InvoiceBook) -> (r: Vec<(String, usize)>)
    ensures
        count_table(r@) == status_counts_spec(invoices.all()),
{
    let ghost invs = invoices.all();
    let ghost order = statuses_by_name();
    let ghost keep = |s: InvoiceStatus| status_count(invs, s) > 0;
    let ghost label = |s: InvoiceStatus| (invoice_status_name(s), status_count(invs, s));
    let statuses = [
        InvoiceStatus::Closed,
        InvoiceStatus::Draft,
        InvoiceStatus::Issued,
        InvoiceStatus::Paid,
        InvoiceStatus::PartiallyCollected,
        InvoiceStatus::Voided,
    ];
    assert(statuses@ == order);
    let mut r: Vec<(String, usize)> = Vec::new();
    let mut i: usize = 0;
    while i < 6
        invariant
            statuses@ == order,
            order == statuses_by_name(),
            invs == invoices.all(),
            keep == (|s: InvoiceStatus| status_count(invs, s) > 0),
            label == (|s: InvoiceStatus| (invoice_status_name(s), status_count(invs, s))),
            i <= 6,
            count_table(r@) == order.take(i as int).filter(keep).map_values(label),
        decreases 6 - i,
    {
        let status = statuses[i];
        let count = invoices.count_by_status(status);
        let ghost before = r@;
        proof {
            lemma_filter_take_step(order, keep, i as int);
            assert(status == order[i as int]);
            assert(count == status_count(invs, status));
        }
        if count > 0 {
            let name = String::from_str(status.name());
            r.push((name, count));
            proof {
                assert(keep(order[i as int]));
                assert(order.take(i + 1).filter(keep) == order.take(i as int).filter(keep).push(
                    status,
                ));
                assert(count_table(r@) =~= count_table(before).push(label(status)));
            }
            assert(count_table(r@) =~= order.take(i + 1).filter(keep).map_values(label));
        } else {
            assert(count_table(r@) =~= order.take(i + 1).filter(keep).map_values(label));
        }
        i = i + 1;
    }
    proof {
        lemma_take_full(order);
    }
    r
}

/// Whether every total of the exposure report can be computed in `i64`.
pub open spec fn exposure_ok(
    invs: Seq<Invoice>,
    receipts: Seq<crate::receipts::model::SettlementReceipt>,
    claims: Seq<crate::settlement::model::SettlementClaim>,
) -> bool {
    &&& accounting_total_ok(invs)
    &&& presentation_total_ok(invs)
    &&& running_sums_fit(claim_amounts(active_claims(claims)))
    &&& running_sums_fit(claim_amounts(frozen_claims(claims)))
    &&& running_sums_fit(receipt_values(receipts))
}

/// What the desk is exposed to: open balances, claims in flight or frozen, cash received.
#[derive(Clone, Debug, PartialEq, Eq)]
pub struct ExposureReport {
    pub accounting_open: Money,
    pub presentation_open: Money,
    pub active_claims: Money,
    pub frozen_claims: Money,
    pub receipts_posted: Money,
    pub invoice_status_counts: Vec<(String, usize)>,
}

/// The exposure of the three books.
pub open spec fn exposure_holds(
    r: ExposureReport,
    invs: Seq<Invoice>,
    receipts: Seq<crate::receipts::model::SettlementReceipt>,
    claims: Seq<crate::settlement::model::SettlementClaim>,
) -> bool {
    &&& r.accounting_open@ == seq_sum(accounting_opens(invs))
    &&& r.presentation_open@ == seq_sum(presentation_opens(invs))
    &&& r.active_claims@ == seq_sum(claim_amounts(active_claims(claims)))
    &&& r.frozen_claims@ == seq_sum(claim_amounts(frozen_claims(claims)))
    &&& r.receipts_posted@ == seq_sum(receipt_values(receipts))
    &&& count_table(r.invoice_status_counts@) == status_counts_spec(invs)
}

impl ExposureReport {
    /// The exposure report, or `None` when one of its totals leaves `i64`.
    pub(crate) fn try_build(
        invoices: &InvoiceBook,
        receipts: &ReceiptBook,
        settlement: &SettlementBook,
    ) -> (r: Option<ExposureReport>)
        ensures
            exposure_ok(invoices.all(), receipts.all(), settlement.all_claims()) ==> (r matches Some(
                e,
            ) && exposure_holds(e, invoices.all(), receipts.all(), settlement.all_claims())),
            !exposure_ok(invoices.all(), receipts.all(), settlement.all_claims()) ==> r is None,
    {
        let counts = status_counts(invoices);
        let accounting_open = match invoices.try_open_accounting_total() {
            Some(m) => m,
            None => return None,
        };
        let presentation_open = match invoices.try_open_presentation_total() {
            Some(m) => m,
            None => return None,
        };
        let active = match settlement.try_active_claim_total() {
            Some(m) => m,
            None => return None,
        };
        let frozen = match settlement.try_frozen_total() {
            Some(m) => m,
            None => return None,
        };
        let posted = match receipts.try_amount_total() {
            Some(m) => m,
            None => return None,
        };
        Some(
            ExposureReport {
                accounting_open,
                presentation_open,
                active_claims: active,
                frozen_claims: frozen,
                receipts_posted: posted,
                invoice_status_counts: counts,
            },
        )
    }

    /// Open balances, claim totals, cash received and status counts of the books.
    pub fn build(invoices: &InvoiceBook, receipts: &ReceiptBook, settlement: &SettlementBook) -> (r:
        ExposureReport)
        requires
            exposure_ok(invoices.all(), receipts.all(), settlement.all_claims()),
        ensures
            exposure_holds(r, invoices.all(), receipts.all(), settlement.all_claims()),
    {
        match ExposureReport::try_build(invoices, receipts, settlement) {
            Some(e) => e,
            None => {
                proof {
                    assert(false);
                }
                ExposureReport {
                    accounting_open: Money::zero(),
                    presentation_open: Money::zero(),
                    active_claims: Money::zero(),
                    frozen_claims: Money::zero(),
                    receipts_posted: Money::zero(),
                    invoice_status_counts: Vec::new(),
                }
            },
        }
    }
}

/// The canonical JSON text of an aging band.
pub open spec fn aging_band_json(b: AgingBand) -> Seq<char> {
    "{\"label\":"@ + json_string(b.label@) + ",\"min_days\":"@ + decimal(b.min_days as nat)
        + ",\"max_days\":"@ + json_opt_nat(b.max_days) + ",\"invoice_count\":"@ + decimal(
        b.invoice_count as nat,
    ) + ",\"accounting_total\":"@ + json_money(b.accounting_total@)
        + ",\"presentation_total\":"@ + json_money(b.presentation_total@) + "}"@
}

/// The canonical JSON text of an aging report.
pub open spec fn aging_report_json(a: AgingReport) -> Seq<char> {
    "{\"as_of_day\":"@ + decimal(a.as_of_day as nat) + ",\"bands\":"@ + json_array(
        a.bands@.map_values(|b: AgingBand| aging_band_json(b)),
    ) + ",\"total_accounting\":"@ + json_money(a.total_accounting@)
        + ",\"total_presentation\":"@ + json_money(a.total_presentation@) + "}"@
}

/// The canonical JSON text of a table of counts keyed by name.
pub open spec fn count_table_json(t: Seq<(String, usize)>) -> Seq<char> {
    json_object(
        t.map_values(|e: (String, usize)| json_string(e.0@) + ":"@ + decimal(e.1 as nat)),
    )
}

/// The canonical JSON text of an exposure report.
pub open spec fn exposure_json(e: ExposureReport) -> Seq<char> {
    "{\"accounting_open\":"@ + json_money(e.accounting_open@) + ",\"presentation_open\":"@
        + json_money(e.presentation_open@) + ",\"active_claims\":"@ + json_money(
        e.active_claims@,
    ) + ",\"frozen_claims\":"@ + json_money(e.frozen_claims@) + ",\"receipts_posted\":"@
        + json_money(e.receipts_posted@) + ",\"invoice_status_counts\":"@ + count_table_json(
        e.invoice_status_counts@,
    ) + "}"@
}

impl AgingBand {
    /// The band as canonical JSON text.
    pub fn canonical_json(&self) -> (r: String)
        ensures
            r@ == aging_band_json(*self),
    {
        let mut r = String::from_str("{\"label\":");
        push_json_string(&mut r, self.label.as_str());
        r.append(",\"min_days\":");
        push_decimal(&mut r, self.min_days as u128);
        r.append(",\"max_days\":");
        push_json_opt_nat(&mut r, self.max_days);
        r.append(",\"invoice_count\":");
        push_decimal(&mut r, self.invoice_count as u128);
        r.append(",\"accounting_total\":");
        push_json_money(&mut r, self.accounting_total.cents);
        r.append(",\"presentation_total\":");
        push_json_money(&mut r, self.presentation_total.cents);
        r.append("}");
        r
    }
}

impl AgingReport {
    /// The report as canonical JSON text.
    pub fn canonical_json(&self) -> (r: String)
        ensures
            r@ == aging_report_json(*self),
    {
        let ghost bands = self.bands@;
        let mut items: Vec<String> = Vec::new();
        let mut i: usize = 0;
        while i < self.bands.len()
            invariant
                bands == self.bands@,
                i <= bands.len(),
                items@.map_values(|t: String| t@) == bands.take(i as int).map_values(
                    |b: AgingBand| aging_band_json(b),
                ),
            decreases bands.len() - i,
        {
            let text = self.bands[i].canonical_json();
            proof {
                lemma_texts_push(items@, bands, |b: AgingBand| aging_band_json(b), text, i as int);
            }
            items.push(text);
            i = i + 1;
        }
        assert(bands.take(bands.len() as int) =~= bands);
        let mut r = String::from_str("{\"as_of_day\":");
        push_decimal(&mut r, self.as_of_day as u128);
        r.append(",\"bands\":");
        push_json_array(&mut r, &items);
        r.append(",\"total_accounting\":");
        push_json_money(&mut r, self.total_accounting.cents);
        r.append(",\"total_presentation\":");
        push_json_money(&mut r, self.total_presentation.cents);
        r.append("}");
        r
    }
}

/// A table of counts keyed by name, as canonical JSON text.
pub fn count_table_canonical_json(t: &Vec<(String, usize)>) -> (r: String)
    ensures
        r@ == count_table_json(t@),
{
    let ghost rows = t@;
    let mut items: Vec<String> = Vec::new();
    let mut i: usize = 0;
    while i < t.len()
        invariant
            rows == t@,
            i <= rows.len(),
            items@.map_values(|s: String| s@) == rows.take(i as int).map_values(
                |e: (String, usize)| json_string(e.0@) + ":"@ + decimal(e.1 as nat),
            ),
        decreases rows.len() - i,
    {
        let mut text = String::new();
        push_json_string(&mut text, t[i].0.as_str());
        text.append(":");
        push_decimal(&mut text, t[i].1 as u128);
        proof {
            assert(Seq::<char>::empty() + json_string(rows[i as int].0@) =~= json_string(
                rows[i as int].0@,
            ));
            lemma_texts_push(
                items@,
                rows,
                |e: (String, usize)| json_string(e.0@) + ":"@ + decimal(e.1 as nat),
                text,
                i as int,
            );
        }
        items.push(text);
        i = i + 1;
    }
    assert(rows.take(rows.len() as int) =~= rows);
    let mut r = String::new();
    push_json_object(&mut r, &items);
    assert(Seq::<char>::empty() + count_table_json(rows) =~= count_table_json(rows));
    r
}

impl ExposureReport {
    /// The report as canonical JSON text.
    pub fn canonical_json(&self) -> (r: String)
        ensures
            r@ == exposure_json(*self),
    {
        let mut r = String::from_str("{\"accounting_open\":");
        push_json_money(&mut r, self.accounting_open.cents);
        r.append(",\"presentation_open\":");
        push_json_money(&mut r, self.presentation_open.cents);
        r.append(",\"active_claims\":");
        push_json_money(&mut r, self.active_claims.cents);
        r.append(",\"frozen_claims\":");
        push_json_money(&mut r, self.frozen_claims.cents);
        r.append(",\"receipts_posted\":");
        push_json_money(&mut r, self.receipts_posted.cents);
        r.append(",\"invoice_status_counts\":");
        let counts = count_table_canonical_json(&self.invoice_status_counts);
        r.append(counts.as_str());
        r.append("}");
        r
    }
}

} // verus!
