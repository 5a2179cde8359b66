//! Settlement obligations derived from the invoices, and the claims that present them.
use vstd::prelude::*;

use crate::amount::{
    fits_i64, lemma_filtered_running_sum, running_sums_fit, seq_sum, sum_first, Money,
};
use crate::error::{SableError, SableResult};
use crate::ids::{generated_text, lemma_generated_injective, AccountId, BatchId, InvoiceId, SettlementId, TxId};
use crate::invoice::book::{invoice_entries_wf, InvoiceBook};
use crate::invoice::model::Invoice;
use crate::ledger::journal::JournalEntry;
use crate::ledger::state::{
    apply_effects, effects_safe, lemma_apply_effects_concat, lemma_effects_safe_concat,
    key_active, lemma_pair_known, pair_effects, Ledger,
};
use crate::keyed::{
    derefs, entry_keys, entry_values, has_key, key_index, key_lt, lemma_derefs_push,
    lemma_filter_take_step, lemma_lookup_after_update, lemma_take_full, lemma_take_push, lookup,
    sorted_keys, BookKey, Registry,
};
use crate::settlement::model::{
    has_obligation, obligation_computes, obligation_of, priority, ClaimStatus, SettlementClaim,
    SettlementObligation,
};

verus! {

/// The obligations a list of invoices leaves, each filed under its invoice id.
pub open spec fn obligation_entries(invs: Seq<Invoice>) -> Seq<(InvoiceId, SettlementObligation)> {
    invs.filter(|inv: Invoice| has_obligation(inv)).map_values(
        |inv: Invoice| (inv.id, obligation_of(inv)),
    )
}

pub open spec fn claim_amounts(cs: Seq<SettlementClaim>) -> Seq<int> {
    cs.map_values(|c: SettlementClaim| c.amount@)
}

pub open spec fn presentable_amounts(os: Seq<SettlementObligation>) -> Seq<int> {
    os.map_values(|o: SettlementObligation| o.presentable_amount@)
}

/// The claims still in flight: prepared or posted.
pub open spec fn active_claims(cs: Seq<SettlementClaim>) -> Seq<SettlementClaim> {
    cs.filter(|c: SettlementClaim| c.status.active())
}

pub open spec fn frozen_claims(cs: Seq<SettlementClaim>) -> Seq<SettlementClaim> {
    cs.filter(|c: SettlementClaim| c.status == ClaimStatus::Frozen)
}

/// Whether some claim in flight presents invoice `inv`.
pub open spec fn has_active(cs: Seq<SettlementClaim>, inv: Seq<char>) -> bool {
    exists|i: int| 0 <= i < cs.len() && (#[trigger] cs[i]).invoice_id@ == inv && cs[i].status.active()
}


/// The obligations due on `day`.
pub open spec fn due_obligations(os: Seq<SettlementObligation>, day: u32) -> Seq<SettlementObligation> {
    os.filter(|o: SettlementObligation| day >= o.due_day)
}

/// Where an obligation of priority `p` goes in a list sorted by decreasing priority:
/// after every obligation of at least that priority.
pub open spec fn priority_slot(sorted: Seq<SettlementObligation>, p: int, day: u32) -> int
    decreases sorted.len(),
{
    if sorted.len() == 0 {
        0
    } else if priority(sorted[0], day) < p {
        0
    } else {
        1 + priority_slot(sorted.drop_first(), p, day)
    }
}

/// The obligations ordered by decreasing priority, ties kept in the order they came in.
pub open spec fn by_priority(s: Seq<SettlementObligation>, day: u32) -> Seq<SettlementObligation>
    decreases s.len(),
{
    if s.len() == 0 {
        s
    } else {
        let rest = by_priority(s.drop_last(), day);
        rest.insert(priority_slot(rest, priority(s.last(), day), day), s.last())
    }
}

/// The obligations of a queue that get a claim: those whose invoice has no claim in flight,
/// neither before nor from an earlier obligation of the queue.
pub open spec fn claim_picks(queue: Seq<SettlementObligation>, cs: Seq<SettlementClaim>) -> Seq<
    SettlementObligation,
>
    decreases queue.len(),
{
    if queue.len() == 0 {
        Seq::empty()
    } else {
        let prev = claim_picks(queue.drop_last(), cs);
        let o = queue.last();
        if has_active(cs, o.invoice_id@) || (exists|k: int|
            0 <= k < prev.len() && (#[trigger] prev[k]).invoice_id@ == o.invoice_id@) {
            prev
        } else {
            prev.push(o)
        }
    }
}

/// Whether `c` is the claim prepared on `day` in `batch` for obligation `o`.
pub open spec fn claim_made(c: SettlementClaim, o: SettlementObligation, day: u32, batch: BatchId) -> bool {
    &&& c.invoice_id == o.invoice_id
    &&& c.buyer == o.buyer
    &&& c.merchant == o.merchant
    &&& c.amount == o.presentable_amount
    &&& c.created_day == day
    &&& c.batch_id == batch
    &&& c.status == ClaimStatus::Prepared
    &&& c.journal_tx is None
}

proof fn lemma_priority_slot(sorted: Seq<SettlementObligation>, p: int, day: u32, j: int)
    requires
        0 <= j <= sorted.len(),
        forall|k: int| 0 <= k < j ==> priority(#[trigger] sorted[k], day) >= p,
        j == sorted.len() || priority(sorted[j], day) < p,
    ensures
        priority_slot(sorted, p, day) == j,
    decreases j,
{
    if j > 0 {
        let t = sorted.drop_first();
        assert forall|k: int| 0 <= k < j - 1 implies priority(#[trigger] t[k], day) >= p by {
            assert(t[k] == sorted[k + 1]);
        }
        if j < sorted.len() {
            assert(t[j - 1] == sorted[j]);
        }
        lemma_priority_slot(t, p, day, j - 1);
    }
}

proof fn lemma_has_active_insert(s: Seq<SettlementClaim>, p: int, x: SettlementClaim, inv: Seq<char>)
    requires
        0 <= p <= s.len(),
    ensures
        has_active(s.insert(p, x), inv) == (has_active(s, inv) || (x.invoice_id@ == inv
            && x.status.active())),
{
    let t = s.insert(p, x);
    if has_active(s, inv) {
        let i = choose|i: int| 0 <= i < s.len() && (#[trigger] s[i]).invoice_id@ == inv && s[i].status.active();
        if i < p {
            assert(t[i] == s[i]);
        } else {
            assert(t[i + 1] == s[i]);
        }
    }
    if x.invoice_id@ == inv && x.status.active() {
        assert(t[p] == x);
    }
    if has_active(t, inv) {
        let i = choose|i: int| 0 <= i < t.len() && (#[trigger] t[i]).invoice_id@ == inv && t[i].status.active();
        if i < p {
            assert(t[i] == s[i]);
        } else if i > p {
            assert(t[i] == s[i - 1]);
        }
    }
}


/// What preparing the due claims of `day` in `batch` did, given the book before and after.
pub open spec fn prepared_claims(
    old: SettlementBook,
    new: SettlementBook,
    day: u32,
    batch: BatchId,
    r: SableResult<Vec<SettlementId>>,
) -> bool {
    let queue = by_priority(due_obligations(old.all_obligations(), day), day);
    let picks = claim_picks(queue, old.all_claims());
    &&& new.wf()
    &&& new.obligation_entries_spec() == old.obligation_entries_spec()
    &&& new.next_claim_spec() == old.next_claim_spec() + picks.len()
    &&& new.claim_entries().len() == old.claim_entries().len() + picks.len()
    &&& picks.len() == 0 ==> new.claim_entries() == old.claim_entries()
    &&& r matches Ok(ids) && {
        &&& ids@.len() == picks.len()
        &&& forall|k: int|
            0 <= k < ids@.len() ==> (#[trigger] ids@[k])@ == generated_text(
                SettlementId::prefix(),
                (old.next_claim_spec() + k) as u64,
            )
        &&& forall|k: int|
            0 <= k < ids@.len() ==> (lookup(new.claim_entries(), (#[trigger] ids@[k])@) matches Some(
                c,
            ) && c.id == ids@[k] && claim_made(c, picks[k], day, batch))
        &&& forall|key: Seq<char>|
            (forall|k: int| 0 <= k < ids@.len() ==> key != (#[trigger] ids@[k])@) ==> lookup(
                new.claim_entries(),
                key,
            ) == lookup(old.claim_entries(), key)
    }
}

/// Every obligation of the queue either has a claim in flight among `cs` or shares its
/// invoice with an obligation that was picked.
proof fn lemma_claim_picks_cover(queue: Seq<SettlementObligation>, cs: Seq<SettlementClaim>)
    ensures
        forall|m: int|
            0 <= m < queue.len() ==> has_active(cs, (#[trigger] queue[m]).invoice_id@) || exists|k: int|
                0 <= k < claim_picks(queue, cs).len() && (#[trigger] claim_picks(queue, cs)[k]).invoice_id@
                    == queue[m].invoice_id@,
    decreases queue.len(),
{
    if queue.len() > 0 {
        let init = queue.drop_last();
        lemma_claim_picks_cover(init, cs);
        let prev = claim_picks(init, cs);
        let picks = claim_picks(queue, cs);
        assert forall|m: int| 0 <= m < queue.len() implies has_active(cs, (#[trigger] queue[m]).invoice_id@)
            || exists|k: int| 0 <= k < picks.len() && (#[trigger] picks[k]).invoice_id@ == queue[m].invoice_id@ by {
            if m < init.len() {
                assert(init[m] == queue[m]);
                if !has_active(cs, queue[m].invoice_id@) {
                    let k = choose|k: int| 0 <= k < prev.len() && (#[trigger] prev[k]).invoice_id@ == init[m].invoice_id@;
                    assert(picks[k] == prev[k]);
                }
            } else {
                assert(queue[m] == queue.last());
                if !has_active(cs, queue[m].invoice_id@) {
                    if exists|k: int| 0 <= k < prev.len() && (#[trigger] prev[k]).invoice_id@ == queue.last().invoice_id@ {
                        let k = choose|k: int| 0 <= k < prev.len() && (#[trigger] prev[k]).invoice_id@ == queue.last().invoice_id@;
                        assert(picks[k] == prev[k]);
                    } else {
                        assert(picks[prev.len() as int] == queue.last());
                    }
                }
            }
        }
    }
}

/// Nothing is picked from a queue whose every invoice already has a claim in flight.
proof fn lemma_claim_picks_none(queue: Seq<SettlementObligation>, cs: Seq<SettlementClaim>)
    requires
        forall|m: int| 0 <= m < queue.len() ==> has_active(cs, (#[trigger] queue[m]).invoice_id@),
    ensures
        claim_picks(queue, cs).len() == 0,
    decreases queue.len(),
{
    if queue.len() > 0 {
        let init = queue.drop_last();
        assert forall|m: int| 0 <= m < init.len() implies has_active(cs, (#[trigger] init[m]).invoice_id@) by {
            assert(init[m] == queue[m]);
        }
        lemma_claim_picks_none(init, cs);
        assert(has_active(cs, queue[queue.len() - 1].invoice_id@));
    }
}

/// Preparing the due claims a second time at once, on the same day, prepares nothing:
/// after the first run every due obligation's invoice has a claim in flight, so the
/// second run picks no obligation, files no claim and leaves the book's claims as they were.
pub proof fn lemma_prepare_due_claims_idempotent(
    b0: SettlementBook,
    b1: SettlementBook,
    b2: SettlementBook,
    day: u32,
    batch1: BatchId,
    batch2: BatchId,
    r1: SableResult<Vec<SettlementId>>,
    r2: SableResult<Vec<SettlementId>>,
)
    requires
        b0.wf(),
        prepared_claims(b0, b1, day, batch1, r1),
        prepared_claims(b1, b2, day, batch2, r2),
    ensures
        r2 matches Ok(ids) && ids@.len() == 0,
        b2.claim_entries() == b1.claim_entries(),
        b2.obligation_entries_spec() == b1.obligation_entries_spec(),
        b2.claim_entries().len() == b1.claim_entries().len(),
        b2.next_claim_spec() == b1.next_claim_spec(),
        forall|key: Seq<char>| #[trigger] lookup(b2.claim_entries(), key) == lookup(b1.claim_entries(), key),
{
    let queue = by_priority(due_obligations(b0.all_obligations(), day), day);
    let cs0 = b0.all_claims();
    let picks = claim_picks(queue, cs0);
    let cs1 = b1.all_claims();
    let ids = r1->Ok_0;
    assert(b1.all_obligations() == b0.all_obligations());
    lemma_claim_picks_cover(queue, cs0);
    assert forall|m: int| 0 <= m < queue.len() implies has_active(cs1, (#[trigger] queue[m]).invoice_id@) by {
        let inv = queue[m].invoice_id@;
        if has_active(cs0, inv) {
            let i = choose|i: int| 0 <= i < cs0.len() && (#[trigger] cs0[i]).invoice_id@ == inv && cs0[i].status.active();
            let key = entry_keys(b0.claim_entries())[i];
            assert forall|k: int| 0 <= k < ids@.len() implies key != (#[trigger] ids@[k])@ by {
                assert(ids@[k]@ == generated_text(SettlementId::prefix(), (b0.next_claim_spec() + k) as u64));
            }
            crate::keyed::lemma_sorted_index_unique(entry_keys(b0.claim_entries()), i, key);
            assert(lookup(b1.claim_entries(), key) == Some(cs0[i]));
            let j = key_index(entry_keys(b1.claim_entries()), key);
            assert(cs1[j] == cs0[i]);
        } else {
            let k = choose|k: int| 0 <= k < picks.len() && (#[trigger] picks[k]).invoice_id@ == inv;
            assert(lookup(b1.claim_entries(), (ids@[k])@) matches Some(c) && claim_made(c, picks[k], day, batch1));
            let j = key_index(entry_keys(b1.claim_entries()), (ids@[k])@);
            assert(cs1[j].invoice_id@ == inv && cs1[j].status.active());
        }
    }
    lemma_claim_picks_none(queue, cs1);
}

proof fn lemma_claim_picks_grow(queue: Seq<SettlementObligation>, cs: Seq<SettlementClaim>, t: int)
    requires
        0 <= t <= queue.len(),
    ensures
        claim_picks(queue.take(t), cs).len() <= claim_picks(queue, cs).len(),
    decreases queue.len() - t,
{
    if t < queue.len() {
        lemma_claim_picks_grow(queue, cs, t + 1);
        assert(queue.take(t + 1).drop_last() =~= queue.take(t));
    } else {
        assert(queue.take(t) =~= queue);
    }
}


/// A preparation run claims each invoice at most once, never one that already has a claim
/// in flight, and claims only obligations of its queue.
pub proof fn lemma_claim_picks_once(queue: Seq<SettlementObligation>, cs: Seq<SettlementClaim>)
    ensures
        forall|k: int|
            0 <= k < claim_picks(queue, cs).len() ==> !has_active(
                cs,
                (#[trigger] claim_picks(queue, cs)[k]).invoice_id@,
            ),
        forall|i: int, j: int|
            0 <= i < j < claim_picks(queue, cs).len() ==> (#[trigger] claim_picks(queue, cs)[i]).invoice_id@
                != (#[trigger] claim_picks(queue, cs)[j]).invoice_id@,
        forall|k: int|
            0 <= k < claim_picks(queue, cs).len() ==> exists|m: int|
                0 <= m < queue.len() && queue[m] == #[trigger] claim_picks(queue, cs)[k],
    decreases queue.len(),
{
    if queue.len() > 0 {
        let prev = claim_picks(queue.drop_last(), cs);
        lemma_claim_picks_once(queue.drop_last(), cs);
        let picks = claim_picks(queue, cs);
        assert forall|k: int| 0 <= k < picks.len() implies exists|m: int|
            0 <= m < queue.len() && queue[m] == #[trigger] picks[k] by {
            if k < prev.len() {
                let m = choose|m: int| 0 <= m < queue.drop_last().len() && queue.drop_last()[m] == prev[k];
                assert(queue[m] == picks[k]);
            } else {
                assert(queue[queue.len() - 1] == picks[k]);
            }
        }
    }
}

/// The claim positions a posting run over `ids` posts, in order, and the position in
/// `ids` of the first id not in the book, if the run meets one.
pub open spec fn post_plan(cs: Seq<(SettlementId, SettlementClaim)>, ids: Seq<SettlementId>) -> (
    Seq<int>,
    Option<int>,
)
    decreases ids.len(),
{
    if ids.len() == 0 {
        (Seq::empty(), None)
    } else {
        let (prev, stop) = post_plan(cs, ids.drop_last());
        if stop is Some {
            (prev, stop)
        } else if !has_key(entry_keys(cs), ids.last()@) {
            (prev, Some((ids.len() - 1) as int))
        } else {
            let i = key_index(entry_keys(cs), ids.last()@);
            if cs[i].1.status == ClaimStatus::Prepared && !prev.contains(i) {
                (prev.push(i), None)
            } else {
                (prev, None)
            }
        }
    }
}

/// The ledger effects of posting the claims at these positions.
pub open spec fn posting_effects(
    cs: Seq<(SettlementId, SettlementClaim)>,
    posted: Seq<int>,
    receivable: AccountId,
    clearing: AccountId,
) -> Seq<(Seq<char>, int)>
    decreases posted.len(),
{
    if posted.len() == 0 {
        Seq::empty()
    } else {
        posting_effects(cs, posted.drop_last(), receivable, clearing) + pair_effects(
            clearing,
            receivable,
            cs[posted.last()].1.amount,
        )
    }
}

proof fn lemma_post_plan_prefix(cs: Seq<(SettlementId, SettlementClaim)>, ids: Seq<SettlementId>, t: int)
    requires
        0 <= t <= ids.len(),
        post_plan(cs, ids.take(t)).1 is None,
    ensures
        post_plan(cs, ids).0.len() >= post_plan(cs, ids.take(t)).0.len(),
        forall|k: int|
            0 <= k < post_plan(cs, ids.take(t)).0.len() ==> post_plan(cs, ids).0[k] == post_plan(
                cs,
                ids.take(t),
            ).0[k],
    decreases ids.len() - t,
{
    if t < ids.len() {
        assert(ids.take(t + 1).drop_last() =~= ids.take(t));
        if post_plan(cs, ids.take(t + 1)).1 is None {
            lemma_post_plan_prefix(cs, ids, t + 1);
        } else {
            lemma_post_plan_stopped(cs, ids, t + 1);
        }
    } else {
        assert(ids.take(t) =~= ids);
    }
}

proof fn lemma_post_plan_stopped(cs: Seq<(SettlementId, SettlementClaim)>, ids: Seq<SettlementId>, t: int)
    requires
        0 <= t <= ids.len(),
        post_plan(cs, ids.take(t)).1 is Some,
    ensures
        post_plan(cs, ids) == post_plan(cs, ids.take(t)),
    decreases ids.len() - t,
{
    if t < ids.len() {
        assert(ids.take(t + 1).drop_last() =~= ids.take(t));
        lemma_post_plan_stopped(cs, ids, t + 1);
    } else {
        assert(ids.take(t) =~= ids);
    }
}

proof fn lemma_posting_effects_prefix(
    cs: Seq<(SettlementId, SettlementClaim)>,
    full: Seq<int>,
    n: int,
    receivable: AccountId,
    clearing: AccountId,
)
    requires
        0 <= n <= full.len(),
    ensures
        posting_effects(cs, full, receivable, clearing) == posting_effects(
            cs,
            full.take(n),
            receivable,
            clearing,
        ) + posting_effects(cs, full.skip(n), receivable, clearing),
    decreases full.len(),
{
    if full.len() == n {
        assert(full.take(n) =~= full);
        assert(full.skip(n) =~= Seq::<int>::empty());
        assert(posting_effects(cs, full, receivable, clearing) + Seq::empty() =~= posting_effects(cs, full, receivable, clearing));
    } else {
        lemma_posting_effects_prefix(cs, full.drop_last(), n, receivable, clearing);
        assert(full.drop_last().take(n) =~= full.take(n));
        assert(full.skip(n).drop_last() =~= full.drop_last().skip(n));
        assert(full.skip(n).last() == full.last());
        assert(posting_effects(cs, full, receivable, clearing) =~= posting_effects(cs, full.take(n), receivable, clearing) + posting_effects(cs, full.skip(n), receivable, clearing));
    }
}

/// Whether both accounts a claim posting uses are in the active chart.
pub open spec fn posting_accounts_known(ledger: Ledger, receivable: AccountId, clearing: AccountId) -> bool {
    key_active(ledger.slots(), clearing@) && key_active(ledger.slots(), receivable@)
}

/// Whether posting the claims named by `ids` keeps every balance and the transaction
/// counter within range.
pub open spec fn claims_post_safely(
    book: SettlementBook,
    ids: Seq<SettlementId>,
    ledger: Ledger,
    receivable: AccountId,
    clearing: AccountId,
) -> bool {
    let posted = post_plan(book.claim_entries(), ids).0;
    &&& ledger.next_tx_spec() + posted.len() <= u64::MAX
    &&& posting_accounts_known(ledger, receivable, clearing) ==> effects_safe(
        ledger.slots(),
        posting_effects(book.claim_entries(), posted, receivable, clearing),
    )
}

/// Whether `e` is the journal entry that posted claim `c` on `day` under the transaction
/// numbered `tx`: clearing debited and the receivable credited by the claim's amount, for
/// the claim's invoice and batch.
pub open spec fn claim_entry(
    e: JournalEntry,
    c: SettlementClaim,
    day: u32,
    clearing: AccountId,
    receivable: AccountId,
    tx: Seq<char>,
) -> bool {
    &&& e.tx_id@ == tx
    &&& e.day == day
    &&& e.invoice_id == Some(c.invoice_id)
    &&& e.batch_id == Some(c.batch_id)
    &&& e.source@ == "settlement"@
    &&& e.lines@.len() == 2
    &&& e.lines@[0].account == clearing
    &&& e.lines@[0].debit == c.amount
    &&& e.lines@[0].credit@ == 0
    &&& e.lines@[1].account == receivable
    &&& e.lines@[1].debit@ == 0
    &&& e.lines@[1].credit == c.amount
}

/// Whether the first `n` claims of `posted` (indices into `cs`) carry, in `book`, the
/// transactions numbered from `first_tx` on, and the entries of `ledger` from `base` on
/// are the entries that posted them.
pub open spec fn claim_entries_linked(
    cs: Seq<(SettlementId, SettlementClaim)>,
    book: SettlementBook,
    posted: Seq<int>,
    ledger: Ledger,
    base: int,
    first_tx: int,
    day: u32,
    clearing: AccountId,
    receivable: AccountId,
) -> bool {
    forall|q: int|
        0 <= q < posted.len() ==> {
            let tx = generated_text(TxId::prefix(), (first_tx + q) as u64);
            &&& 0 <= posted[q] < cs.len()
            &&& (#[trigger] book.claim_entries()[posted[q]]).1.journal_tx matches Some(t) && t@ == tx
            &&& claim_entry(ledger.entries()[base + q], cs[posted[q]].1, day, clearing, receivable, tx)
        }
}

/// What posting the claims named by `ids` did to the book and the ledger, and returned.
pub open spec fn claims_posted(
    old_book: SettlementBook,
    new_book: SettlementBook,
    ids: Seq<SettlementId>,
    old_ledger: Ledger,
    new_ledger: Ledger,
    receivable: AccountId,
    clearing: AccountId,
    day: u32,
    r: SableResult<()>,
) -> bool {
    let cs = old_book.claim_entries();
    let (posted, stop) = post_plan(cs, ids);
    let known = posting_accounts_known(old_ledger, receivable, clearing);
    &&& new_book.wf()
    &&& new_ledger.wf()
    &&& new_book.obligation_entries_spec() == old_book.obligation_entries_spec()
    &&& new_book.next_claim_spec() == old_book.next_claim_spec()
    &&& new_book.claim_entries().len() == cs.len()
    &&& (known || posted.len() == 0) ==> {
        &&& new_ledger.slots() == apply_effects(
            old_ledger.slots(),
            posting_effects(cs, posted, receivable, clearing),
        )
        &&& new_ledger.next_tx_spec() == old_ledger.next_tx_spec() + posted.len()
        &&& new_ledger.entries().len() == old_ledger.entries().len() + posted.len()
        &&& new_ledger.entries().take(old_ledger.entries().len() as int) == old_ledger.entries()
        &&& claim_entries_linked(
            cs,
            new_book,
            posted,
            new_ledger,
            old_ledger.entries().len() as int,
            old_ledger.next_tx_spec() as int,
            day,
            clearing,
            receivable,
        )
        &&& forall|i: int|
            0 <= i < cs.len() ==> {
                let c = #[trigger] new_book.claim_entries()[i];
                &&& c.0 == cs[i].0
                &&& posted.contains(i) ==> c.1 == (SettlementClaim {
                    status: ClaimStatus::Posted,
                    journal_tx: c.1.journal_tx,
                    ..cs[i].1
                }) && c.1.journal_tx is Some
                &&& !posted.contains(i) ==> c.1 == cs[i].1
            }
        &&& stop is None ==> r is Ok
        &&& stop matches Some(j) ==> r == Err::<(), SableError>(
            SableError::SettlementNotFound(ids[j]),
        )
    }
    &&& !known && posted.len() > 0 ==> {
        &&& new_book.claim_entries() == cs
        &&& new_ledger.slots() == old_ledger.slots()
        &&& new_ledger.entries() == old_ledger.entries()
        &&& new_ledger.next_tx_spec() == old_ledger.next_tx_spec() + 1
        &&& r matches Err(SableError::AccountNotFound(a)) && if !key_active(
            old_ledger.slots(),
            clearing@,
        ) {
            a == clearing
        } else {
            a == receivable
        }
    }
}

/// Whether `c` is the claim prepared on `day` in `batch` for obligation `o`, since posted.
pub open spec fn claim_posted_for(c: SettlementClaim, o: SettlementObligation, day: u32, batch: BatchId) -> bool {
    &&& c.invoice_id == o.invoice_id
    &&& c.buyer == o.buyer
    &&& c.merchant == o.merchant
    &&& c.amount == o.presentable_amount
    &&& c.created_day == day
    &&& c.batch_id == batch
    &&& c.status == ClaimStatus::Posted
    &&& c.journal_tx is Some
}

/// Posting one prepared claim: the ledger takes its pair of effects, the claim turns
/// posted and every other claim stays as it was; with an account missing from the chart
/// nothing moves but the transaction counter.
pub proof fn lemma_post_single(
    b: SettlementBook,
    b2: SettlementBook,
    id: SettlementId,
    c: SettlementClaim,
    l: Ledger,
    l2: Ledger,
    receivable: AccountId,
    clearing: AccountId,
    day: u32,
    r: SableResult<()>,
)
    requires
        b.wf(),
        lookup(b.claim_entries(), id@) == Some(c),
        c.status == ClaimStatus::Prepared,
        claims_posted(b, b2, seq![id], l, l2, receivable, clearing, day, r),
    ensures
        post_plan(b.claim_entries(), seq![id]).0.len() == 1,
        posting_effects(b.claim_entries(), post_plan(b.claim_entries(), seq![id]).0, receivable, clearing)
            == pair_effects(clearing, receivable, c.amount),
        posting_accounts_known(l, receivable, clearing) ==> {
            &&& r is Ok
            &&& l2.slots() == apply_effects(l.slots(), pair_effects(clearing, receivable, c.amount))
            &&& l2.next_tx_spec() == l.next_tx_spec() + 1
            &&& l2.entries().len() == l.entries().len() + 1
            &&& lookup(b2.claim_entries(), id@) matches Some(c2) && c2 == (SettlementClaim {
                status: ClaimStatus::Posted,
                journal_tx: c2.journal_tx,
                ..c
            }) && c2.journal_tx is Some
            &&& forall|key: Seq<char>|
                key != id@ ==> #[trigger] lookup(b2.claim_entries(), key) == lookup(b.claim_entries(), key)
        },
{
    let cs = b.claim_entries();
    let ids = seq![id];
    let i = key_index(entry_keys(cs), id@);
    reveal_with_fuel(post_plan, 2);
    reveal_with_fuel(posting_effects, 2);
    assert(ids.drop_last() =~= Seq::<SettlementId>::empty());
    assert(ids.last() == id);
    assert(cs[i].1 == c);
    let empty = Seq::<int>::empty();
    assert(!empty.contains(i));
    assert(post_plan(cs, ids).0 == seq![i]);
    assert(seq![i].drop_last() =~= empty);
    assert(posting_effects(cs, seq![i], receivable, clearing) =~= pair_effects(clearing, receivable, c.amount));
    if posting_accounts_known(l, receivable, clearing) {
        let posted = seq![i];
        let c2 = b2.claim_entries()[i].1;
        assert(posted.contains(i)) by {
            assert(posted[0] == i);
        }
        assert forall|j: int| 0 <= j < cs.len() && j != i implies !posted.contains(j) by {
            if posted.contains(j) {
                let k = choose|k: int| 0 <= k < posted.len() && posted[k] == j;
                assert(posted[k] == i);
            }
        }
        assert(b2.claim_entries() =~= cs.update(i, (cs[i].0, c2))) by {
            assert forall|j: int| 0 <= j < cs.len() implies b2.claim_entries()[j] == cs.update(i, (cs[i].0, c2))[j] by {
                let e = b2.claim_entries()[j];
                assert(e.0 == cs[j].0);
            }
        }
        assert forall|key: Seq<char>|
            key != id@ implies #[trigger] lookup(b2.claim_entries(), key) == lookup(cs, key) by {
            lemma_lookup_after_update(cs, i, c2, key);
        }
        lemma_lookup_after_update(cs, i, c2, id@);
    }
}

/// Claims, obligations and the claim counter, with claim keys clear of every id the
/// counter will still generate.
pub struct SettlementBook {
    claims: Registry<SettlementId, SettlementClaim>,
    obligations: Registry<InvoiceId, SettlementObligation>,
    next_claim: u64,
}

impl SettlementBook {
    pub closed spec fn claim_entries(&self) -> Seq<(SettlementId, SettlementClaim)> {
        self.claims.entries()
    }

    pub closed spec fn obligation_entries_spec(&self) -> Seq<(InvoiceId, SettlementObligation)> {
        self.obligations.entries()
    }

    pub closed spec fn next_claim_spec(&self) -> u64 {
        self.next_claim
    }

    pub open spec fn all_claims(&self) -> Seq<SettlementClaim> {
        entry_values(self.claim_entries())
    }

    pub open spec fn all_obligations(&self) -> Seq<SettlementObligation> {
        entry_values(self.obligation_entries_spec())
    }

    pub open spec fn wf(&self) -> bool {
        &&& sorted_keys(entry_keys(self.claim_entries()))
        &&& sorted_keys(entry_keys(self.obligation_entries_spec()))
        &&& forall|i: int, n: u64|
            #![trigger entry_keys(self.claim_entries())[i], generated_text(SettlementId::prefix(), n)]
            0 <= i < self.claim_entries().len() && n >= self.next_claim_spec() ==> entry_keys(
                self.claim_entries(),
            )[i] != generated_text(SettlementId::prefix(), n)
    }

    pub fn new() -> (r: SettlementBook)
        ensures
            r.wf(),
            r.claim_entries() == Seq::<(SettlementId, SettlementClaim)>::empty(),
            r.obligation_entries_spec() == Seq::<(InvoiceId, SettlementObligation)>::empty(),
            r.next_claim_spec() == 1,
    {
        SettlementBook { claims: Registry::new(), obligations: Registry::new(), next_claim: 1 }
    }

    /// Rebuilds the obligations from the invoices, in invoice id order.
    pub fn refresh(&mut self, invoices: &InvoiceBook)
        requires
            old(self).wf(),
            invoices.wf(),
            forall|i: int|
                0 <= i < invoices.all().len() && obligation_computes(#[trigger] invoices.all()[i])
                    ==> fits_i64(invoices.all()[i].gross()),
        ensures
            final(self).wf(),
            final(self).obligation_entries_spec() == obligation_entries(invoices.all()),
            final(self).claim_entries() == old(self).claim_entries(),
            final(self).next_claim_spec() == old(self).next_claim_spec(),
    {
        self.obligations.clear();
        let ghost invs = invoices.all();
        let ghost pred = |inv: Invoice| has_obligation(inv);
        let ghost f = |inv: Invoice| (inv.id, obligation_of(inv));
        let list = invoices.values();
        let n = list.len();
        let mut i: usize = 0;
        while i < n
            invariant
                pred == (|inv: Invoice| has_obligation(inv)),
                f == (|inv: Invoice| (inv.id, obligation_of(inv))),
                invs == invoices.all(),
                invoices.wf(),
                derefs(list@) == invs,
                n == invs.len(),
                i <= n,
                forall|j: int|
                    0 <= j < invs.len() && obligation_computes(#[trigger] invs[j]) ==> fits_i64(
                        invs[j].gross(),
                    ),
                self.obligations.wf(),
                self.obligations.entries() == invs.take(i as int).filter(pred).map_values(f),
                forall|m: int, j: int|
                    0 <= m < self.obligations.entries().len() && i <= j < n ==> key_lt(
                        #[trigger] entry_keys(self.obligations.entries())[m],
                        #[trigger] invs[j].id@,
                    ),
                self.claims == old(self).claims,
                self.next_claim == old(self).next_claim,
            decreases n - i,
        {
            let inv = list[i];
            assert(*inv == invs[i as int]);
            proof {
                lemma_filter_take_step(invs, pred, i as int);
                assert(entry_keys(invoices@)[i as int] == invs[i as int].id@);
            }
            match SettlementObligation::from_invoice(inv) {
                Some(obligation) => {
                    let key = obligation.invoice_id.duplicate();
                    let ghost before = self.obligations.entries();
                    self.obligations.push_greatest(key, obligation);
                    proof {
                        assert(self.obligations.entries() =~= invs.take(i + 1).filter(pred).map_values(f));
                        assert forall|m: int, j: int|
                            0 <= m < self.obligations.entries().len() && i + 1 <= j < n implies key_lt(
                            #[trigger] entry_keys(self.obligations.entries())[m],
                            #[trigger] invs[j].id@,
                        ) by {
                            assert(entry_keys(invoices@)[j] == invs[j].id@);
                            if m < before.len() {
                                assert(entry_keys(self.obligations.entries())[m] == entry_keys(before)[m]);
                                assert(key_lt(entry_keys(before)[m], invs[j].id@));
                            } else {
                                assert(key_lt(entry_keys(invoices@)[i as int], entry_keys(invoices@)[j]));
                            }
                        }
                    }
                },
                None => {
                    assert(self.obligations.entries() =~= invs.take(i + 1).filter(pred).map_values(f));
                },
            }
            i += 1;
        }
        proof {
            lemma_take_full(invs);
        }
    }

    proof fn lemma_claim_update_keeps_wf(&self, i: int, c: SettlementClaim)
        requires
            self.wf(),
            0 <= i < self.claim_entries().len(),
        ensures
            entry_keys(self.claim_entries().update(i, (self.claim_entries()[i].0, c))) == entry_keys(
                self.claim_entries(),
            ),
    {
        lemma_lookup_after_update(self.claim_entries(), i, c, self.claim_entries()[i].0.key());
    }

    pub fn get(&self, id: &SettlementId) -> (r: SableResult<&SettlementClaim>)
        requires
            self.wf(),
        ensures
            match lookup(self.claim_entries(), id@) {
                None => r == Err::<&SettlementClaim, SableError>(SableError::SettlementNotFound(*id)),
                Some(c) => r == Ok::<&SettlementClaim, SableError>(&c),
            },
    {
        match self.claims.find(id.as_str()) {
            Some(c) => Ok(c),
            None => Err(SableError::SettlementNotFound(id.duplicate())),
        }
    }

    pub fn get_mut(&mut self, id: &SettlementId) -> (r: SableResult<&mut SettlementClaim>)
        requires
            old(self).wf(),
        ensures
            final(self).wf(),
            final(self).obligation_entries_spec() == old(self).obligation_entries_spec(),
            final(self).next_claim_spec() == old(self).next_claim_spec(),
            match r {
                Ok(c) => {
                    let i = key_index(entry_keys(old(self).claim_entries()), id@);
                    &&& lookup(old(self).claim_entries(), id@) == Some(*c)
                    &&& final(self).claim_entries() == old(self).claim_entries().update(
                        i,
                        (old(self).claim_entries()[i].0, *final(c)),
                    )
                },
                Err(e) => lookup(old(self).claim_entries(), id@) is None && e
                    == SableError::SettlementNotFound(*id) && final(self).claim_entries() == old(
                    self,
                ).claim_entries(),
            },
    {
        proof {
            assert forall|i: int, c: SettlementClaim|
                0 <= i < self.claim_entries().len() implies #[trigger] entry_keys(
                self.claim_entries().update(i, (self.claim_entries()[i].0, c)),
            ) == entry_keys(self.claim_entries()) by {
                self.lemma_claim_update_keeps_wf(i, c);
            }
        }
        match self.claims.find_mut(id.as_str()) {
            Some(c) => Ok(c),
            None => Err(SableError::SettlementNotFound(id.duplicate())),
        }
    }

    /// Sets the status of the claim filed under `id`.
    fn set_status(&mut self, id: &SettlementId, status: ClaimStatus) -> (r: SableResult<()>)
        requires
            old(self).wf(),
        ensures
            final(self).wf(),
            final(self).obligation_entries_spec() == old(self).obligation_entries_spec(),
            final(self).next_claim_spec() == old(self).next_claim_spec(),
            match lookup(old(self).claim_entries(), id@) {
                None => r == Err::<(), SableError>(SableError::SettlementNotFound(*id))
                    && final(self).claim_entries() == old(self).claim_entries(),
                Some(c) => r is Ok && final(self).claim_entries() == old(
                    self,
                ).claim_entries().update(
                    key_index(entry_keys(old(self).claim_entries()), id@),
                    (
                        old(self).claim_entries()[key_index(
                            entry_keys(old(self).claim_entries()),
                            id@,
                        )].0,
                        SettlementClaim { status, ..c },
                    ),
                ),
            },
    {
        match self.get_mut(id) {
            Ok(c) => {
                c.status = status;
                Ok(())
            },
            Err(e) => Err(e),
        }
    }

    /// Marks the claim filed under `id` as settled.
    pub fn settle_claim(&mut self, id: &SettlementId) -> (r: SableResult<()>)
        requires
            old(self).wf(),
        ensures
            final(self).wf(),
            final(self).obligation_entries_spec() == old(self).obligation_entries_spec(),
            final(self).next_claim_spec() == old(self).next_claim_spec(),
            match lookup(old(self).claim_entries(), id@) {
                None => r == Err::<(), SableError>(SableError::SettlementNotFound(*id))
                    && final(self).claim_entries() == old(self).claim_entries(),
                Some(c) => r is Ok && final(self).claim_entries() == old(
                    self,
                ).claim_entries().update(
                    key_index(entry_keys(old(self).claim_entries()), id@),
                    (
                        old(self).claim_entries()[key_index(
                            entry_keys(old(self).claim_entries()),
                            id@,
                        )].0,
                        SettlementClaim { status: ClaimStatus::Settled, ..c },
                    ),
                ),
            },
    {
        self.set_status(id, ClaimStatus::Settled)
    }

    /// Marks the claim filed under `id` as frozen.
    pub fn freeze_claim(&mut self, id: &SettlementId) -> (r: SableResult<()>)
        requires
            old(self).wf(),
        ensures
            final(self).wf(),
            final(self).obligation_entries_spec() == old(self).obligation_entries_spec(),
            final(self).next_claim_spec() == old(self).next_claim_spec(),
            match lookup(old(self).claim_entries(), id@) {
                None => r == Err::<(), SableError>(SableError::SettlementNotFound(*id))
                    && final(self).claim_entries() == old(self).claim_entries(),
                Some(c) => r is Ok && final(self).claim_entries() == old(
                    self,
                ).claim_entries().update(
                    key_index(entry_keys(old(self).claim_entries()), id@),
                    (
                        old(self).claim_entries()[key_index(
                            entry_keys(old(self).claim_entries()),
                            id@,
                        )].0,
                        SettlementClaim { status: ClaimStatus::Frozen, ..c },
                    ),
                ),
            },
    {
        self.set_status(id, ClaimStatus::Frozen)
    }

    /// Marks the claim filed under `id` as cancelled.
    pub fn cancel_claim(&mut self, id: &SettlementId) -> (r: SableResult<()>)
        requires
            old(self).wf(),
        ensures
            final(self).wf(),
            final(self).obligation_entries_spec() == old(self).obligation_entries_spec(),
            final(self).next_claim_spec() == old(self).next_claim_spec(),
            match lookup(old(self).claim_entries(), id@) {
                None => r == Err::<(), SableError>(SableError::SettlementNotFound(*id))
                    && final(self).claim_entries() == old(self).claim_entries(),
                Some(c) => r is Ok && final(self).claim_entries() == old(
                    self,
                ).claim_entries().update(
                    key_index(entry_keys(old(self).claim_entries()), id@),
                    (
                        old(self).claim_entries()[key_index(
                            entry_keys(old(self).claim_entries()),
                            id@,
                        )].0,
                        SettlementClaim { status: ClaimStatus::Cancelled, ..c },
                    ),
                ),
            },
    {
        self.set_status(id, ClaimStatus::Cancelled)
    }

    /// The obligations, in invoice id order.
    pub fn obligations(&self) -> (r: Vec<&SettlementObligation>)
        ensures
            derefs(r@) == self.all_obligations(),
    {
        let n = self.obligations.len();
        let mut r: Vec<&SettlementObligation> = Vec::new();
        let mut i: usize = 0;
        while i < n
            invariant
                n == self.all_obligations().len(),
                i <= n,
                derefs(r@) == self.all_obligations().take(i as int),
            decreases n - i,
        {
            let x = self.obligations.value_at(i);
            proof {
                lemma_derefs_push(r@, x);
                lemma_take_push(self.all_obligations(), i as int);
            }
            r.push(x);
            i += 1;
        }
        proof {
            lemma_take_full(self.all_obligations());
        }
        r
    }

    /// The claims, in claim id order.
    pub fn claims(&self) -> (r: Vec<&SettlementClaim>)
        ensures
            derefs(r@) == self.all_claims(),
    {
        let n = self.claims.len();
        let mut r: Vec<&SettlementClaim> = Vec::new();
        let mut i: usize = 0;
        while i < n
            invariant
                n == self.all_claims().len(),
                i <= n,
                derefs(r@) == self.all_claims().take(i as int),
            decreases n - i,
        {
            let x = self.claims.value_at(i);
            proof {
                lemma_derefs_push(r@, x);
                lemma_take_push(self.all_claims(), i as int);
            }
            r.push(x);
            i += 1;
        }
        proof {
            lemma_take_full(self.all_claims());
        }
        r
    }

    pub(crate) fn try_active_claim_total(&self) -> (r: Option<Money>)
        ensures
            running_sums_fit(claim_amounts(active_claims(self.all_claims()))) ==> r == Some(
                Money { cents: seq_sum(claim_amounts(active_claims(self.all_claims()))) as i64 },
            ),
            !running_sums_fit(claim_amounts(active_claims(self.all_claims()))) ==> r is None,
    {
        let ghost cs = self.all_claims();
        let ghost p = |c: SettlementClaim| c.status.active();
        let ghost val = |c: SettlementClaim| c.amount@;
        let n = self.claims.len();
        let mut acc: i64 = 0;
        let mut i: usize = 0;
        while i < n
            invariant
                p == (|c: SettlementClaim| c.status.active()),
                val == (|c: SettlementClaim| c.amount@),
                cs == self.all_claims(),
                n == cs.len(),
                i <= n,
                running_sums_fit(cs.take(i as int).filter(p).map_values(val)),
                acc == seq_sum(cs.take(i as int).filter(p).map_values(val)),
            decreases n - i,
        {
            let c = self.claims.value_at(i);
            assert(*c == cs[i as int]);
            proof {
                lemma_filter_take_step(cs, p, i as int);
            }
            if c.status == ClaimStatus::Prepared || c.status == ClaimStatus::Posted {
                let ghost g = cs.take(i + 1).filter(p).map_values(val);
                let ghost g0 = cs.take(i as int).filter(p).map_values(val);
                proof {
                    assert(g =~= g0.push(c.amount@));
                    assert(g.drop_last() =~= g0);
                    crate::amount::lemma_seq_sum_drop_last(g);
                }
                match acc.checked_add(c.amount.cents) {
                    Some(s) => {
                        acc = s;
                        proof {
                            assert forall|k: nat| 1 <= k <= g.len() implies fits_i64(
                                #[trigger] sum_first(g, k),
                            ) by {
                                if k < g.len() {
                                    crate::amount::lemma_sum_first_same_prefix(g, g0, k);
                                }
                            }
                        }
                    },
                    None => {
                        proof {
                            assert(!fits_i64(sum_first(g, g.len())));
                            crate::keyed::lemma_filter_split(cs, p, i + 1);
                            let fv = cs.filter(p).map_values(val);
                            assert forall|j: int| 0 <= j < g.len() implies fv[j] == g[j] by {
                                assert(cs.filter(p)[j] == cs.take(i + 1).filter(p)[j]);
                            }
                            crate::amount::lemma_sum_first_same_prefix(fv, g, g.len());
                        }
                        return None;
                    },
                }
            } else {
                assert(cs.take(i + 1).filter(p).map_values(val) =~= cs.take(i as int).filter(
                    p,
                ).map_values(val));
            }
            i += 1;
        }
        proof {
            lemma_take_full(cs);
        }
        Some(Money { cents: acc })
    }

    /// Sum of the claims still in flight.
    pub fn active_claim_total(&self) -> (r: Money)
        requires
            running_sums_fit(claim_amounts(active_claims(self.all_claims()))),
        ensures
            r@ == seq_sum(claim_amounts(active_claims(self.all_claims()))),
    {
        match self.try_active_claim_total() {
            Some(m) => m,
            None => Money::zero(),
        }
    }

    pub(crate) fn try_frozen_total(&self) -> (r: Option<Money>)
        ensures
            running_sums_fit(claim_amounts(frozen_claims(self.all_claims()))) ==> r == Some(
                Money { cents: seq_sum(claim_amounts(frozen_claims(self.all_claims()))) as i64 },
            ),
            !running_sums_fit(claim_amounts(frozen_claims(self.all_claims()))) ==> r is None,
    {
        let ghost cs = self.all_claims();
        let ghost p = |c: SettlementClaim| c.status == ClaimStatus::Frozen;
        let ghost val = |c: SettlementClaim| c.amount@;
        let n = self.claims.len();
        let mut acc: i64 = 0;
        let mut i: usize = 0;
        while i < n
            invariant
                p == (|c: SettlementClaim| c.status == ClaimStatus::Frozen),
                val == (|c: SettlementClaim| c.amount@),
                cs == self.all_claims(),
                n == cs.len(),
                i <= n,
                running_sums_fit(cs.take(i as int).filter(p).map_values(val)),
                acc == seq_sum(cs.take(i as int).filter(p).map_values(val)),
            decreases n - i,
        {
            let c = self.claims.value_at(i);
            assert(*c == cs[i as int]);
            proof {
                lemma_filter_take_step(cs, p, i as int);
            }
            if c.status == ClaimStatus::Frozen {
                let ghost g = cs.take(i + 1).filter(p).map_values(val);
                let ghost g0 = cs.take(i as int).filter(p).map_values(val);
                proof {
                    assert(g =~= g0.push(c.amount@));
                    assert(g.drop_last() =~= g0);
                    crate::amount::lemma_seq_sum_drop_last(g);
                }
                match acc.checked_add(c.amount.cents) {
                    Some(s) => {
                        acc = s;
                        proof {
                            assert forall|k: nat| 1 <= k <= g.len() implies fits_i64(
                                #[trigger] sum_first(g, k),
                            ) by {
                                if k < g.len() {
                                    crate::amount::lemma_sum_first_same_prefix(g, g0, k);
                                }
                            }
                        }
                    },
                    None => {
                        proof {
                            assert(!fits_i64(sum_first(g, g.len())));
                            crate::keyed::lemma_filter_split(cs, p, i + 1);
                            let fv = cs.filter(p).map_values(val);
                            assert forall|j: int| 0 <= j < g.len() implies fv[j] == g[j] by {
                                assert(cs.filter(p)[j] == cs.take(i + 1).filter(p)[j]);
                            }
                            crate::amount::lemma_sum_first_same_prefix(fv, g, g.len());
                        }
                        return None;
                    },
                }
            } else {
                assert(cs.take(i + 1).filter(p).map_values(val) =~= cs.take(i as int).filter(
                    p,
                ).map_values(val));
            }
            i += 1;
        }
        proof {
            lemma_take_full(cs);
        }
        Some(Money { cents: acc })
    }

    /// Sum of the frozen claims.
    pub fn frozen_total(&self) -> (r: Money)
        requires
            running_sums_fit(claim_amounts(frozen_claims(self.all_claims()))),
        ensures
            r@ == seq_sum(claim_amounts(frozen_claims(self.all_claims()))),
    {
        match self.try_frozen_total() {
            Some(m) => m,
            None => Money::zero(),
        }
    }

    pub(crate) fn try_obligation_total(&self) -> (r: Option<Money>)
        ensures
            running_sums_fit(presentable_amounts(self.all_obligations())) ==> r == Some(
                Money { cents: seq_sum(presentable_amounts(self.all_obligations())) as i64 },
            ),
            !running_sums_fit(presentable_amounts(self.all_obligations())) ==> r is None,
    {
        let ghost vals = presentable_amounts(self.all_obligations());
        let n = self.obligations.len();
        let mut acc: i64 = 0;
        let mut i: usize = 0;
        while i < n
            invariant
                n == self.all_obligations().len(),
                vals == presentable_amounts(self.all_obligations()),
                i <= n,
                forall|k: nat| 1 <= k <= i ==> fits_i64(#[trigger] sum_first(vals, k)),
                acc == sum_first(vals, i as nat),
            decreases n - i,
        {
            let o = self.obligations.value_at(i);
            assert(*o == self.all_obligations()[i as int]);
            match acc.checked_add(o.presentable_amount.cents) {
                Some(s) => {
                    acc = s;
                },
                None => {
                    assert(!fits_i64(sum_first(vals, (i + 1) as nat)));
                    return None;
                },
            }
            i += 1;
        }
        assert(vals.len() == n);
        Some(Money { cents: acc })
    }

    /// Sum of what the obligations leave to present.
    pub fn obligation_total(&self) -> (r: Money)
        requires
            running_sums_fit(presentable_amounts(self.all_obligations())),
        ensures
            r@ == seq_sum(presentable_amounts(self.all_obligations())),
    {
        match self.try_obligation_total() {
            Some(m) => m,
            None => Money::zero(),
        }
    }

    /// How many claims are posted.
    pub fn posted_count(&self) -> (r: usize)
        ensures
            r == self.all_claims().filter(|c: SettlementClaim| c.status == ClaimStatus::Posted).len(),
    {
        let ghost pred = |c: SettlementClaim| c.status == ClaimStatus::Posted;
        let n = self.claims.len();
        let mut count: usize = 0;
        let mut i: usize = 0;
        while i < n
            invariant
                pred == (|c: SettlementClaim| c.status == ClaimStatus::Posted),
                n == self.all_claims().len(),
                i <= n,
                count == self.all_claims().take(i as int).filter(pred).len(),
            decreases n - i,
        {
            let c = self.claims.value_at(i);
            assert(*c == self.all_claims()[i as int]);
            proof {
                lemma_filter_take_step(self.all_claims(), pred, i as int);
                self.all_claims().take(i as int).lemma_filter_len(pred);
            }
            if c.status == ClaimStatus::Posted {
                count += 1;
            }
            i += 1;
        }
        proof {
            lemma_take_full(self.all_claims());
        }
        count
    }


    /// Prepares a claim for every due obligation, highest priority first, skipping
    /// invoices that already have a claim in flight.
    #[verifier::loop_isolation(false)]
    pub fn prepare_due_claims(&mut self, day: u32, batch_id: BatchId) -> (r: SableResult<
        Vec<SettlementId>,
    >)
        requires
            old(self).wf(),
            old(self).next_claim_spec() + claim_picks(
                by_priority(due_obligations(old(self).all_obligations(), day), day),
                old(self).all_claims(),
            ).len() <= u64::MAX,
        ensures
            prepared_claims(*old(self), *final(self), day, batch_id, r),
    {
        let ghost os = self.all_obligations();
        let ghost dp = |o: SettlementObligation| day >= o.due_day;
        let ghost at = |k: usize| os[k as int];
        let n = self.obligations.len();
        let mut due: Vec<usize> = Vec::new();
        let mut i: usize = 0;
        while i < n
            invariant
                i <= n,
                forall|k: int| 0 <= k < due@.len() ==> due@[k] < n,
                due@.map_values(at) == os.take(i as int).filter(dp),
            decreases n - i,
        {
            let o = self.obligations.value_at(i);
            assert(*o == os[i as int]);
            proof {
                lemma_filter_take_step(os, dp, i as int);
            }
            if o.is_due(day) {
                let ghost before = due@;
                due.push(i);
                assert(due@.map_values(at) =~= before.map_values(at).push(os[i as int]));
            }
            i += 1;
        }
        proof {
            lemma_take_full(os);
        }
        let ghost dseq = due@.map_values(at);
        assert(dseq == due_obligations(os, day));
        let m = due.len();
        let mut order: Vec<usize> = Vec::new();
        let mut scores: Vec<i64> = Vec::new();
        let mut t: usize = 0;
        while t < m
            invariant
                t <= m,
                order@.map_values(at) == by_priority(dseq.take(t as int), day),
                scores@.len() == order@.len(),
                forall|j: int| 0 <= j < order@.len() ==> order@[j] < n,
                forall|j: int|
                    0 <= j < order@.len() ==> scores@[j] == priority(#[trigger] os[order@[j] as int], day),
            decreases m - t,
        {
            let d = due[t];
            let o = self.obligations.value_at(d);
            assert(*o == os[d as int]);
            let p = o.priority_score(day);
            let ghost sorted = order@.map_values(at);
            let mut j: usize = 0;
            while j < order.len() && scores[j] >= p
                invariant
                    j <= order@.len(),
                    forall|k: int| 0 <= k < j ==> scores@[k] >= p,
                decreases order@.len() - j,
            {
                j += 1;
            }
            proof {
                assert forall|k: int| 0 <= k < j implies priority(#[trigger] sorted[k], day) >= p by {
                    assert(sorted[k] == os[order@[k] as int]);
                }
                if j < order@.len() {
                    assert(sorted[j as int] == os[order@[j as int] as int]);
                }
                lemma_priority_slot(sorted, p as int, day, j as int);
                assert(dseq.take(t + 1).drop_last() =~= dseq.take(t as int));
                assert(dseq.take(t + 1).last() == os[d as int]);
            }
            order.insert(j, d);
            scores.insert(j, p);
            assert(order@.map_values(at) =~= sorted.insert(j as int, os[d as int]));
            t += 1;
        }
        proof {
            assert(dseq.take(m as int) =~= dseq);
        }
        let ghost queue = order@.map_values(at);
        let ghost old_cs = self.all_claims();
        let ghost old_entries = self.claim_entries();
        let ghost next0 = self.next_claim;
        let ghost prefix = SettlementId::prefix();
        proof {
            lemma_claim_picks_grow(queue, old_cs, 0);
        }
        let mut ids: Vec<SettlementId> = Vec::new();
        let ghost mut made: Seq<SettlementClaim> = Seq::empty();
        let q = order.len();
        let mut t: usize = 0;
        while t < q
            invariant
                t <= q,
                q == queue.len(),
                ids@.len() == claim_picks(queue.take(t as int), old_cs).len(),
                made.len() == ids@.len(),
                self.next_claim == next0 + made.len(),
                self.next_claim + claim_picks(queue, old_cs).len() - made.len() <= u64::MAX,
                made.len() <= claim_picks(queue, old_cs).len(),
                self.obligations == old(self).obligations,
                self.wf(),
                forall|k: int|
                    0 <= k < ids@.len() ==> (#[trigger] ids@[k])@ == generated_text(
                        prefix,
                        (next0 + k) as u64,
                    ),
                forall|k: int|
                    0 <= k < ids@.len() ==> lookup(self.claim_entries(), (#[trigger] ids@[k])@)
                        == Some(made[k]) && made[k].id == ids@[k] && claim_made(
                        made[k],
                        claim_picks(queue.take(t as int), old_cs)[k],
                        day,
                        batch_id,
                    ),
                forall|key: Seq<char>|
                    (forall|k: int| 0 <= k < ids@.len() ==> key != (#[trigger] ids@[k])@) ==> lookup(
                        self.claim_entries(),
                        key,
                    ) == lookup(old_entries, key),
                self.claim_entries().len() == old_entries.len() + made.len(),
                made.len() == 0 ==> self.claim_entries() == old_entries,
                forall|inv: Seq<char>|
                    #[trigger] has_active(self.all_claims(), inv) == (has_active(old_cs, inv) || exists|
                        k: int,
                    |
                        0 <= k < made.len() && (#[trigger] claim_picks(
                            queue.take(t as int),
                            old_cs,
                        )[k]).invoice_id@ == inv),
            decreases q - t,
        {
            let ghost picks_t = claim_picks(queue.take(t as int), old_cs);
            proof {
                assert(queue.take(t + 1).drop_last() =~= queue.take(t as int));
                assert(queue.take(t + 1).last() == queue[t as int]);
                lemma_claim_picks_grow(queue, old_cs, t + 1);
            }
            let idx = order[t];
            let o = self.obligations.value_at(idx);
            assert(*o == queue[t as int]);
            if self.has_active_claim_for(&o.invoice_id) {
                assert(claim_picks(queue.take(t + 1), old_cs) == picks_t);
                t += 1;
                continue;
            }
            assert(claim_picks(queue.take(t + 1), old_cs) == picks_t.push(*o));
            let id = SettlementId::generated(self.next_claim);
            let ghost cur = self.claim_entries();
            proof {
                if has_key(entry_keys(cur), id@) {
                    let j = key_index(entry_keys(cur), id@);
                    assert(entry_keys(cur)[j] == id@);
                }
            }
            self.next_claim = self.next_claim + 1;
            let claim = SettlementClaim::new(id.duplicate(), o, day, batch_id.duplicate());
            let ghost c = claim;
            let inserted = self.claims.insert_new(id.duplicate(), claim);
            assert(inserted);
            proof {
                let p = choose|p: int|
                    0 <= p <= cur.len() && self.claim_entries() == cur.insert(p, (id, c));
                assert forall|key: Seq<char>| #[trigger] lookup(self.claim_entries(), key) == if key == id@ {
                    Some(c)
                } else {
                    lookup(cur, key)
                } by {
                    crate::keyed::lemma_lookup_after_insert(cur, p, id, c, key);
                }
                assert(entry_values(self.claim_entries()) =~= entry_values(cur).insert(p, c));
                assert forall|inv: Seq<char>| #[trigger] has_active(self.all_claims(), inv) == (has_active(
                    entry_values(cur),
                    inv,
                ) || (c.invoice_id@ == inv && c.status.active())) by {
                    lemma_has_active_insert(entry_values(cur), p, c, inv);
                }
                assert forall|k: int| 0 <= k < ids@.len() implies (#[trigger] ids@[k])@ != id@ by {
                    if ids@[k]@ == id@ {
                        lemma_generated_injective(prefix, (next0 + k) as u64, (next0 + made.len()) as u64);
                    }
                }
                assert forall|i2: int, n2: u64|
                    #![trigger entry_keys(self.claim_entries())[i2], generated_text(SettlementId::prefix(), n2)]
                    0 <= i2 < self.claim_entries().len() && n2 >= self.next_claim implies entry_keys(
                    self.claim_entries(),
                )[i2] != generated_text(SettlementId::prefix(), n2) by {
                    if i2 == p {
                        if id@ == generated_text(SettlementId::prefix(), n2) {
                            lemma_generated_injective(prefix, (next0 + made.len()) as u64, n2);
                        }
                    } else if i2 < p {
                        assert(entry_keys(self.claim_entries())[i2] == entry_keys(cur)[i2]);
                    } else {
                        assert(entry_keys(self.claim_entries())[i2] == entry_keys(cur)[i2 - 1]);
                    }
                }
                made = made.push(c);
            }
            let ghost ids_before = ids@;
            ids.push(id);
            proof {
                let picks_next = claim_picks(queue.take(t + 1), old_cs);
                assert(picks_next == picks_t.push(*o));
                assert forall|key: Seq<char>|
                    (forall|k: int| 0 <= k < ids@.len() ==> key != (#[trigger] ids@[k])@) implies lookup(
                    self.claim_entries(),
                    key,
                ) == lookup(old_entries, key) by {
                    assert(ids@[ids@.len() - 1] == id);
                    assert(key != id@);
                    assert forall|k: int| 0 <= k < ids_before.len() implies key != (#[trigger] ids_before[k])@ by {
                        assert(ids@[k] == ids_before[k]);
                    }
                }
                assert forall|inv: Seq<char>|
                    #[trigger] has_active(self.all_claims(), inv) == (has_active(old_cs, inv) || exists|
                        k: int,
                    | 0 <= k < made.len() && (#[trigger] picks_next[k]).invoice_id@ == inv) by {
                    let prev_made = made.drop_last();
                    if exists|k: int| 0 <= k < prev_made.len() && (#[trigger] picks_t[k]).invoice_id@ == inv {
                        let k = choose|k: int| 0 <= k < prev_made.len() && (#[trigger] picks_t[k]).invoice_id@ == inv;
                        assert(picks_next[k] == picks_t[k]);
                    }
                    if exists|k: int| 0 <= k < made.len() && (#[trigger] picks_next[k]).invoice_id@ == inv {
                        let k = choose|k: int| 0 <= k < made.len() && (#[trigger] picks_next[k]).invoice_id@ == inv;
                        if k < prev_made.len() {
                            assert(picks_next[k] == picks_t[k]);
                        } else {
                            assert(picks_next[k] == *o);
                        }
                    }
                    if c.invoice_id@ == inv {
                        assert(picks_next[made.len() - 1] == *o);
                    }
                }
            }
            t += 1;
        }
        proof {
            assert(queue.take(q as int) =~= queue);
            assert(queue == by_priority(due_obligations(old(self).all_obligations(), day), day));
        }
        Ok(ids)
    }


    /// Posts the prepared claims named by `claim_ids` to the ledger, clearing debited and
    /// receivable credited; claims in another status are skipped.
    #[verifier::loop_isolation(false)]
    pub fn post_claims(
        &mut self,
        claim_ids: &[SettlementId],
        day: u32,
        ledger: &mut Ledger,
        receivable_account: AccountId,
        clearing_account: AccountId,
    ) -> (r: SableResult<()>)
        requires
            old(self).wf(),
            old(ledger).wf(),
            claims_post_safely(*old(self), claim_ids@, *old(ledger), receivable_account, clearing_account),
        ensures
            claims_posted(
                *old(self),
                *final(self),
                claim_ids@,
                *old(ledger),
                *final(ledger),
                receivable_account,
                clearing_account,
                day,
                r,
            ),
    {
        let ghost cs = self.claim_entries();
        let ghost full = post_plan(cs, claim_ids@).0;
        let ghost slots0 = ledger.slots();
        let ghost rec = receivable_account;
        let ghost clr = clearing_account;
        let ghost known = posting_accounts_known(*ledger, receivable_account, clearing_account);
        let n = claim_ids.len();
        let mut t: usize = 0;
        assert(claim_ids@.take(0) =~= Seq::<SettlementId>::empty());
        while t < n
            invariant
                t <= n,
                post_plan(cs, claim_ids@.take(t as int)).1 is None,
                self.wf(),
                ledger.wf(),
                self.obligation_entries_spec() == old(self).obligation_entries_spec(),
                self.next_claim_spec() == old(self).next_claim_spec(),
                self.claim_entries().len() == cs.len(),
                ({
                    let prev = post_plan(cs, claim_ids@.take(t as int)).0;
                    &&& ledger.slots() == apply_effects(slots0, posting_effects(cs, prev, rec, clr))
                    &&& ledger.next_tx_spec() == old(ledger).next_tx_spec() + prev.len()
                    &&& ledger.entries().len() == old(ledger).entries().len() + prev.len()
                    &&& (!known ==> prev.len() == 0)
                    &&& (prev.len() == 0 ==> ledger.entries() == old(ledger).entries())
                    &&& ledger.entries().take(old(ledger).entries().len() as int) == old(ledger).entries()
                    &&& claim_entries_linked(
                        cs,
                        *self,
                        prev,
                        *ledger,
                        old(ledger).entries().len() as int,
                        old(ledger).next_tx_spec() as int,
                        day,
                        clr,
                        rec,
                    )
                    &&& forall|i: int|
                        0 <= i < cs.len() ==> {
                            let c = #[trigger] self.claim_entries()[i];
                            &&& c.0 == cs[i].0
                            &&& prev.contains(i) ==> c.1 == (SettlementClaim {
                                status: ClaimStatus::Posted,
                                journal_tx: c.1.journal_tx,
                                ..cs[i].1
                            }) && c.1.journal_tx is Some
                            &&& !prev.contains(i) ==> c.1 == cs[i].1
                        }
                }),
            decreases n - t,
        {
            let ghost prev = post_plan(cs, claim_ids@.take(t as int)).0;
            let ghost cur = self.claim_entries();
            proof {
                assert(claim_ids@.take(t + 1).drop_last() =~= claim_ids@.take(t as int));
                assert(claim_ids@.take(t + 1).last() == claim_ids@[t as int]);
                assert(entry_keys(cur) =~= entry_keys(cs));
            }
            let claim_id = &claim_ids[t];
            let claim = match self.get(claim_id) {
                Ok(c) => c,
                Err(e) => {
                    proof {
                        lemma_post_plan_stopped(cs, claim_ids@, t + 1);
                    }
                    return Err(e);
                },
            };
            let ghost i = key_index(entry_keys(cs), claim_id@);
            proof {
                crate::keyed::lemma_sorted_index_unique(entry_keys(cur), i, claim_id@);
            }
            if claim.status != ClaimStatus::Prepared {
                proof {
                    if prev.contains(i) {
                    } else {
                        assert(cur[i].1 == cs[i].1);
                    }
                    assert(post_plan(cs, claim_ids@.take(t + 1)).0 == prev);
                }
                t += 1;
                continue;
            }
            proof {
                if prev.contains(i) {
                    assert(cur[i].1.status == ClaimStatus::Posted);
                }
                assert(cur[i].1 == cs[i].1);
                assert(post_plan(cs, claim_ids@.take(t + 1)).0 == prev.push(i));
                lemma_post_plan_prefix(cs, claim_ids@, t + 1);
                let next = prev.push(i);
                let full_fx = posting_effects(cs, full, rec, clr);
                assert(full.take(next.len() as int) =~= next);
                lemma_posting_effects_prefix(cs, full, next.len() as int, rec, clr);
                assert(next.drop_last() =~= prev);
                let e_prev = posting_effects(cs, prev, rec, clr);
                let pair = pair_effects(clr, rec, cs[i].1.amount);
                assert(posting_effects(cs, next, rec, clr) == e_prev + pair);
                lemma_pair_known(ledger.slots(), clr, rec, cs[i].1.amount);
                crate::ledger::state::lemma_apply_effects_keys(slots0, e_prev);
                if known {
                    let rest = posting_effects(cs, full.skip(next.len() as int), rec, clr);
                    assert(full_fx == (e_prev + pair) + rest);
                    lemma_effects_safe_concat(slots0, e_prev + pair, rest);
                    lemma_effects_safe_concat(slots0, e_prev, pair);
                }
                lemma_apply_effects_concat(slots0, e_prev, pair);
            }
            let ghost l_before = *ledger;
            let posted = ledger.post_settlement_claim(
                day,
                claim.invoice_id.duplicate(),
                claim.batch_id.duplicate(),
                receivable_account.duplicate(),
                clearing_account.duplicate(),
                claim.amount,
            );
            let tx_id = match posted {
                Ok(tx) => tx,
                Err(e) => {
                    proof {
                        assert(!known);
                        assert(prev.len() == 0);
                        assert(full.len() >= 1);
                        assert forall|j: int| 0 <= j < cs.len() implies cur[j] == cs[j] by {
                            assert(!prev.contains(j));
                        }
                        assert(cur =~= cs);
                    }
                    return Err(e);
                },
            };
            match self.get_mut(claim_id) {
                Ok(c) => c.mark_posted(tx_id),
                Err(_) => {
                    assert(false);
                },
            }
            proof {
                let next = prev.push(i);
                assert forall|j: int| 0 <= j < cs.len() implies #[trigger] next.contains(j) == (prev.contains(j) || j == i) by {
                    if next.contains(j) {
                        let k = choose|k: int| 0 <= k < next.len() && next[k] == j;
                        if k < prev.len() {
                            assert(prev[k] == next[k]);
                        }
                    }
                    if prev.contains(j) {
                        let k = choose|k: int| 0 <= k < prev.len() && prev[k] == j;
                        assert(next[k] == prev[k]);
                    }
                    if j == i {
                        assert(next[prev.len() as int] == i);
                    }
                }
                let base = old(ledger).entries().len() as int;
                let first = old(ledger).next_tx_spec() as int;
                assert(!prev.contains(i));
                assert(ledger.entries().drop_last() == l_before.entries());
                assert(ledger.entries().take(base) =~= l_before.entries().take(base));
                assert forall|q: int| 0 <= q < next.len() implies {
                    let tx = generated_text(TxId::prefix(), (first + q) as u64);
                    &&& 0 <= next[q] < cs.len()
                    &&& (#[trigger] self.claim_entries()[next[q]]).1.journal_tx matches Some(tt) && tt@ == tx
                    &&& claim_entry(ledger.entries()[base + q], cs[next[q]].1, day, clr, rec, tx)
                } by {
                    if q < prev.len() {
                        assert(next[q] == prev[q]);
                        assert(prev.contains(prev[q]));
                        assert(prev[q] != i);
                        assert(self.claim_entries()[prev[q]] == cur[prev[q]]);
                        assert(ledger.entries()[base + q] == l_before.entries()[base + q]);
                    } else {
                        assert(next[q] == i);
                        assert(base + q == l_before.entries().len());
                        assert(ledger.entries()[base + q] == ledger.entries().last());
                    }
                }
                assert(claim_entries_linked(cs, *self, next, *ledger, base, first, day, clr, rec));
            }
            t += 1;
        }
        proof {
            assert(claim_ids@.take(n as int) =~= claim_ids@);
        }
        Ok(())
    }

    /// Whether a claim in flight presents `invoice_id`.
    pub fn has_active_claim_for(&self, invoice_id: &InvoiceId) -> (r: bool)
        ensures
            r == has_active(self.all_claims(), invoice_id@),
    {
        let n = self.claims.len();
        let mut i: usize = 0;
        while i < n
            invariant
                n == self.all_claims().len(),
                i <= n,
                forall|j: int|
                    0 <= j < i ==> !((#[trigger] self.all_claims()[j]).invoice_id@ == invoice_id@
                        && self.all_claims()[j].status.active()),
            decreases n - i,
        {
            let c = self.claims.value_at(i);
            assert(*c == self.all_claims()[i as int]);
            if c.invoice_id.same(invoice_id) && (c.status == ClaimStatus::Prepared || c.status
                == ClaimStatus::Posted) {
                return true;
            }
            i += 1;
        }
        false
    }
}

/// Ordering by priority keeps every obligation.
pub proof fn lemma_by_priority_len(s: Seq<SettlementObligation>, day: u32)
    ensures
        by_priority(s, day).len() == s.len(),
    decreases s.len(),
{
    if s.len() > 0 {
        lemma_by_priority_len(s.drop_last(), day);
        let rest = by_priority(s.drop_last(), day);
        lemma_priority_slot_range(rest, priority(s.last(), day), day);
    }
}

/// Ordering by priority keeps the obligations it is given.
pub proof fn lemma_by_priority_members(s: Seq<SettlementObligation>, day: u32)
    ensures
        forall|i: int| 0 <= i < by_priority(s, day).len() ==> s.contains(#[trigger] by_priority(s, day)[i]),
    decreases s.len(),
{
    if s.len() > 0 {
        let prev = s.drop_last();
        lemma_by_priority_members(prev, day);
        let rest = by_priority(prev, day);
        let slot = priority_slot(rest, priority(s.last(), day), day);
        lemma_priority_slot_range(rest, priority(s.last(), day), day);
        assert forall|i: int| 0 <= i < by_priority(s, day).len() implies s.contains(#[trigger] by_priority(s, day)[i]) by {
            let x = by_priority(s, day)[i];
            if i < slot {
                assert(x == rest[i]);
                let j = choose|j: int| 0 <= j < prev.len() && prev[j] == x;
                assert(s[j] == x);
            } else if i == slot {
                assert(s[s.len() - 1] == x);
            } else {
                assert(x == rest[i - 1]);
                let j = choose|j: int| 0 <= j < prev.len() && prev[j] == x;
                assert(s[j] == x);
            }
        }
    }
}

/// An obligation is due on `day` exactly when its due day has come: on its due day and on
/// every day after it, never before.
pub proof fn lemma_due_obligations_members(os: Seq<SettlementObligation>, day: u32, o: SettlementObligation)
    ensures
        due_obligations(os, day).contains(o) <==> os.contains(o) && o.due_day <= day,
{
    let f = |x: SettlementObligation| day >= x.due_day;
    assert(due_obligations(os, day) == os.filter(f));
    if os.contains(o) && o.due_day <= day {
        let i = choose|i: int| 0 <= i < os.len() && os[i] == o;
        os.lemma_filter_contains(f, i);
    }
    if os.filter(f).contains(o) {
        os.lemma_filter_contains_rev(f, o);
        let j = choose|j: int| 0 <= j < os.filter(f).len() && os.filter(f)[j] == o;
        os.lemma_filter_pred(f, j);
    }
}

/// Where a priority lands in a list sorted by decreasing priority: after every obligation of
/// at least that priority and before every one of lower priority.
proof fn lemma_priority_slot_split(sorted: Seq<SettlementObligation>, p: int, day: u32)
    requires
        forall|i: int, j: int|
            0 <= i < j < sorted.len() ==> priority(#[trigger] sorted[i], day) >= priority(
                #[trigger] sorted[j],
                day,
            ),
    ensures
        0 <= priority_slot(sorted, p, day) <= sorted.len(),
        forall|i: int|
            0 <= i < priority_slot(sorted, p, day) ==> priority(#[trigger] sorted[i], day) >= p,
        forall|i: int|
            priority_slot(sorted, p, day) <= i < sorted.len() ==> priority(#[trigger] sorted[i], day)
                < p,
    decreases sorted.len(),
{
    if sorted.len() > 0 {
        let rest = sorted.drop_first();
        assert forall|i: int, j: int| 0 <= i < j < rest.len() implies priority(
            #[trigger] rest[i],
            day,
        ) >= priority(#[trigger] rest[j], day) by {
            assert(rest[i] == sorted[i + 1]);
            assert(rest[j] == sorted[j + 1]);
        }
        lemma_priority_slot_split(rest, p, day);
        if priority(sorted[0], day) < p {
            assert forall|i: int| 0 <= i < sorted.len() implies priority(#[trigger] sorted[i], day)
                < p by {
                if i > 0 {
                    assert(priority(sorted[0], day) >= priority(sorted[i], day));
                }
            }
        } else {
            assert forall|i: int| 0 <= i < priority_slot(sorted, p, day) implies priority(
                #[trigger] sorted[i],
                day,
            ) >= p by {
                if i > 0 {
                    assert(sorted[i] == rest[i - 1]);
                }
            }
            assert forall|i: int| priority_slot(sorted, p, day) <= i < sorted.len() implies priority(
                #[trigger] sorted[i],
                day,
            ) < p by {
                assert(sorted[i] == rest[i - 1]);
            }
        }
    }
}

/// Ordering by priority lists the obligations from the highest priority down.
pub proof fn lemma_by_priority_sorted(s: Seq<SettlementObligation>, day: u32)
    ensures
        forall|i: int, j: int|
            0 <= i < j < by_priority(s, day).len() ==> priority(#[trigger] by_priority(s, day)[i], day)
                >= priority(#[trigger] by_priority(s, day)[j], day),
    decreases s.len(),
{
    if s.len() > 0 {
        lemma_by_priority_sorted(s.drop_last(), day);
        let rest = by_priority(s.drop_last(), day);
        let x = s.last();
        let p = priority(x, day);
        lemma_priority_slot_split(rest, p, day);
        let slot = priority_slot(rest, p, day);
        rest.insert_ensures(slot, x);
        let r = by_priority(s, day);
        assert(r == rest.insert(slot, x));
        assert forall|i: int, j: int| 0 <= i < j < r.len() implies priority(#[trigger] r[i], day)
            >= priority(#[trigger] r[j], day) by {
            if j < slot {
                assert(r[i] == rest[i] && r[j] == rest[j]);
            } else if j == slot {
                assert(r[i] == rest[i] && r[j] == x);
            } else if i < slot {
                assert(r[i] == rest[i] && r[j] == rest[j - 1]);
            } else if i == slot {
                assert(r[i] == x && r[j] == rest[j - 1]);
            } else {
                assert(r[i] == rest[i - 1] && r[j] == rest[j - 1]);
            }
        }
    }
}

/// A priority slot is a position of the list.
pub proof fn lemma_priority_slot_range(sorted: Seq<SettlementObligation>, p: int, day: u32)
    ensures
        0 <= priority_slot(sorted, p, day) <= sorted.len(),
    decreases sorted.len(),
{
    if sorted.len() > 0 {
        lemma_priority_slot_range(sorted.drop_first(), p, day);
    }
}

/// A queue gets at most one claim per obligation.
pub proof fn lemma_claim_picks_len(queue: Seq<SettlementObligation>, cs: Seq<SettlementClaim>)
    ensures
        claim_picks(queue, cs).len() <= queue.len(),
    decreases queue.len(),
{
    if queue.len() > 0 {
        lemma_claim_picks_len(queue.drop_last(), cs);
    }
}

} // verus!
