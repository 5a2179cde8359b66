//! The general ledger: the chart with balances, and the journal of posted entries.
use vstd::prelude::*;

use crate::amount::{
    fits_i64, lemma_seq_sum_drop_last, lemma_sum_insert, lemma_sum_split, lemma_sum_update,
    running_sums_fit, seq_sum, sum_first, Money,
};
use crate::error::{SableError, SableResult};
use crate::ids::{generated_text, AccountId, BatchId, InvoiceId, ReceiptId, TxId};
use crate::keyed::{
    entry_keys, has_key, key_index, lemma_filter_take_step, lemma_lookup_after_update,
    lemma_sorted_index_unique, lemma_take_full, lookup, sorted_keys, BookKey, Registry,
};
use crate::codec::{
    json_array, json_bool, json_money, json_string, lemma_texts_push, push_json_array, push_json_bool,
    push_json_money, push_json_string,
};
use crate::ledger::account::{account_class_name, AccountClass, ChartAccount};
use crate::ledger::journal::{line_credits, line_debits, JournalEntry, JournalLine};

verus! {

/// An account of the chart together with its signed balance (debits less credits).
#[derive(Clone, Debug, PartialEq, Eq)]
pub struct AccountSlot {
    pub account: ChartAccount,
    pub balance: Money,
}

/// One row of a trial balance.
#[derive(Clone, Debug, PartialEq, Eq)]
pub struct TrialBalanceRow {
    pub account: AccountId,
    pub code: String,
    pub name: String,
    pub class: AccountClass,
    pub debit: Money,
    pub credit: Money,
}

/// Balances of every account on the debit or the credit side, with their totals.
#[derive(Clone, Debug, PartialEq, Eq)]
pub struct TrialBalance {
    pub accounts: Vec<TrialBalanceRow>,
    pub total_debits: Money,
    pub total_credits: Money,
    pub balanced: bool,
}

pub open spec fn slot_balances(s: Seq<(AccountId, AccountSlot)>) -> Seq<int> {
    s.map_values(|e: (AccountId, AccountSlot)| e.1.balance@)
}

/// The balance of the account filed under `k`, zero when there is none.
pub open spec fn balance_of(s: Seq<(AccountId, AccountSlot)>, k: Seq<char>) -> int {
    match lookup(s, k) {
        Some(slot) => slot.balance@,
        None => 0,
    }
}

/// What each line does: its account and its debit less credit.
pub open spec fn line_effects(lines: Seq<JournalLine>) -> Seq<(Seq<char>, int)> {
    lines.map_values(|l: JournalLine| (l.account@, l.effect()))
}

/// The chart after `d` is added to the balance of the account filed under `k`.
pub open spec fn apply_effect(s: Seq<(AccountId, AccountSlot)>, k: Seq<char>, d: int) -> Seq<
    (AccountId, AccountSlot),
> {
    if has_key(entry_keys(s), k) {
        let i = key_index(entry_keys(s), k);
        s.update(
            i,
            (s[i].0, AccountSlot { balance: Money { cents: (s[i].1.balance@ + d) as i64 }, ..s[i].1 }),
        )
    } else {
        s
    }
}

/// The chart after a sequence of effects, applied in order.
pub open spec fn apply_effects(s: Seq<(AccountId, AccountSlot)>, effs: Seq<(Seq<char>, int)>) -> Seq<
    (AccountId, AccountSlot),
>
    decreases effs.len(),
{
    if effs.len() == 0 {
        s
    } else {
        apply_effect(apply_effects(s, effs.drop_last()), effs.last().0, effs.last().1)
    }
}

/// Whether applying the effects in order keeps every balance within `i64`.
pub open spec fn effects_safe(s: Seq<(AccountId, AccountSlot)>, effs: Seq<(Seq<char>, int)>) -> bool
    decreases effs.len(),
{
    effs.len() == 0 || {
        &&& effects_safe(s, effs.drop_last())
        &&& fits_i64(effs.last().1)
        &&& fits_i64(balance_of(apply_effects(s, effs.drop_last()), effs.last().0) + effs.last().1)
    }
}

/// Whether `k` names an enabled account of the chart: an account of the active chart.
pub open spec fn key_active(s: Seq<(AccountId, AccountSlot)>, k: Seq<char>) -> bool {
    has_key(entry_keys(s), k) && s[key_index(entry_keys(s), k)].1.account.enabled
}

/// Whether every effect names an account of the active chart.
pub open spec fn effects_known(s: Seq<(AccountId, AccountSlot)>, effs: Seq<(Seq<char>, int)>) -> bool {
    forall|j: int| 0 <= j < effs.len() ==> key_active(s, #[trigger] effs[j].0)
}

/// Applying effects moves balances only: the accounts of the chart, and whether each is
/// enabled, stay as they were.
pub proof fn lemma_apply_effects_accounts(s: Seq<(AccountId, AccountSlot)>, effs: Seq<(Seq<char>, int)>)
    ensures
        apply_effects(s, effs).len() == s.len(),
        forall|i: int|
            0 <= i < s.len() ==> (#[trigger] apply_effects(s, effs)[i]).0 == s[i].0
                && apply_effects(s, effs)[i].1.account == s[i].1.account,
    decreases effs.len(),
{
    if effs.len() > 0 {
        lemma_apply_effects_accounts(s, effs.drop_last());
    }
}

pub open spec fn effect_amounts(effs: Seq<(Seq<char>, int)>) -> Seq<int> {
    effs.map_values(|e: (Seq<char>, int)| e.1)
}

/// Debit side of a signed balance.
pub open spec fn debit_part(b: int) -> int {
    if b >= 0 {
        b
    } else {
        0
    }
}

/// Credit side of a signed balance.
pub open spec fn credit_part(b: int) -> int {
    if b >= 0 {
        0
    } else {
        -b
    }
}

/// A balance splits into a debit side and a credit side, neither negative and at most one
/// of them non-zero: a positive balance is all debit, a negative one all credit.
pub proof fn lemma_balance_sides(b: int)
    ensures
        debit_part(b) >= 0,
        credit_part(b) >= 0,
        debit_part(b) - credit_part(b) == b,
        debit_part(b) == 0 || credit_part(b) == 0,
        b > 0 ==> debit_part(b) == b,
        b < 0 ==> credit_part(b) == -b,
{
}

pub open spec fn debit_parts(s: Seq<(AccountId, AccountSlot)>) -> Seq<int> {
    s.map_values(|e: (AccountId, AccountSlot)| debit_part(e.1.balance@))
}

pub open spec fn credit_parts(s: Seq<(AccountId, AccountSlot)>) -> Seq<int> {
    s.map_values(|e: (AccountId, AccountSlot)| credit_part(e.1.balance@))
}

/// Whether the trial balance of this chart can be computed within `i64`.
pub open spec fn trial_ok(s: Seq<(AccountId, AccountSlot)>) -> bool {
    &&& forall|i: int| 0 <= i < s.len() ==> (#[trigger] s[i]).1.balance@ > i64::MIN
    &&& running_sums_fit(debit_parts(s))
    &&& running_sums_fit(credit_parts(s))
}

/// Whether `tb` is the trial balance of this chart.
pub open spec fn is_trial_balance(s: Seq<(AccountId, AccountSlot)>, tb: TrialBalance) -> bool {
    &&& tb.accounts@.len() == s.len()
    &&& forall|i: int|
        0 <= i < s.len() ==> {
            let row = #[trigger] tb.accounts@[i];
            &&& row.account == s[i].0
            &&& row.code == s[i].1.account.code
            &&& row.name == s[i].1.account.name
            &&& row.class == s[i].1.account.class
            &&& row.debit@ == debit_part(s[i].1.balance@)
            &&& row.credit@ == credit_part(s[i].1.balance@)
        }
    &&& tb.total_debits@ == seq_sum(debit_parts(s))
    &&& tb.total_credits@ == seq_sum(credit_parts(s))
    &&& tb.balanced == (tb.total_debits@ == tb.total_credits@)
}

/// The effects of a two-line entry: `amount` debited to one account, credited to another.
pub open spec fn pair_effects(debited: AccountId, credited: AccountId, amount: Money) -> Seq<
    (Seq<char>, int),
> {
    seq![(debited@, amount@), (credited@, -amount@)]
}

/// Whether every line of every entry names an account of the chart.
pub open spec fn journal_accounts_known(s: Seq<(AccountId, AccountSlot)>, es: Seq<JournalEntry>) -> bool {
    forall|i: int, j: int|
        0 <= i < es.len() && 0 <= j < es[i].lines@.len() ==> has_key(
            entry_keys(s),
            #[trigger] es[i].lines@[j].account@,
        )
}

/// A key of a sequence stays a key once another entry is inserted.
proof fn lemma_has_key_after_insert(
    s: Seq<(AccountId, AccountSlot)>,
    p: int,
    e: (AccountId, AccountSlot),
    k: Seq<char>,
)
    requires
        0 <= p <= s.len(),
        has_key(entry_keys(s), k),
    ensures
        has_key(entry_keys(s.insert(p, e)), k),
{
    let ks = entry_keys(s);
    let kt = entry_keys(s.insert(p, e));
    let i = choose|i: int| 0 <= i < ks.len() && ks[i] == k;
    if i < p {
        assert(kt[i] == k);
    } else {
        assert(kt[i + 1] == k);
    }
}

/// The chart with its balances, the journal, and the next transaction number.
pub struct Ledger {
    accounts: Registry<AccountId, AccountSlot>,
    journal: Vec<JournalEntry>,
    next_tx: u64,
}

/// The account that a two-line posting reports missing: the debited one first.
pub open spec fn pair_missing(old: Ledger, debited: AccountId, credited: AccountId) -> AccountId {
    if !key_active(old.slots(), debited@) {
        debited
    } else {
        credited
    }
}

/// What a call posting a two-line entry did to the ledger.
pub open spec fn pair_ledger_effect(
    old: Ledger,
    new: Ledger,
    debited: AccountId,
    credited: AccountId,
    amount: Money,
) -> bool {
    let effs = pair_effects(debited, credited, amount);
    &&& new.wf()
    &&& new.next_tx_spec() == old.next_tx_spec() + 1
    &&& effects_known(old.slots(), effs) ==> {
        &&& new.slots() == apply_effects(old.slots(), effs)
        &&& new.entries().len() == old.entries().len() + 1
        &&& new.entries().drop_last() == old.entries()
        &&& new.entries().last().tx_id@ == generated_text(TxId::prefix(), old.next_tx_spec())
        &&& new.entries().last().lines@.len() == 2
        &&& new.entries().last().lines@[0].account == debited
        &&& new.entries().last().lines@[0].debit == amount
        &&& new.entries().last().lines@[0].credit@ == 0
        &&& new.entries().last().lines@[1].account == credited
        &&& new.entries().last().lines@[1].debit@ == 0
        &&& new.entries().last().lines@[1].credit == amount
    }
    &&& !effects_known(old.slots(), effs) ==> {
        &&& new.slots() == old.slots()
        &&& new.entries() == old.entries()
    }
}

/// What a call posting a two-line entry did to the ledger and returned.
pub open spec fn pair_posted(
    old: Ledger,
    new: Ledger,
    debited: AccountId,
    credited: AccountId,
    amount: Money,
    r: SableResult<TxId>,
) -> bool {
    let effs = pair_effects(debited, credited, amount);
    &&& pair_ledger_effect(old, new, debited, credited, amount)
    &&& effects_known(old.slots(), effs) ==> (r matches Ok(tx) && tx@ == generated_text(
        TxId::prefix(),
        old.next_tx_spec(),
    ))
    &&& !effects_known(old.slots(), effs) ==> r == Err::<TxId, SableError>(
        SableError::AccountNotFound(pair_missing(old, debited, credited)),
    )
}

/// Whether posting `amount` from one account to another keeps balances within `i64`.
pub open spec fn pair_safe(l: Ledger, debited: AccountId, credited: AccountId, amount: Money) -> bool {
    &&& l.next_tx_spec() < u64::MAX
    &&& effects_known(l.slots(), pair_effects(debited, credited, amount)) ==> effects_safe(
        l.slots(),
        pair_effects(debited, credited, amount),
    )
}

/// Applying two lists of effects one after the other is applying their concatenation.
pub proof fn lemma_apply_effects_concat(
    s: Seq<(AccountId, AccountSlot)>,
    a: Seq<(Seq<char>, int)>,
    b: Seq<(Seq<char>, int)>,
)
    ensures
        apply_effects(s, a + b) == apply_effects(apply_effects(s, a), b),
    decreases b.len(),
{
    if b.len() == 0 {
        assert(a + b =~= a);
    } else {
        assert((a + b).drop_last() =~= a + b.drop_last());
        assert((a + b).last() == b.last());
        lemma_apply_effects_concat(s, a, b.drop_last());
    }
}

/// Safety of a concatenation is safety of its parts, the second from where the first ends.
pub proof fn lemma_effects_safe_concat(
    s: Seq<(AccountId, AccountSlot)>,
    a: Seq<(Seq<char>, int)>,
    b: Seq<(Seq<char>, int)>,
)
    ensures
        effects_safe(s, a + b) == (effects_safe(s, a) && effects_safe(apply_effects(s, a), b)),
    decreases b.len(),
{
    if b.len() == 0 {
        assert(a + b =~= a);
    } else {
        assert((a + b).drop_last() =~= a + b.drop_last());
        assert((a + b).last() == b.last());
        lemma_effects_safe_concat(s, a, b.drop_last());
        lemma_apply_effects_concat(s, a, b.drop_last());
    }
}

/// The two effects of a posting name known accounts exactly when both accounts are known.
pub proof fn lemma_pair_known(s: Seq<(AccountId, AccountSlot)>, debited: AccountId, credited: AccountId, amount: Money)
    ensures
        effects_known(s, pair_effects(debited, credited, amount)) == (key_active(s, debited@)
            && key_active(s, credited@)),
{
    let effs = pair_effects(debited, credited, amount);
    assert(effs[0].0 == debited@);
    assert(effs[1].0 == credited@);
}

pub proof fn lemma_apply_effects_keys(s: Seq<(AccountId, AccountSlot)>, effs: Seq<(Seq<char>, int)>)
    requires
        sorted_keys(entry_keys(s)),
    ensures
        entry_keys(apply_effects(s, effs)) == entry_keys(s),
        forall|k: Seq<char>| #[trigger] key_active(apply_effects(s, effs), k) == key_active(s, k),
    decreases effs.len(),
{
    lemma_apply_effects_accounts(s, effs);
    if effs.len() > 0 {
        lemma_apply_effects_keys(s, effs.drop_last());
        let prev = apply_effects(s, effs.drop_last());
        let k = effs.last().0;
        if has_key(entry_keys(prev), k) {
            let i = key_index(entry_keys(prev), k);
            lemma_lookup_after_update(
                prev,
                i,
                AccountSlot {
                    balance: Money { cents: (prev[i].1.balance@ + effs.last().1) as i64 },
                    ..prev[i].1
                },
                k,
            );
        }
    }
    let t = apply_effects(s, effs);
    assert forall|k: Seq<char>| #[trigger] key_active(t, k) == key_active(s, k) by {
        if has_key(entry_keys(s), k) {
            let i = key_index(entry_keys(s), k);
            assert(entry_keys(t)[i] == k);
            assert(t[i].1.account == s[i].1.account);
        }
    }
}

/// What the journal's entries do, line by line, in posting order.
pub open spec fn journal_effects(es: Seq<JournalEntry>) -> Seq<(Seq<char>, int)>
    decreases es.len(),
{
    if es.len() == 0 {
        Seq::empty()
    } else {
        journal_effects(es.drop_last()) + line_effects(es.last().lines@)
    }
}

/// The total of the effects on the account filed under `k`.
pub open spec fn effect_total(effs: Seq<(Seq<char>, int)>, k: Seq<char>) -> int
    decreases effs.len(),
{
    if effs.len() == 0 {
        0
    } else {
        effect_total(effs.drop_last(), k) + if effs.last().0 == k {
            effs.last().1
        } else {
            0
        }
    }
}

/// Whether the balance of every account of the chart is the total the journal posted to it.
#[verifier::opaque]
pub open spec fn balances_follow_journal(s: Seq<(AccountId, AccountSlot)>, es: Seq<JournalEntry>) -> bool {
    forall|k: Seq<char>|
        has_key(entry_keys(s), k) ==> #[trigger] balance_of(s, k) == effect_total(journal_effects(es), k)
}

proof fn lemma_effect_total_concat(a: Seq<(Seq<char>, int)>, b: Seq<(Seq<char>, int)>, k: Seq<char>)
    ensures
        effect_total(a + b, k) == effect_total(a, k) + effect_total(b, k),
    decreases b.len(),
{
    if b.len() == 0 {
        assert(a + b =~= a);
    } else {
        assert((a + b).drop_last() =~= a + b.drop_last());
        assert((a + b).last() == b.last());
        lemma_effect_total_concat(a, b.drop_last(), k);
    }
}

/// Lines that all name other accounts do nothing to `k`.
proof fn lemma_line_effects_elsewhere(lines: Seq<JournalLine>, k: Seq<char>)
    requires
        forall|j: int| 0 <= j < lines.len() ==> (#[trigger] lines[j]).account@ != k,
    ensures
        effect_total(line_effects(lines), k) == 0,
    decreases lines.len(),
{
    if lines.len() > 0 {
        assert(line_effects(lines).drop_last() =~= line_effects(lines.drop_last()));
        lemma_line_effects_elsewhere(lines.drop_last(), k);
        assert(line_effects(lines).last() == (lines.last().account@, lines.last().effect()));
    }
}

/// A journal whose lines all name accounts of the chart posts nothing to an account
/// outside it.
proof fn lemma_journal_total_outside(s: Seq<(AccountId, AccountSlot)>, es: Seq<JournalEntry>, k: Seq<char>)
    requires
        journal_accounts_known(s, es),
        !has_key(entry_keys(s), k),
    ensures
        effect_total(journal_effects(es), k) == 0,
    decreases es.len(),
{
    if es.len() > 0 {
        let prev = es.drop_last();
        assert forall|i: int, j: int|
            0 <= i < prev.len() && 0 <= j < prev[i].lines@.len() implies has_key(
            entry_keys(s),
            #[trigger] prev[i].lines@[j].account@,
        ) by {
            assert(prev[i] == es[i]);
        }
        lemma_journal_total_outside(s, prev, k);
        let last = es.last();
        assert forall|j: int| 0 <= j < last.lines@.len() implies (#[trigger] last.lines@[j]).account@ != k by {
            assert(has_key(entry_keys(s), es[es.len() - 1].lines@[j].account@));
        }
        lemma_line_effects_elsewhere(last.lines@, k);
        lemma_effect_total_concat(journal_effects(prev), line_effects(last.lines@), k);
    }
}

/// Applying safe effects on accounts of the chart moves each balance by the total of the
/// effects on it.
pub proof fn lemma_apply_effects_balance(
    s: Seq<(AccountId, AccountSlot)>,
    effs: Seq<(Seq<char>, int)>,
    k: Seq<char>,
)
    requires
        sorted_keys(entry_keys(s)),
        effects_known(s, effs),
        effects_safe(s, effs),
        has_key(entry_keys(s), k),
    ensures
        balance_of(apply_effects(s, effs), k) == balance_of(s, k) + effect_total(effs, k),
    decreases effs.len(),
{
    if effs.len() > 0 {
        let prev = effs.drop_last();
        assert forall|j: int| 0 <= j < prev.len() implies has_key(entry_keys(s), #[trigger] prev[j].0) by {
            assert(prev[j] == effs[j]);
        }
        lemma_apply_effects_balance(s, prev, k);
        let t = apply_effects(s, prev);
        lemma_apply_effects_keys(s, prev);
        let (k2, d) = effs.last();
        assert(has_key(entry_keys(s), effs[effs.len() - 1].0));
        let i = key_index(entry_keys(t), k2);
        let slot = AccountSlot { balance: Money { cents: (t[i].1.balance@ + d) as i64 }, ..t[i].1 };
        lemma_sorted_index_unique(entry_keys(t), i, k2);
        lemma_lookup_after_update(t, i, slot, k);
        lemma_lookup_after_update(t, i, slot, k2);
    }
}

/// Every balance the ledger reports is what its journal posted to that account: the debits
/// less the credits of the lines that name it (nothing, for an account outside the chart).
pub proof fn lemma_balances_are_journal_totals(l: Ledger)
    requires
        l.wf(),
    ensures
        forall|k: Seq<char>|
            #[trigger] balance_of(l.slots(), k) == effect_total(journal_effects(l.entries()), k),
{
    reveal(balances_follow_journal);
    assert forall|k: Seq<char>|
        #[trigger] balance_of(l.slots(), k) == effect_total(journal_effects(l.entries()), k) by {
        if !has_key(entry_keys(l.slots()), k) {
            lemma_journal_total_outside(l.slots(), l.entries(), k);
        }
    }
}

/// Posting a small amount between two accounts of a chart of small balances is safe, and
/// moves the two balances by the amount.
pub proof fn lemma_pair_small(l: Ledger, debited: AccountId, credited: AccountId, amount: Money, b: int)
    requires
        l.wf(),
        debited@ != credited@,
        key_active(l.slots(), debited@),
        key_active(l.slots(), credited@),
        0 <= amount@,
        0 <= b,
        b + amount@ <= i64::MAX,
        forall|k: Seq<char>| -b <= #[trigger] balance_of(l.slots(), k) <= b,
    ensures
        effects_known(l.slots(), pair_effects(debited, credited, amount)),
        effects_safe(l.slots(), pair_effects(debited, credited, amount)),
        forall|k: Seq<char>|
            #[trigger] balance_of(apply_effects(l.slots(), pair_effects(debited, credited, amount)), k)
                == balance_of(l.slots(), k) + (if k == debited@ {
                amount@
            } else {
                0
            }) - (if k == credited@ {
                amount@
            } else {
                0
            }),
{
    lemma_pair_small_slots(l.slots(), debited, credited, amount, b);
}

/// Posting a small amount between two accounts of a chart of small balances is safe, and
/// moves the two balances by the amount.
pub proof fn lemma_pair_small_slots(
    s: Seq<(AccountId, AccountSlot)>,
    debited: AccountId,
    credited: AccountId,
    amount: Money,
    b: int,
)
    requires
        sorted_keys(entry_keys(s)),
        debited@ != credited@,
        key_active(s, debited@),
        key_active(s, credited@),
        0 <= amount@,
        0 <= b,
        b + amount@ <= i64::MAX,
        forall|k: Seq<char>| -b <= #[trigger] balance_of(s, k) <= b,
    ensures
        effects_known(s, pair_effects(debited, credited, amount)),
        effects_safe(s, pair_effects(debited, credited, amount)),
        forall|k: Seq<char>|
            #[trigger] balance_of(apply_effects(s, pair_effects(debited, credited, amount)), k)
                == balance_of(s, k) + (if k == debited@ {
                amount@
            } else {
                0
            }) - (if k == credited@ {
                amount@
            } else {
                0
            }),
{
    let effs = pair_effects(debited, credited, amount);
    let first = effs.drop_last();
    assert(first =~= seq![(debited@, amount@)]);
    assert(first.drop_last() =~= Seq::<(Seq<char>, int)>::empty());
    lemma_pair_known(s, debited, credited, amount);
    reveal_with_fuel(effect_total, 3);
    reveal_with_fuel(effects_safe, 3);
    assert(effects_known(s, first));
    assert(apply_effects(s, first.drop_last()) == s);
    assert(-b <= balance_of(s, debited@) <= b);
    assert(-b <= balance_of(s, credited@) <= b);
    assert(effects_safe(s, first));
    lemma_apply_effects_balance(s, first, credited@);
    assert(effects_safe(s, effs));
    assert forall|k: Seq<char>|
        #[trigger] balance_of(apply_effects(s, effs), k) == balance_of(s, k) + (if k == debited@ {
            amount@
        } else {
            0
        }) - (if k == credited@ {
            amount@
        } else {
            0
        }) by {
        if has_key(entry_keys(s), k) {
            lemma_apply_effects_balance(s, effs, k);
        } else {
            lemma_apply_effects_keys(s, effs);
        }
    }
}

/// Applying known effects moves the sum of the balances by the sum of the effects.
proof fn lemma_apply_effects_sum(s: Seq<(AccountId, AccountSlot)>, effs: Seq<(Seq<char>, int)>)
    requires
        sorted_keys(entry_keys(s)),
        effects_known(s, effs),
        effects_safe(s, effs),
    ensures
        seq_sum(slot_balances(apply_effects(s, effs))) == seq_sum(slot_balances(s)) + seq_sum(
            effect_amounts(effs),
        ),
    decreases effs.len(),
{
    if effs.len() > 0 {
        let init = effs.drop_last();
        assert(effects_known(s, init)) by {
            assert forall|j: int| 0 <= j < init.len() implies key_active(
                s,
                #[trigger] init[j].0,
            ) by {
                assert(init[j] == effs[j]);
            }
        }
        lemma_apply_effects_sum(s, init);
        lemma_apply_effects_keys(s, init);
        let prev = apply_effects(s, init);
        let k = effs.last().0;
        let d = effs.last().1;
        assert(has_key(entry_keys(s), effs[effs.len() - 1].0));
        let i = key_index(entry_keys(prev), k);
        let slot = AccountSlot { balance: Money { cents: (prev[i].1.balance@ + d) as i64 }, ..prev[i].1 };
        lemma_sorted_index_unique(entry_keys(prev), i, k);
        assert(balance_of(prev, k) == prev[i].1.balance@);
        assert(slot_balances(prev.update(i, (prev[i].0, slot))) =~= slot_balances(prev).update(
            i,
            prev[i].1.balance@ + d,
        ));
        lemma_sum_update(slot_balances(prev), i, prev[i].1.balance@ + d);
        assert(effect_amounts(init) =~= effect_amounts(effs).drop_last());
        lemma_seq_sum_drop_last(effect_amounts(effs));
    }
}

proof fn lemma_effects_safe_prefix(
    s: Seq<(AccountId, AccountSlot)>,
    effs: Seq<(Seq<char>, int)>,
    k: int,
)
    requires
        effects_safe(s, effs),
        0 <= k <= effs.len(),
    ensures
        effects_safe(s, effs.take(k)),
    decreases effs.len() - k,
{
    if k == effs.len() {
        assert(effs.take(k) =~= effs);
    } else {
        lemma_effects_safe_prefix(s, effs, k + 1);
        assert(effs.take(k + 1).drop_last() =~= effs.take(k));
    }
}

impl Ledger {
    pub closed spec fn slots(&self) -> Seq<(AccountId, AccountSlot)> {
        self.accounts.entries()
    }

    pub closed spec fn entries(&self) -> Seq<JournalEntry> {
        self.journal@
    }

    pub closed spec fn next_tx_spec(&self) -> u64 {
        self.next_tx
    }

    /// The ledger's invariant: accounts in id order, balances that sum to zero, only
    /// balanced entries in the journal, and every account of the journal in the chart.
    pub open spec fn wf(&self) -> bool {
        &&& sorted_keys(entry_keys(self.slots()))
        &&& seq_sum(slot_balances(self.slots())) == 0
        &&& forall|i: int| 0 <= i < self.entries().len() ==> (#[trigger] self.entries()[i]).balanced()
        &&& journal_accounts_known(self.slots(), self.entries())
        &&& balances_follow_journal(self.slots(), self.entries())
    }

    pub fn new() -> (r: Ledger)
        ensures
            r.wf(),
            r.slots() == Seq::<(AccountId, AccountSlot)>::empty(),
            r.entries() == Seq::<JournalEntry>::empty(),
            r.next_tx_spec() == 1,
    {
        let r = Ledger { accounts: Registry::new(), journal: Vec::new(), next_tx: 1 };
        proof {
            reveal(balances_follow_journal);
        }
        r
    }

    /// Adds an account with a zero balance; an id already in the chart is refused.
    pub fn add_account(&mut self, account: ChartAccount) -> (r: SableResult<()>)
        requires
            old(self).wf(),
        ensures
            final(self).wf(),
            final(self).entries() == old(self).entries(),
            final(self).next_tx_spec() == old(self).next_tx_spec(),
            has_key(entry_keys(old(self).slots()), account.id@) ==> final(self).slots() == old(self).slots() && (r matches Err(SableError::DuplicateId(s)) && s@ == account.id@),
            !has_key(entry_keys(old(self).slots()), account.id@) ==> r is Ok && exists|p: int|
                0 <= p <= old(self).slots().len() && final(self).slots() == old(self).slots().insert(
                    p,
                    (account.id, AccountSlot { account, balance: Money { cents: 0 } }),
                ),
    {
        let text = account.id.to_text();
        let key = account.id.duplicate();
        let ghost before = self.slots();
        let slot = AccountSlot { account, balance: Money::zero() };
        let inserted = self.accounts.insert_new(key, slot);
        proof {
            assert forall|i: int| 0 <= i < self.entries().len() implies (#[trigger] self.entries()[i]).balanced() by {
                assert(self.entries()[i] == old(self).entries()[i]);
            }
        }
        if inserted {
            proof {
                let p = choose|p: int|
                    0 <= p <= before.len() && self.slots() == before.insert(p, (key, slot));
                assert(slot_balances(self.slots()) =~= slot_balances(before).insert(p, 0));
                lemma_sum_insert(slot_balances(before), p, 0);
                assert(seq_sum(slot_balances(self.slots())) == 0);
                let es = self.entries();
                assert forall|i: int, j: int|
                    0 <= i < es.len() && 0 <= j < es[i].lines@.len() implies has_key(
                    entry_keys(self.slots()),
                    #[trigger] es[i].lines@[j].account@,
                ) by {
                    assert(es[i] == old(self).entries()[i]);
                    lemma_has_key_after_insert(before, p, (key, slot), es[i].lines@[j].account@);
                }
                assert(sorted_keys(entry_keys(self.slots())));
                assert forall|i: int| 0 <= i < self.entries().len() implies (#[trigger] self.entries()[i]).balanced() by {
                    assert(self.entries()[i] == old(self).entries()[i]);
                }
                reveal(balances_follow_journal);
                assert forall|k: Seq<char>| has_key(entry_keys(self.slots()), k) implies #[trigger] balance_of(
                    self.slots(),
                    k,
                ) == effect_total(journal_effects(self.entries()), k) by {
                    crate::keyed::lemma_lookup_after_insert(before, p, key, slot, k);
                    assert(self.entries() == old(self).entries());
                    if k == key@ {
                        assert(!has_key(entry_keys(before), k));
                        assert(journal_accounts_known(before, old(self).entries()));
                        lemma_journal_total_outside(before, old(self).entries(), k);
                        assert(lookup(self.slots(), k) == Some(slot));
                        assert(slot.balance@ == 0);
                    } else {
                        crate::keyed::lemma_keys_after_insert(before, p, (key, slot), k);
                        assert(has_key(entry_keys(before), k));
                        assert(balance_of(before, k) == effect_total(journal_effects(old(self).entries()), k));
                    }
                }
            }
            Ok(())
        } else {
            assert(self.slots() == old(self).slots());
            Err(SableError::DuplicateId(text))
        }
    }

    pub fn account(&self, id: &AccountId) -> (r: SableResult<&ChartAccount>)
        requires
            self.wf(),
        ensures
            match lookup(self.slots(), id@) {
                None => r == Err::<&ChartAccount, SableError>(SableError::AccountNotFound(*id)),
                Some(slot) => r == Ok::<&ChartAccount, SableError>(&slot.account),
            },
    {
        match self.accounts.find(id.as_str()) {
            Some(slot) => Ok(&slot.account),
            None => Err(SableError::AccountNotFound(id.duplicate())),
        }
    }

    pub fn balance(&self, id: &AccountId) -> (r: SableResult<Money>)
        requires
            self.wf(),
        ensures
            match lookup(self.slots(), id@) {
                None => r == Err::<Money, SableError>(SableError::AccountNotFound(*id)),
                Some(slot) => r == Ok::<Money, SableError>(slot.balance),
            },
    {
        match self.accounts.find(id.as_str()) {
            Some(slot) => Ok(slot.balance),
            None => Err(SableError::AccountNotFound(id.duplicate())),
        }
    }

    /// Whether posting `amount` from `debited` to `credited` keeps every balance within
    /// `i64` and leaves a transaction number to give.
    pub fn pair_fits(&self, debited: &AccountId, credited: &AccountId, amount: Money) -> (r: bool)
        requires
            self.wf(),
        ensures
            r == pair_safe(*self, *debited, *credited, amount),
    {
        let ghost s = self.slots();
        let ghost effs = pair_effects(*debited, *credited, amount);
        proof {
            lemma_pair_known(s, *debited, *credited, amount);
            reveal_with_fuel(effects_safe, 3);
            reveal_with_fuel(apply_effects, 2);
            assert(effs.drop_last() =~= seq![(debited@, amount@)]);
            assert(effs.drop_last().drop_last() =~= Seq::<(Seq<char>, int)>::empty());
        }
        if self.next_tx == u64::MAX {
            return false;
        }
        let di = self.accounts.position(debited.as_str());
        let ci = self.accounts.position(credited.as_str());
        match (di, ci) {
            (Some(d), Some(c)) => {
                if !self.accounts.value_at(d).account.enabled || !self.accounts.value_at(c).account.enabled {
                    return true;
                }
                let bd = self.accounts.value_at(d).balance.cents as i128;
                let bc = self.accounts.value_at(c).balance.cents as i128;
                let a = amount.cents as i128;
                let after_d = bd + a;
                let bc2 = if d == c {
                    after_d
                } else {
                    bc
                };
                proof {
                    assert(s[d as int].0.key() == debited@);
                    assert(s[c as int].0.key() == credited@);
                    assert(balance_of(s, debited@) == bd);
                    let t = apply_effect(s, debited@, amount@);
                    let slot = AccountSlot {
                        balance: Money { cents: (s[d as int].1.balance@ + amount@) as i64 },
                        ..s[d as int].1
                    };
                    lemma_lookup_after_update(s, d as int, slot, credited@);
                    assert(t == s.update(d as int, (s[d as int].0, slot)));
                    if d == c {
                        assert(credited@ == debited@);
                    } else {
                        assert(credited@ != debited@);
                        assert(balance_of(t, credited@) == bc);
                    }
                    assert(apply_effects(s, effs.drop_last()) == t);
                }
                i64::MIN as i128 <= after_d && after_d <= i64::MAX as i128 && amount.cents != i64::MIN
                    && i64::MIN as i128 <= bc2 - a && bc2 - a <= i64::MAX as i128
            },
            _ => true,
        }
    }

    /// The next transaction id; the counter moves on.
    pub fn next_tx_id(&mut self) -> (r: TxId)
        requires
            old(self).next_tx_spec() < u64::MAX,
        ensures
            r@ == generated_text(TxId::prefix(), old(self).next_tx_spec()),
            final(self).next_tx_spec() == old(self).next_tx_spec() + 1,
            final(self).slots() == old(self).slots(),
            final(self).entries() == old(self).entries(),
    {
        let id = TxId::generated(self.next_tx);
        self.next_tx = self.next_tx + 1;
        id
    }

    /// Posts a balanced entry on accounts of the active chart; a line on an account that
    /// is missing or disabled is refused as not found.
    pub fn post(&mut self, entry: JournalEntry) -> (r: SableResult<()>)
        requires
            old(self).wf(),
            running_sums_fit(line_debits(entry.lines@)),
            running_sums_fit(line_credits(entry.lines@)),
            entry.balanced() && effects_known(old(self).slots(), line_effects(entry.lines@))
                ==> effects_safe(old(self).slots(), line_effects(entry.lines@)),
        ensures
            final(self).wf(),
            final(self).next_tx_spec() == old(self).next_tx_spec(),
            !entry.balanced() ==> final(self).slots() == old(self).slots() && final(self).entries()
                == old(self).entries() && r == Err::<(), SableError>(
                SableError::UnbalancedJournal {
                    debits: seq_sum(line_debits(entry.lines@)) as i64,
                    credits: seq_sum(line_credits(entry.lines@)) as i64,
                },
            ),
            entry.balanced() && !effects_known(old(self).slots(), line_effects(entry.lines@))
                ==> final(self).slots() == old(self).slots() && final(self).entries() == old(self).entries() && (r matches Err(SableError::AccountNotFound(a)) && exists|j: int|
                0 <= j < entry.lines@.len() && entry.lines@[j].account == a && !key_active(
                    old(self).slots(),
                    a@,
                ) && forall|i: int|
                    0 <= i < j ==> key_active(
                        old(self).slots(),
                        #[trigger] entry.lines@[i].account@,
                    )),
            entry.balanced() && effects_known(old(self).slots(), line_effects(entry.lines@))
                ==> r is Ok && final(self).slots() == apply_effects(
                old(self).slots(),
                line_effects(entry.lines@),
            ) && final(self).entries() == old(self).entries().push(entry),
    {
        let debits = entry.total_debits();
        let credits = entry.total_credits();
        if debits.cents != credits.cents {
            return Err(
                SableError::UnbalancedJournal { debits: debits.cents(), credits: credits.cents() },
            );
        }
        let ghost effs = line_effects(entry.lines@);
        let n = entry.lines.len();
        let mut j: usize = 0;
        while j < n
            invariant
                n == entry.lines@.len(),
                effs == line_effects(entry.lines@),
                self.wf(),
                entry.balanced(),
                self.slots() == old(self).slots(),
                self.entries() == old(self).entries(),
                self.next_tx_spec() == old(self).next_tx_spec(),
                j <= n,
                forall|i: int| 0 <= i < j ==> key_active(self.slots(), #[trigger] effs[i].0),
            decreases n - j,
        {
            let active = match self.accounts.position(entry.lines[j].account.as_str()) {
                Some(p) => self.accounts.value_at(p).account.enabled,
                None => false,
            };
            if !active {
                let a = entry.lines[j].account.duplicate();
                proof {
                    assert(effs[j as int].0 == entry.lines@[j as int].account@);
                    assert forall|i: int| 0 <= i < j implies key_active(
                        self.slots(),
                        #[trigger] entry.lines@[i].account@,
                    ) by {
                        assert(effs[i].0 == entry.lines@[i].account@);
                    }
                }
                return Err(SableError::AccountNotFound(a));
            }
            proof {
                assert(effs[j as int].0 == entry.lines@[j as int].account@);
            }
            j += 1;
        }
        assert(effects_known(self.slots(), effs));
        let ghost start = self.slots();
        proof {
            lemma_apply_effects_keys(start, effs);
        }
        let mut j: usize = 0;
        while j < n
            invariant
                n == entry.lines@.len(),
                effs == line_effects(entry.lines@),
                sorted_keys(entry_keys(start)),
                effects_known(start, effs),
                effects_safe(start, effs),
                entry.balanced(),
                start == old(self).slots(),
                self.entries() == old(self).entries(),
                self.next_tx_spec() == old(self).next_tx_spec(),
                forall|i: int| 0 <= i < self.entries().len() ==> (#[trigger] self.entries()[i]).balanced(),
                seq_sum(slot_balances(start)) == 0,
                j <= n,
                self.slots() == apply_effects(start, effs.take(j as int)),
                entry_keys(self.slots()) == entry_keys(start),
                journal_accounts_known(start, old(self).entries()),
            decreases n - j,
        {
            let ghost before = self.slots();
            let line = &entry.lines[j];
            assert(effs[j as int] == (line.account@, line.effect()));
            let pos = match self.accounts.position(line.account.as_str()) {
                Some(p) => p,
                None => {
                    assert(has_key(entry_keys(start), effs[j as int].0));
                    assert(false);
                    0
                },
            };
            proof {
                lemma_effects_safe_prefix(start, effs, j + 1);
                assert(effs.take(j + 1).drop_last() =~= effs.take(j as int));
                assert(effs.take(j + 1).last() == effs[j as int]);
                lemma_sorted_index_unique(entry_keys(before), pos as int, line.account@);
            }
            let delta = line.signed_effect();
            let slot = self.accounts.value_at_mut(pos);
            slot.balance = Money { cents: slot.balance.cents + delta.cents };
            proof {
                lemma_lookup_after_update(before, pos as int, self.slots()[pos as int].1, line.account@);
            }
            j += 1;
        }
        proof {
            assert(effs.take(n as int) =~= effs);
            lemma_apply_effects_sum(start, effs);
            assert(effect_amounts(effs).len() == n);
            lemma_sum_split(line_debits(entry.lines@), line_credits(entry.lines@), effect_amounts(effs));
        }
        let ghost posted = entry;
        self.journal.push(entry);
        proof {
            assert forall|i: int| 0 <= i < self.entries().len() implies (#[trigger] self.entries()[i]).balanced() by {
                if i < self.entries().len() - 1 {
                    assert(self.entries()[i] == old(self).entries()[i]);
                }
            }
            let es = self.entries();
            assert forall|i: int, k: int|
                0 <= i < es.len() && 0 <= k < es[i].lines@.len() implies has_key(
                entry_keys(self.slots()),
                #[trigger] es[i].lines@[k].account@,
            ) by {
                if i < es.len() - 1 {
                    assert(es[i] == old(self).entries()[i]);
                } else {
                    assert(es[i] == posted);
                    assert(effs[k].0 == posted.lines@[k].account@);
                }
            }
            reveal(balances_follow_journal);
            assert(es.drop_last() =~= old(self).entries());
            assert(es.last() == posted);
            assert forall|k: Seq<char>| has_key(entry_keys(self.slots()), k) implies #[trigger] balance_of(
                self.slots(),
                k,
            ) == effect_total(journal_effects(es), k) by {
                lemma_apply_effects_balance(start, effs, k);
                lemma_effect_total_concat(journal_effects(old(self).entries()), effs, k);
            }
        }
        Ok(())
    }

    /// Posts `amount` debited to one account and credited to another.
    fn post_pair(
        &mut self,
        entry: JournalEntry,
        debited: AccountId,
        debit_memo: String,
        credited: AccountId,
        credit_memo: String,
        amount: Money,
    ) -> (r: SableResult<()>)
        requires
            old(self).wf(),
            entry.lines@.len() == 0,
            effects_known(old(self).slots(), pair_effects(debited, credited, amount))
                ==> effects_safe(old(self).slots(), pair_effects(debited, credited, amount)),
        ensures
            final(self).wf(),
            final(self).next_tx_spec() == old(self).next_tx_spec(),
            effects_known(old(self).slots(), pair_effects(debited, credited, amount)) ==> {
                &&& r is Ok
                &&& final(self).slots() == apply_effects(
                    old(self).slots(),
                    pair_effects(debited, credited, amount),
                )
                &&& final(self).entries().len() == old(self).entries().len() + 1
                &&& final(self).entries().drop_last() == old(self).entries()
                &&& final(self).entries().last() == (JournalEntry {
                    lines: final(self).entries().last().lines,
                    ..entry
                })
                &&& final(self).entries().last().lines@.len() == 2
                &&& final(self).entries().last().lines@[0].account == debited
                &&& final(self).entries().last().lines@[0].debit == amount
                &&& final(self).entries().last().lines@[0].credit@ == 0
                &&& final(self).entries().last().lines@[1].account == credited
                &&& final(self).entries().last().lines@[1].debit@ == 0
                &&& final(self).entries().last().lines@[1].credit == amount
            },
            !effects_known(old(self).slots(), pair_effects(debited, credited, amount)) ==> {
                &&& final(self).slots() == old(self).slots()
                &&& final(self).entries() == old(self).entries()
                &&& r matches Err(SableError::AccountNotFound(a)) && if !key_active(
                    old(self).slots(),
                    debited@,
                ) {
                    a == debited
                } else {
                    a == credited
                }
            },
    {
        let ghost d = debited;
        let ghost c = credited;
        let e = entry.with_line(JournalLine::debit(debited, amount, debit_memo)).with_line(
            JournalLine::credit(credited, amount, credit_memo),
        );
        proof {
            let ds = line_debits(e.lines@);
            let cs = line_credits(e.lines@);
            assert(ds =~= seq![amount@, 0]);
            assert(cs =~= seq![0, amount@]);
            reveal_with_fuel(sum_first, 3);
            assert(sum_first(ds, 1) == amount@);
            assert(sum_first(ds, 2) == amount@);
            assert(sum_first(cs, 1) == 0);
            assert(sum_first(cs, 2) == amount@);
            assert(line_effects(e.lines@) =~= pair_effects(d, c, amount));
            assert(e.balanced());
            let effs = pair_effects(d, c, amount);
            if !effects_known(self.slots(), effs) {
                if key_active(self.slots(), d@) {
                    assert(!key_active(self.slots(), effs[1].0));
                }
            }
        }
        let r = self.post(e);
        proof {
            let effs = pair_effects(d, c, amount);
            if !effects_known(old(self).slots(), effs) {
                if let Err(SableError::AccountNotFound(a)) = &r {
                    let j = choose|j: int|
                        0 <= j < e.lines@.len() && e.lines@[j].account == a && !key_active(
                            old(self).slots(),
                            a@,
                        ) && forall|i: int|
                            0 <= i < j ==> key_active(
                                old(self).slots(),
                                #[trigger] e.lines@[i].account@,
                            );
                    if j == 1 {
                        assert(key_active(old(self).slots(), e.lines@[0].account@));
                    }
                }
            }
        }
        r
    }

    /// Posts an invoice: receivable debited, revenue credited.
    pub fn post_invoice(
        &mut self,
        day: u32,
        invoice_id: InvoiceId,
        receivable: AccountId,
        revenue: AccountId,
        amount: Money,
        memo: String,
    ) -> (r: SableResult<TxId>)
        requires
            old(self).wf(),
            pair_safe(*old(self), receivable, revenue, amount),
        ensures
            pair_posted(*old(self), *final(self), receivable, revenue, amount, r),
            r is Ok ==> final(self).entries().last().day == day && final(self).entries().last().invoice_id == Some(invoice_id) && final(self).entries().last().source@ == "invoice"@ && final(self).entries().last().memo == memo,
    {
        let tx_id = self.next_tx_id();
        let entry = JournalEntry::new(tx_id.duplicate(), day, String::from_str("invoice"), memo)
            .for_invoice(invoice_id);
        self.post_pair(
            entry,
            receivable,
            String::from_str("invoice receivable"),
            revenue,
            String::from_str("invoice revenue"),
            amount,
        )?;
        Ok(tx_id)
    }

    /// Posts a receipt: cash debited, receivable credited.
    pub fn post_receipt(
        &mut self,
        day: u32,
        invoice_id: InvoiceId,
        receipt_id: ReceiptId,
        cash: AccountId,
        receivable: AccountId,
        amount: Money,
    ) -> (r: SableResult<TxId>)
        requires
            old(self).wf(),
            pair_safe(*old(self), cash, receivable, amount),
        ensures
            pair_posted(*old(self), *final(self), cash, receivable, amount, r),
            r is Ok ==> final(self).entries().last().day == day && final(self).entries().last().invoice_id == Some(invoice_id) && final(self).entries().last().receipt_id == Some(receipt_id) && final(self).entries().last().source@ == "receipt"@,
    {
        let tx_id = self.next_tx_id();
        let entry = JournalEntry::new(
            tx_id.duplicate(),
            day,
            String::from_str("receipt"),
            String::from_str("payment receipt"),
        ).for_invoice(invoice_id).for_receipt(receipt_id);
        self.post_pair(
            entry,
            cash,
            String::from_str("cash"),
            receivable,
            String::from_str("receivable relief"),
            amount,
        )?;
        Ok(tx_id)
    }

    /// Posts a commercial allowance: allowance debited, receivable credited.
    pub fn post_credit_memo(
        &mut self,
        day: u32,
        invoice_id: InvoiceId,
        receivable: AccountId,
        allowance: AccountId,
        amount: Money,
    ) -> (r: SableResult<TxId>)
        requires
            old(self).wf(),
            pair_safe(*old(self), allowance, receivable, amount),
        ensures
            pair_posted(*old(self), *final(self), allowance, receivable, amount, r),
            r is Ok ==> final(self).entries().last().day == day && final(self).entries().last().invoice_id == Some(invoice_id) && final(self).entries().last().source@ == "adjustment"@,
    {
        let tx_id = self.next_tx_id();
        let entry = JournalEntry::new(
            tx_id.duplicate(),
            day,
            String::from_str("adjustment"),
            String::from_str("commercial allowance"),
        ).for_invoice(invoice_id);
        self.post_pair(
            entry,
            allowance,
            String::from_str("allowance"),
            receivable,
            String::from_str("receivable relief"),
            amount,
        )?;
        Ok(tx_id)
    }

    /// Posts a debit memo: receivable debited, revenue credited.
    pub fn post_debit_memo(
        &mut self,
        day: u32,
        invoice_id: InvoiceId,
        receivable: AccountId,
        revenue: AccountId,
        amount: Money,
    ) -> (r: SableResult<TxId>)
        requires
            old(self).wf(),
            pair_safe(*old(self), receivable, revenue, amount),
        ensures
            pair_posted(*old(self), *final(self), receivable, revenue, amount, r),
            r is Ok ==> final(self).entries().last().day == day && final(self).entries().last().invoice_id == Some(invoice_id) && final(self).entries().last().source@ == "adjustment"@,
    {
        let tx_id = self.next_tx_id();
        let entry = JournalEntry::new(
            tx_id.duplicate(),
            day,
            String::from_str("adjustment"),
            String::from_str("commercial debit memo"),
        ).for_invoice(invoice_id);
        self.post_pair(
            entry,
            receivable,
            String::from_str("receivable increase"),
            revenue,
            String::from_str("revenue correction"),
            amount,
        )?;
        Ok(tx_id)
    }

    /// Posts a settlement claim: clearing debited, receivable credited.
    pub fn post_settlement_claim(
        &mut self,
        day: u32,
        invoice_id: InvoiceId,
        batch_id: BatchId,
        receivable: AccountId,
        clearing: AccountId,
        amount: Money,
    ) -> (r: SableResult<TxId>)
        requires
            old(self).wf(),
            pair_safe(*old(self), clearing, receivable, amount),
        ensures
            pair_posted(*old(self), *final(self), clearing, receivable, amount, r),
            r is Ok ==> final(self).entries().last().day == day && final(self).entries().last().invoice_id == Some(invoice_id) && final(self).entries().last().batch_id == Some(batch_id) && final(self).entries().last().source@ == "settlement"@,
    {
        let tx_id = self.next_tx_id();
        let entry = JournalEntry::new(
            tx_id.duplicate(),
            day,
            String::from_str("settlement"),
            String::from_str("settlement claim"),
        ).for_invoice(invoice_id).in_batch(batch_id);
        self.post_pair(
            entry,
            clearing,
            String::from_str("settlement clearing"),
            receivable,
            String::from_str("claim presentation"),
            amount,
        )?;
        Ok(tx_id)
    }

    /// The trial balance, or `None` when its totals leave `i64`.
    pub(crate) fn try_trial_balance(&self) -> (r: Option<TrialBalance>)
        requires
            self.wf(),
        ensures
            trial_ok(self.slots()) ==> (r matches Some(tb) && is_trial_balance(self.slots(), tb)),
            !trial_ok(self.slots()) ==> r is None,
            r matches Some(tb) ==> tb.balanced,
    {
        let ghost s = self.slots();
        let ghost ds = debit_parts(s);
        let ghost cs = credit_parts(s);
        let n = self.accounts.len();
        let mut rows: Vec<TrialBalanceRow> = Vec::new();
        let mut total_debits: i64 = 0;
        let mut total_credits: i64 = 0;
        let mut i: usize = 0;
        while i < n
            invariant
                n == s.len(),
                s == self.slots(),
                ds == debit_parts(s),
                cs == credit_parts(s),
                i <= n,
                forall|j: int| 0 <= j < i ==> (#[trigger] s[j]).1.balance@ > i64::MIN,
                forall|k: nat| 1 <= k <= i ==> fits_i64(#[trigger] sum_first(ds, k)),
                forall|k: nat| 1 <= k <= i ==> fits_i64(#[trigger] sum_first(cs, k)),
                total_debits == sum_first(ds, i as nat),
                total_credits == sum_first(cs, i as nat),
                rows@.len() == i,
                forall|j: int|
                    0 <= j < i ==> {
                        let row = #[trigger] rows@[j];
                        &&& row.account == s[j].0
                        &&& row.code == s[j].1.account.code
                        &&& row.name == s[j].1.account.name
                        &&& row.class == s[j].1.account.class
                        &&& row.debit@ == debit_part(s[j].1.balance@)
                        &&& row.credit@ == credit_part(s[j].1.balance@)
                    },
            decreases n - i,
        {
            let key = self.accounts.key_at(i);
            let slot = self.accounts.value_at(i);
            assert(*slot == s[i as int].1);
            let signed = slot.balance.cents;
            if signed == i64::MIN {
                return None;
            }
            let (debit, credit) = if signed >= 0 {
                (signed, 0i64)
            } else {
                (0i64, -signed)
            };
            assert(debit == ds[i as int]);
            assert(credit == cs[i as int]);
            match total_debits.checked_add(debit) {
                Some(t) => {
                    total_debits = t;
                },
                None => {
                    assert(!fits_i64(sum_first(ds, (i + 1) as nat)));
                    return None;
                },
            }
            match total_credits.checked_add(credit) {
                Some(t) => {
                    total_credits = t;
                },
                None => {
                    assert(!fits_i64(sum_first(cs, (i + 1) as nat)));
                    return None;
                },
            }
            rows.push(
                TrialBalanceRow {
                    account: key.duplicate(),
                    code: slot.account.code.clone(),
                    name: slot.account.name.clone(),
                    class: slot.account.class,
                    debit: Money { cents: debit },
                    credit: Money { cents: credit },
                },
            );
            i += 1;
        }
        proof {
            assert(ds.len() == n && cs.len() == n);
            lemma_sum_split(ds, cs, slot_balances(s));
        }
        Some(
            TrialBalance {
                accounts: rows,
                total_debits: Money { cents: total_debits },
                total_credits: Money { cents: total_credits },
                balanced: total_debits == total_credits,
            },
        )
    }

    /// The trial balance; with the ledger's invariant it is always balanced.
    pub fn trial_balance(&self) -> (r: TrialBalance)
        requires
            self.wf(),
            trial_ok(self.slots()),
        ensures
            is_trial_balance(self.slots(), r),
            r.balanced,
    {
        match self.try_trial_balance() {
            Some(tb) => tb,
            None => TrialBalance {
                accounts: Vec::new(),
                total_debits: Money::zero(),
                total_credits: Money::zero(),
                balanced: true,
            },
        }
    }

    pub fn journal(&self) -> (r: &[JournalEntry])
        ensures
            r@ == self.entries(),
    {
        self.journal.as_slice()
    }

    /// The journal entries recorded for `invoice_id`, in posting order.
    pub fn entries_for_invoice(&self, invoice_id: &InvoiceId) -> (r: Vec<&JournalEntry>)
        ensures
            r@.map_values(|e: &JournalEntry| *e) == self.entries().filter(
                |e: JournalEntry| e.invoice_id matches Some(i) && i@ == invoice_id@,
            ),
    {
        let ghost pred = |e: JournalEntry| e.invoice_id matches Some(i) && i@ == invoice_id@;
        let n = self.journal.len();
        let mut r: Vec<&JournalEntry> = Vec::new();
        let mut j: usize = 0;
        while j < n
            invariant
                pred == (|e: JournalEntry| e.invoice_id matches Some(i) && i@ == invoice_id@),
                n == self.entries().len(),
                j <= n,
                r@.map_values(|e: &JournalEntry| *e) == self.entries().take(j as int).filter(pred),
            decreases n - j,
        {
            let e = &self.journal[j];
            proof {
                lemma_filter_take_step(self.entries(), pred, j as int);
            }
            let hit = match &e.invoice_id {
                Some(i) => i.same(invoice_id),
                None => false,
            };
            if hit {
                let ghost before = r@;
                r.push(e);
                assert(r@.map_values(|e: &JournalEntry| *e) =~= before.map_values(
                    |e: &JournalEntry| *e,
                ).push(*e));
            }
            j += 1;
        }
        proof {
            lemma_take_full(self.entries());
        }
        r
    }

    pub fn account_count(&self) -> (r: usize)
        ensures
            r == self.slots().len(),
    {
        self.accounts.len()
    }
}

/// The canonical JSON text of a trial balance row.
pub open spec fn trial_row_json(r: TrialBalanceRow) -> Seq<char> {
    "{\"account\":"@ + json_string(r.account@) + ",\"code\":"@ + json_string(r.code@)
        + ",\"name\":"@ + json_string(r.name@) + ",\"class\":"@ + json_string(
        account_class_name(r.class),
    ) + ",\"debit\":"@ + json_money(r.debit@) + ",\"credit\":"@ + json_money(r.credit@) + "}"@
}

/// The canonical JSON text of a trial balance.
pub open spec fn trial_balance_json(t: TrialBalance) -> Seq<char> {
    "{\"accounts\":"@ + json_array(t.accounts@.map_values(|r: TrialBalanceRow| trial_row_json(r)))
        + ",\"total_debits\":"@ + json_money(t.total_debits@) + ",\"total_credits\":"@
        + json_money(t.total_credits@) + ",\"balanced\":"@ + json_bool(t.balanced) + "}"@
}

impl TrialBalanceRow {
    /// The row as canonical JSON text.
    pub fn canonical_json(&self) -> (r: String)
        ensures
            r@ == trial_row_json(*self),
    {
        let mut r = String::from_str("{\"account\":");
        push_json_string(&mut r, self.account.as_str());
        r.append(",\"code\":");
        push_json_string(&mut r, self.code.as_str());
        r.append(",\"name\":");
        push_json_string(&mut r, self.name.as_str());
        r.append(",\"class\":");
        push_json_string(&mut r, self.class.name());
        r.append(",\"debit\":");
        push_json_money(&mut r, self.debit.cents);
        r.append(",\"credit\":");
        push_json_money(&mut r, self.credit.cents);
        r.append("}");
        r
    }
}

impl TrialBalance {
    /// The trial balance as canonical JSON text.
    pub fn canonical_json(&self) -> (r: String)
        ensures
            r@ == trial_balance_json(*self),
    {
        let ghost rows = self.accounts@;
        let mut items: Vec<String> = Vec::new();
        let mut i: usize = 0;
        while i < self.accounts.len()
            invariant
                rows == self.accounts@,
                i <= rows.len(),
                items@.map_values(|t: String| t@) == rows.take(i as int).map_values(
                    |r: TrialBalanceRow| trial_row_json(r),
                ),
            decreases rows.len() - i,
        {
            let text = self.accounts[i].canonical_json();
            proof {
                lemma_texts_push(
                    items@,
                    rows,
                    |r: TrialBalanceRow| trial_row_json(r),
                    text,
                    i as int,
                );
            }
            items.push(text);
            i = i + 1;
        }
        assert(rows.take(rows.len() as int) =~= rows);
        let mut r = String::from_str("{\"accounts\":");
        push_json_array(&mut r, &items);
        r.append(",\"total_debits\":");
        push_json_money(&mut r, self.total_debits.cents);
        r.append(",\"total_credits\":");
        push_json_money(&mut r, self.total_credits.cents);
        r.append(",\"balanced\":");
        push_json_bool(&mut r, self.balanced);
        r.append("}");
        r
    }
}

} // verus!
