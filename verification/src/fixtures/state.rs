//! The seeded desk: a chart, counterparties and empty books, and the operations that
//! drive it through a month.
use vstd::prelude::*;

use crate::adjustments::book::{memo_posting_fits, memo_posting_safe, AdjustmentBook};
use crate::adjustments::model::{
    AdjustmentPolicy, AdjustmentReason, AdjustmentSide, ManualAdjustment,
};
use crate::amount::{fits_i64, running_sums_fit, scaled, seq_sum, sum_first, Bps, Money};
use crate::close::{reconciliation_holds, reconciliation_json, CloseBatch, Period, ReconciliationReport};
use crate::codec::blake3_hex;
use crate::error::{SableError, SableResult};
use crate::ids::{generated_text, lemma_generated_injective, AccountId, AdjustmentId, BatchId, InvoiceId, PartyId, ReceiptId};
use crate::invoice::book::InvoiceBook;
use crate::invoice::model::{
    entry_accepted, line_nets, line_taxes, receipt_applied, receipt_entry_safe, receipt_outcome,
    Invoice, InvoiceStatus, LineItem, PaymentTerms,
};
use crate::keyed::{entry_keys, has_key, key_index, lemma_keys_after_insert, lookup, sorted_keys};
use crate::ledger::state::{
    apply_effects, balance_of, effects_known, effects_safe, lemma_effects_safe_concat, pair_effects,
    pair_ledger_effect, pair_missing, pair_safe,
};
use crate::keyed::BookKey;
use crate::ledger::account::{AccountClass, ChartAccount};
use crate::ledger::state::{AccountSlot, Ledger};
use crate::party::{BankAccount, Counterparty, CounterpartyBook, CounterpartyRole};
use crate::policy::PolicySet;
use crate::receipts::book::ReceiptBook;
use crate::receipts::model::{PaymentChannel, SettlementReceipt};
use crate::settlement::book::{
    by_priority, claim_made, claim_picks, claim_posted_for, due_obligations, lemma_post_single,
    obligation_entries, post_plan, posting_accounts_known, posting_effects, prepared_claims,
    SettlementBook,
};
use crate::ids::{SettlementId, TxId};
use crate::keyed::{derefs, entry_values};
use crate::invoice::book::closable;
use crate::invoice::model::closed_on;
use crate::adjustments::book::{adjustment_flow, adjustment_safe};
use crate::settlement::model::obligation_computes;
use crate::text::{join3, push_decimal};

verus! {

/// The accounts of the chart that the desk posts to.
#[derive(Clone, Debug, PartialEq, Eq)]
pub struct AccountMap {
    pub cash: AccountId,
    pub receivable: AccountId,
    pub revenue: AccountId,
    pub allowance: AccountId,
    pub clearing: AccountId,
    pub suspense: AccountId,
}

impl AccountMap {
    pub fn standard() -> (r: AccountMap)
        ensures
            r.cash@ == "1000-cash"@,
            r.receivable@ == "1200-accounts-receivable"@,
            r.revenue@ == "4000-merchant-revenue"@,
            r.allowance@ == "4090-commercial-allowance"@,
            r.clearing@ == "1300-settlement-clearing"@,
            r.suspense@ == "1990-reconciliation-suspense"@,
    {
        AccountMap {
            cash: AccountId::new("1000-cash"),
            receivable: AccountId::new("1200-accounts-receivable"),
            revenue: AccountId::new("4000-merchant-revenue"),
            allowance: AccountId::new("4090-commercial-allowance"),
            clearing: AccountId::new("1300-settlement-clearing"),
            suspense: AccountId::new("1990-reconciliation-suspense"),
        }
    }
}

/// The parties the desk is seeded with.
#[derive(Clone, Debug, PartialEq, Eq)]
pub struct SeedParties {
    pub merchant: PartyId,
    pub buyer_alpha: PartyId,
    pub buyer_beta: PartyId,
    pub buyer_gamma: PartyId,
    pub processor: PartyId,
    pub treasury: PartyId,
    pub auditor: PartyId,
}

impl SeedParties {
    pub fn standard() -> (r: SeedParties)
        ensures
            r.merchant@ == "merchant-sable-market"@,
            r.buyer_alpha@ == "buyer-aurelian-retail"@,
            r.buyer_beta@ == "buyer-bluegrain-logistics"@,
            r.buyer_gamma@ == "buyer-cavern-supply"@,
            r.processor@ == "processor-delta-rail"@,
            r.treasury@ == "treasury-sable"@,
            r.auditor@ == "auditor-northdesk"@,
    {
        SeedParties {
            merchant: PartyId::new("merchant-sable-market"),
            buyer_alpha: PartyId::new("buyer-aurelian-retail"),
            buyer_beta: PartyId::new("buyer-bluegrain-logistics"),
            buyer_gamma: PartyId::new("buyer-cavern-supply"),
            processor: PartyId::new("processor-delta-rail"),
            treasury: PartyId::new("treasury-sable"),
            auditor: PartyId::new("auditor-northdesk"),
        }
    }
}

/// The whole desk: its accounts, parties, books, ledger and policies.
pub struct SableState {
    pub accounts: AccountMap,
    pub parties: SeedParties,
    pub counterparties: CounterpartyBook,
    pub invoices: InvoiceBook,
    pub receipts: ReceiptBook,
    pub adjustments: AdjustmentBook,
    pub settlement: SettlementBook,
    pub ledger: Ledger,
    pub adjustment_policy: AdjustmentPolicy,
    pub policies: PolicySet,
    pub next_invoice: u64,
    pub next_receipt: u64,
    pub next_adjustment: u64,
    pub next_batch: u64,
}

/// The total of a one-line invoice for `amount` taxed at `bps`.
pub open spec fn standard_total(amount: Money, bps: Bps) -> int {
    amount@ + scaled(amount@, bps@ as int, 10000)
}

/// Whether the tax and the total of such an invoice fit in `i64`.
pub open spec fn standard_price_ok(amount: Money, bps: Bps) -> bool {
    crate::amount::fits_i64(scaled(amount@, bps@ as int, 10000)) && crate::amount::fits_i64(
        standard_total(amount, bps),
    )
}

impl SableState {
    /// Every book of the desk is well formed.
    pub open spec fn wf(&self) -> bool {
        &&& self.counterparties.wf()
        &&& self.invoices.wf()
        &&& self.receipts.wf()
        &&& self.adjustments.wf()
        &&& self.settlement.wf()
        &&& self.ledger.wf()
    }

    /// The next close batch id; the counter moves on.
    pub fn next_batch_id(&mut self) -> (r: BatchId)
        requires
            old(self).next_batch < u64::MAX,
        ensures
            r@ == generated_text(BatchId::prefix(), old(self).next_batch),
            final(self).next_batch == old(self).next_batch + 1,
            final(self).next_invoice == old(self).next_invoice,
            final(self).next_receipt == old(self).next_receipt,
            final(self).next_adjustment == old(self).next_adjustment,
            final(self).accounts == old(self).accounts,
            final(self).parties == old(self).parties,
            final(self).counterparties == old(self).counterparties,
            final(self).invoices == old(self).invoices,
            final(self).receipts == old(self).receipts,
            final(self).adjustments == old(self).adjustments,
            final(self).settlement == old(self).settlement,
            final(self).ledger == old(self).ledger,
            final(self).adjustment_policy == old(self).adjustment_policy,
            final(self).policies == old(self).policies,
    {
        let id = BatchId::generated(self.next_batch);
        self.next_batch = self.next_batch + 1;
        id
    }
}

/// Whether the accounts are the standard chart ids.
pub open spec fn standard_accounts(a: AccountMap) -> bool {
    &&& a.cash@ == "1000-cash"@
    &&& a.receivable@ == "1200-accounts-receivable"@
    &&& a.revenue@ == "4000-merchant-revenue"@
    &&& a.allowance@ == "4090-commercial-allowance"@
    &&& a.clearing@ == "1300-settlement-clearing"@
    &&& a.suspense@ == "1990-reconciliation-suspense"@
}

/// Whether the parties are the standard seed ids.
pub open spec fn standard_parties(p: SeedParties) -> bool {
    &&& p.merchant@ == "merchant-sable-market"@
    &&& p.buyer_alpha@ == "buyer-aurelian-retail"@
    &&& p.buyer_beta@ == "buyer-bluegrain-logistics"@
    &&& p.buyer_gamma@ == "buyer-cavern-supply"@
    &&& p.processor@ == "processor-delta-rail"@
    &&& p.treasury@ == "treasury-sable"@
    &&& p.auditor@ == "auditor-northdesk"@
}

/// Whether `k` is the id of one of the desk's six accounts.
pub open spec fn standard_key(a: AccountMap, k: Seq<char>) -> bool {
    k == a.cash@ || k == a.receivable@ || k == a.revenue@ || k == a.allowance@ || k == a.clearing@
        || k == a.suspense@
}

/// Whether every account of the chart has a zero balance.
pub open spec fn all_balances_zero(l: Ledger) -> bool {
    forall|i: int| 0 <= i < l.slots().len() ==> (#[trigger] l.slots()[i]).1.balance@ == 0
}

/// Adds an account with a zero balance, keeping every balance of the chart at zero.
fn add_zero_account(ledger: &mut Ledger, account: ChartAccount) -> (r: SableResult<()>)
    requires
        old(ledger).wf(),
        all_balances_zero(*old(ledger)),
    ensures
        final(ledger).wf(),
        all_balances_zero(*final(ledger)),
        final(ledger).entries() == old(ledger).entries(),
        final(ledger).next_tx_spec() == old(ledger).next_tx_spec(),
        !has_key(entry_keys(old(ledger).slots()), account.id@) ==> r is Ok
            && final(ledger).slots().len() == old(ledger).slots().len() + 1,
        forall|k: Seq<char>|
            #[trigger] has_key(entry_keys(final(ledger).slots()), k) == (has_key(
                entry_keys(old(ledger).slots()),
                k,
            ) || k == account.id@),
        !has_key(entry_keys(old(ledger).slots()), account.id@) ==> forall|k: Seq<char>|
            #[trigger] lookup(final(ledger).slots(), k) == if k == account.id@ {
                Some(crate::ledger::state::AccountSlot { account, balance: Money { cents: 0 } })
            } else {
                lookup(old(ledger).slots(), k)
            },
{
    let ghost acct = account;
    let r = ledger.add_account(account);
    proof {
        if r is Ok {
            let e = (acct.id, crate::ledger::state::AccountSlot { account: acct, balance: Money { cents: 0 } });
            let p = choose|p: int|
                0 <= p <= old(ledger).slots().len() && ledger.slots() == old(ledger).slots().insert(
                    p,
                    e,
                );
            assert forall|k: Seq<char>| #[trigger] has_key(entry_keys(ledger.slots()), k) == (has_key(
                entry_keys(old(ledger).slots()),
                k,
            ) || k == acct.id@) by {
                lemma_keys_after_insert(old(ledger).slots(), p, e, k);
            }
            assert forall|k: Seq<char>| #[trigger] lookup(ledger.slots(), k) == if k == acct.id@ {
                Some(e.1)
            } else {
                lookup(old(ledger).slots(), k)
            } by {
                crate::keyed::lemma_lookup_after_insert(old(ledger).slots(), p, e.0, e.1, k);
            }
            assert forall|i: int| 0 <= i < ledger.slots().len() implies (
            #[trigger] ledger.slots()[i]).1.balance@ == 0 by {
                if i < p {
                    assert(ledger.slots()[i] == old(ledger).slots()[i]);
                } else if i > p {
                    assert(ledger.slots()[i] == old(ledger).slots()[i - 1]);
                }
            }
        }
    }
    r
}

/// Whether the chart holds under `id` the enabled account `code` `name` of `class`, on
/// the normal side of its class, with a zero balance.
pub open spec fn chart_account_held(
    slots: Seq<(AccountId, AccountSlot)>,
    id: AccountId,
    code: Seq<char>,
    name: Seq<char>,
    class: AccountClass,
) -> bool {
    lookup(slots, id@) matches Some(slot) && {
        &&& slot.account.id == id
        &&& slot.account.code@ == code
        &&& slot.account.name@ == name
        &&& slot.account.class == class
        &&& slot.account.normal_debit == class.debit_normal()
        &&& slot.account.enabled
        &&& slot.balance@ == 0
    }
}

/// The desk's standard chart: cash, receivable and clearing assets, the suspense
/// clearing account, revenue and the contra-revenue allowances.
pub open spec fn standard_chart(slots: Seq<(AccountId, AccountSlot)>, a: AccountMap) -> bool {
    &&& chart_account_held(slots, a.cash, "1000"@, "Operating cash"@, AccountClass::Asset)
    &&& chart_account_held(slots, a.receivable, "1200"@, "Accounts receivable"@, AccountClass::Asset)
    &&& chart_account_held(slots, a.clearing, "1300"@, "Settlement clearing"@, AccountClass::Asset)
    &&& chart_account_held(slots, a.suspense, "1990"@, "Reconciliation suspense"@, AccountClass::Clearing)
    &&& chart_account_held(slots, a.revenue, "4000"@, "Merchant revenue"@, AccountClass::Revenue)
    &&& chart_account_held(slots, a.allowance, "4090"@, "Commercial allowances"@, AccountClass::ContraRevenue)
}

/// Whether every account of the chart is enabled.
pub open spec fn all_enabled(slots: Seq<(AccountId, AccountSlot)>) -> bool {
    forall|i: int| 0 <= i < slots.len() ==> (#[trigger] slots[i]).1.account.enabled
}

/// Installs the standard chart: cash, receivable, clearing, suspense, revenue, allowance.
fn install_chart(ledger: &mut Ledger, accounts: &AccountMap) -> (r: SableResult<()>)
    requires
        old(ledger).wf(),
        all_balances_zero(*old(ledger)),
        old(ledger).slots().len() == 0,
        standard_accounts(*accounts),
    ensures
        r is Ok,
        final(ledger).wf(),
        all_balances_zero(*final(ledger)),
        final(ledger).entries() == old(ledger).entries(),
        final(ledger).next_tx_spec() == old(ledger).next_tx_spec(),
        forall|k: Seq<char>|
            #[trigger] has_key(entry_keys(final(ledger).slots()), k) == standard_key(*accounts, k),
        final(ledger).slots().len() == 6,
        standard_chart(final(ledger).slots(), *accounts),
        all_enabled(final(ledger).slots()),
{
    proof {
        reveal_strlit("1000-cash");
        reveal_strlit("1200-accounts-receivable");
        reveal_strlit("1300-settlement-clearing");
        reveal_strlit("1990-reconciliation-suspense");
        reveal_strlit("4000-merchant-revenue");
        reveal_strlit("4090-commercial-allowance");
        assert("1000-cash"@.len() == 9);
        assert("1200-accounts-receivable"@.len() == 24);
        assert("1300-settlement-clearing"@.len() == 24);
        assert("1990-reconciliation-suspense"@.len() == 28);
        assert("4000-merchant-revenue"@.len() == 21);
        assert("4090-commercial-allowance"@.len() == 25);
        assert("1200-accounts-receivable"@[1] != "1300-settlement-clearing"@[1]);
    }
    add_zero_account(
        ledger,
        ChartAccount::new(
            accounts.cash.duplicate(),
            String::from_str("1000"),
            String::from_str("Operating cash"),
            AccountClass::Asset,
        ),
    )?;
    add_zero_account(
        ledger,
        ChartAccount::new(
            accounts.receivable.duplicate(),
            String::from_str("1200"),
            String::from_str("Accounts receivable"),
            AccountClass::Asset,
        ),
    )?;
    add_zero_account(
        ledger,
        ChartAccount::new(
            accounts.clearing.duplicate(),
            String::from_str("1300"),
            String::from_str("Settlement clearing"),
            AccountClass::Asset,
        ),
    )?;
    add_zero_account(
        ledger,
        ChartAccount::new(
            accounts.suspense.duplicate(),
            String::from_str("1990"),
            String::from_str("Reconciliation suspense"),
            AccountClass::Clearing,
        ),
    )?;
    add_zero_account(
        ledger,
        ChartAccount::new(
            accounts.revenue.duplicate(),
            String::from_str("4000"),
            String::from_str("Merchant revenue"),
            AccountClass::Revenue,
        ),
    )?;
    add_zero_account(
        ledger,
        ChartAccount::new(
            accounts.allowance.duplicate(),
            String::from_str("4090"),
            String::from_str("Commercial allowances"),
            AccountClass::ContraRevenue,
        ),
    )?;
    proof {
        let sl = ledger.slots();
        assert forall|i: int| 0 <= i < sl.len() implies (#[trigger] sl[i]).1.account.enabled by {
            let key = entry_keys(sl)[i];
            crate::keyed::lemma_sorted_index_unique(entry_keys(sl), i, key);
            assert(has_key(entry_keys(sl), key));
            assert(standard_key(*accounts, key));
            assert(lookup(sl, key) == Some(sl[i].1));
        }
    }
    Ok(())
}

/// Whether `bank` is the enabled USD account `account_ref` at `institution`, routed by
/// `routing_code`.
pub open spec fn usd_bank(
    bank: BankAccount,
    institution: Seq<char>,
    routing_code: Seq<char>,
    account_ref: Seq<char>,
) -> bool {
    &&& bank.institution@ == institution
    &&& bank.routing_code@ == routing_code
    &&& bank.account_ref@ == account_ref
    &&& bank.currency@ == "USD"@
    &&& bank.enabled
}

/// Whether `book` holds under `id` the active counterparty `legal_name` with `role`,
/// booking to the `settle`, `receive` and `pay` accounts.
pub open spec fn party_held(
    book: CounterpartyBook,
    id: Seq<char>,
    legal_name: Seq<char>,
    role: CounterpartyRole,
    settle: AccountId,
    receive: AccountId,
    pay: AccountId,
) -> bool {
    book.find_spec(id) matches Some(p) && {
        &&& p.id@ == id
        &&& p.legal_name@ == legal_name
        &&& p.role == role
        &&& p.settlement_account == settle
        &&& p.receivable_account == receive
        &&& p.payable_account == pay
        &&& p.active
    }
}

/// Whether the counterparty under `id` has exactly one bank account, the enabled USD
/// account `account_ref` at `institution`.
pub open spec fn party_banked(
    book: CounterpartyBook,
    id: Seq<char>,
    institution: Seq<char>,
    routing_code: Seq<char>,
    account_ref: Seq<char>,
) -> bool {
    book.find_spec(id) matches Some(p) && p.bank_accounts@.len() == 1 && usd_bank(
        p.bank_accounts@[0],
        institution,
        routing_code,
        account_ref,
    )
}

/// Whether the counterparty under `id` has no bank account.
pub open spec fn party_unbanked(book: CounterpartyBook, id: Seq<char>) -> bool {
    book.find_spec(id) matches Some(p) && p.bank_accounts@.len() == 0
}

/// The seed parties in `book`: the merchant and three buyers with their banks, the
/// processor, the treasury desk and the auditor, and no one else.
pub open spec fn seed_parties_held(book: CounterpartyBook, p: SeedParties, a: AccountMap) -> bool {
    &&& book@.len() == 7
    &&& party_held(book, p.merchant@, "Sable Market Labs Ltd."@, CounterpartyRole::Merchant, a.cash, a.receivable, a.suspense)
    &&& party_banked(book, p.merchant@, "Northline Bank"@, "NLINUS33"@, "00044122"@)
    &&& party_held(book, p.buyer_alpha@, "Aurelian Retail Group"@, CounterpartyRole::Buyer, a.cash, a.suspense, a.receivable)
    &&& party_banked(book, p.buyer_alpha@, "Pioneer Bank"@, "PIONUS44"@, "99120001"@)
    &&& party_held(book, p.buyer_beta@, "Bluegrain Logistics LLC"@, CounterpartyRole::Buyer, a.cash, a.suspense, a.receivable)
    &&& party_banked(book, p.buyer_beta@, "Harbor Trust"@, "HARBUS55"@, "10770021"@)
    &&& party_held(book, p.buyer_gamma@, "Cavern Supply Cooperative"@, CounterpartyRole::Buyer, a.cash, a.suspense, a.receivable)
    &&& party_banked(book, p.buyer_gamma@, "Redstone Credit"@, "REDCUS66"@, "30241077"@)
    &&& party_held(book, p.processor@, "Delta Rail Processor"@, CounterpartyRole::Processor, a.clearing, a.suspense, a.receivable)
    &&& party_unbanked(book, p.processor@)
    &&& party_held(book, p.treasury@, "Sable Treasury Desk"@, CounterpartyRole::Treasury, a.cash, a.suspense, a.receivable)
    &&& party_unbanked(book, p.treasury@)
    &&& party_held(book, p.auditor@, "Northdesk Audit Office"@, CounterpartyRole::Auditor, a.suspense, a.suspense, a.suspense)
    &&& party_unbanked(book, p.auditor@)
}

/// A counterparty with one bank account.
fn banked_party(
    id: PartyId,
    legal_name: &str,
    role: CounterpartyRole,
    settlement_account: AccountId,
    receivable_account: AccountId,
    payable_account: AccountId,
    institution: &str,
    routing_code: &str,
    account_ref: &str,
) -> (r: Counterparty)
    ensures
        r.id == id,
        r.legal_name@ == legal_name@,
        r.role == role,
        r.settlement_account == settlement_account,
        r.receivable_account == receivable_account,
        r.payable_account == payable_account,
        r.active,
        r.bank_accounts@.len() == 1,
        usd_bank(r.bank_accounts@[0], institution@, routing_code@, account_ref@),
{
    Counterparty::new(
        id,
        String::from_str(legal_name),
        role,
        settlement_account,
        receivable_account,
        payable_account,
    ).with_bank_account(
        BankAccount::new(
            String::from_str(institution),
            String::from_str(routing_code),
            String::from_str(account_ref),
            String::from_str("USD"),
        ),
    )
}

/// Registers the seed parties: the merchant and buyers with their banks, then the
/// processor, treasury and auditor.
fn install_parties(book: &mut CounterpartyBook, parties: &SeedParties, accounts: &AccountMap) -> (r:
    SableResult<()>)
    requires
        old(book).wf(),
        old(book)@.len() == 0,
        standard_parties(*parties),
    ensures
        r is Ok,
        final(book).wf(),
        seed_parties_held(*final(book), *parties, *accounts),
{
    proof {
        reveal_strlit("merchant-sable-market");
        reveal_strlit("buyer-aurelian-retail");
        reveal_strlit("buyer-bluegrain-logistics");
        reveal_strlit("buyer-cavern-supply");
        reveal_strlit("processor-delta-rail");
        reveal_strlit("treasury-sable");
        reveal_strlit("auditor-northdesk");
        assert("merchant-sable-market"@.len() == 21);
        assert("buyer-aurelian-retail"@.len() == 21);
        assert("buyer-bluegrain-logistics"@.len() == 25);
        assert("buyer-cavern-supply"@.len() == 19);
        assert("processor-delta-rail"@.len() == 20);
        assert("treasury-sable"@.len() == 14);
        assert("auditor-northdesk"@.len() == 17);
        assert("merchant-sable-market"@[0] != "buyer-aurelian-retail"@[0]);
    }
    let merchant = banked_party(
        parties.merchant.duplicate(),
        "Sable Market Labs Ltd.",
        CounterpartyRole::Merchant,
        accounts.cash.duplicate(),
        accounts.receivable.duplicate(),
        accounts.suspense.duplicate(),
        "Northline Bank",
        "NLINUS33",
        "00044122",
    );
    book.insert(merchant)?;
    let alpha = banked_party(
        parties.buyer_alpha.duplicate(),
        "Aurelian Retail Group",
        CounterpartyRole::Buyer,
        accounts.cash.duplicate(),
        accounts.suspense.duplicate(),
        accounts.receivable.duplicate(),
        "Pioneer Bank",
        "PIONUS44",
        "99120001",
    );
    book.insert(alpha)?;
    let beta = banked_party(
        parties.buyer_beta.duplicate(),
        "Bluegrain Logistics LLC",
        CounterpartyRole::Buyer,
        accounts.cash.duplicate(),
        accounts.suspense.duplicate(),
        accounts.receivable.duplicate(),
        "Harbor Trust",
        "HARBUS55",
        "10770021",
    );
    book.insert(beta)?;
    let gamma = banked_party(
        parties.buyer_gamma.duplicate(),
        "Cavern Supply Cooperative",
        CounterpartyRole::Buyer,
        accounts.cash.duplicate(),
        accounts.suspense.duplicate(),
        accounts.receivable.duplicate(),
        "Redstone Credit",
        "REDCUS66",
        "30241077",
    );
    book.insert(gamma)?;
    let processor = Counterparty::new(
        parties.processor.duplicate(),
        String::from_str("Delta Rail Processor"),
        CounterpartyRole::Processor,
        accounts.clearing.duplicate(),
        accounts.suspense.duplicate(),
        accounts.receivable.duplicate(),
    );
    book.insert(processor)?;
    let treasury = Counterparty::new(
        parties.treasury.duplicate(),
        String::from_str("Sable Treasury Desk"),
        CounterpartyRole::Treasury,
        accounts.cash.duplicate(),
        accounts.suspense.duplicate(),
        accounts.receivable.duplicate(),
    );
    book.insert(treasury)?;
    let auditor = Counterparty::new(
        parties.auditor.duplicate(),
        String::from_str("Northdesk Audit Office"),
        CounterpartyRole::Auditor,
        accounts.suspense.duplicate(),
        accounts.suspense.duplicate(),
        accounts.suspense.duplicate(),
    );
    book.insert(auditor)?;
    Ok(())
}

/// A desk with the standard chart and parties, empty books and the standard policies.
pub fn seeded_state() -> (r: SableResult<SableState>)
    ensures
        r is Ok,
        r matches Ok(st) ==> {
            &&& st.wf()
            &&& standard_accounts(st.accounts)
            &&& standard_parties(st.parties)
            &&& seed_parties_held(st.counterparties, st.parties, st.accounts)
            &&& st.invoices@.len() == 0
            &&& st.receipts@.len() == 0
            &&& st.adjustments@.len() == 0
            &&& st.settlement.claim_entries().len() == 0
            &&& st.settlement.obligation_entries_spec().len() == 0
            &&& st.settlement.next_claim_spec() == 1
            &&& st.ledger.entries().len() == 0
            &&& st.ledger.next_tx_spec() == 1
            &&& all_balances_zero(st.ledger)
            &&& forall|k: Seq<char>| #[trigger] balance_of(st.ledger.slots(), k) == 0
            &&& st.ledger.slots().len() == 6
            &&& forall|k: Seq<char>|
                #[trigger] has_key(entry_keys(st.ledger.slots()), k) == standard_key(st.accounts, k)
            &&& forall|k: Seq<char>|
                #[trigger] crate::ledger::state::key_active(st.ledger.slots(), k) == standard_key(
                    st.accounts,
                    k,
                )
            &&& standard_chart(st.ledger.slots(), st.accounts)
            &&& st.adjustment_policy.max_single_bps@ == 250
            &&& st.adjustment_policy.max_period_bps@ == 500
            &&& st.adjustment_policy.require_dual_approval
            &&& st.policies.batch.max_claims == 250
            &&& st.policies.batch.max_batch_amount@ == 500_000_000
            &&& st.policies.batch.review_threshold@ == 25_000_000
            &&& st.policies.close.allowed_receivable_drift_bps@ == 10
            &&& st.policies.close.require_balanced_trial
            &&& st.policies.close.allow_open_dispute_freeze
            &&& st.next_invoice == 1
            &&& st.next_receipt == 1
            &&& st.next_adjustment == 1
            &&& st.next_batch == 1
        },
{
    let accounts = AccountMap::standard();
    let parties = SeedParties::standard();
    let mut ledger = Ledger::new();
    install_chart(&mut ledger, &accounts)?;
    let mut counterparties = CounterpartyBook::new();
    install_parties(&mut counterparties, &parties, &accounts)?;
    proof {
        assert forall|k: Seq<char>| #[trigger] crate::ledger::state::key_active(ledger.slots(), k)
            == standard_key(accounts, k) by {
            if has_key(entry_keys(ledger.slots()), k) {
                let i = key_index(entry_keys(ledger.slots()), k);
                assert(ledger.slots()[i].1.account.enabled);
            }
        }
        assert forall|k: Seq<char>| #[trigger] balance_of(ledger.slots(), k) == 0 by {
            if has_key(entry_keys(ledger.slots()), k) {
                let i = key_index(entry_keys(ledger.slots()), k);
                assert(ledger.slots()[i].1.balance@ == 0);
            }
        }
    }
    Ok(
        SableState {
            accounts,
            parties,
            counterparties,
            invoices: InvoiceBook::new(),
            receipts: ReceiptBook::new(),
            adjustments: AdjustmentBook::new(),
            settlement: SettlementBook::new(),
            ledger,
            adjustment_policy: AdjustmentPolicy::conservative(),
            policies: PolicySet::standard(),
            next_invoice: 1,
            next_receipt: 1,
            next_adjustment: 1,
            next_batch: 1,
        },
    )
}

/// What never changes in an operation of the desk: its chart ids, parties, counterparties
/// and policies.
pub open spec fn same_frame(a: SableState, b: SableState) -> bool {
    &&& b.accounts == a.accounts
    &&& b.parties == a.parties
    &&& b.counterparties == a.counterparties
    &&& b.adjustment_policy == a.adjustment_policy
    &&& b.policies == a.policies
}

/// Whether `inv` is the issued one-line invoice that the desk makes for these inputs.
pub open spec fn standard_invoice_made(
    inv: Invoice,
    id: InvoiceId,
    merchant: PartyId,
    buyer: PartyId,
    external_ref: String,
    issue_day: u32,
    amount: Money,
    bps: Bps,
) -> bool {
    &&& inv.id == id
    &&& inv.merchant == merchant
    &&& inv.buyer == buyer
    &&& inv.external_ref == external_ref
    &&& inv.issue_day == issue_day
    &&& inv.due_day == issue_day + 30
    &&& inv.line_items@.len() == 1
    &&& inv.line_items@[0].quantity == 1
    &&& inv.line_items@[0].unit_price == amount
    &&& inv.line_items@[0].tax_bps == bps
    &&& inv.subtotal == amount
    &&& inv.tax@ == scaled(amount@, bps@ as int, 10000)
    &&& inv.total@ == standard_total(amount, bps)
    &&& inv.receipts_applied@ == 0
    &&& inv.credit_memos_applied@ == 0
    &&& inv.debit_memos_applied@ == 0
    &&& inv.status == InvoiceStatus::Issued
    &&& inv.closed_day is None
}

/// Whether issuing a standard invoice on this desk stays within machine integers.
pub open spec fn issue_safe(st: SableState, issue_day: u32, amount: Money, bps: Bps) -> bool {
    &&& st.next_invoice < u64::MAX - 1000
    &&& standard_price_ok(amount, bps) ==> {
        &&& issue_day <= u32::MAX - 30
        &&& pair_safe(
            st.ledger,
            st.accounts.receivable,
            st.accounts.revenue,
            Money { cents: standard_total(amount, bps) as i64 },
        )
    }
}

/// What issuing a standard invoice did to the invoices and the ledger, and returned.
pub open spec fn issue_outcome(
    old: SableState,
    new: SableState,
    buyer: PartyId,
    external_ref: String,
    issue_day: u32,
    amount: Money,
    bps: Bps,
    r: SableResult<InvoiceId>,
) -> bool {
    let total = Money { cents: standard_total(amount, bps) as i64 };
    let id_text = generated_text(InvoiceId::prefix(), old.next_invoice);
    let known = effects_known(
        old.ledger.slots(),
        pair_effects(old.accounts.receivable, old.accounts.revenue, total),
    );
    &&& new.next_invoice == old.next_invoice + 1
    &&& !standard_price_ok(amount, bps) ==> {
        &&& r == Err::<InvoiceId, SableError>(SableError::ArithmeticOverflow)
        &&& new.invoices@ == old.invoices@
        &&& new.ledger == old.ledger
    }
    &&& standard_price_ok(amount, bps) ==> pair_ledger_effect(
        old.ledger,
        new.ledger,
        old.accounts.receivable,
        old.accounts.revenue,
        total,
    )
    &&& standard_price_ok(amount, bps) && !known ==> {
        &&& r == Err::<InvoiceId, SableError>(
            SableError::AccountNotFound(
                pair_missing(old.ledger, old.accounts.receivable, old.accounts.revenue),
            ),
        )
        &&& new.invoices@ == old.invoices@
    }
    &&& standard_price_ok(amount, bps) && known && has_key(entry_keys(old.invoices@), id_text)
        ==> {
        &&& r matches Err(SableError::DuplicateId(s)) && s@ == id_text
        &&& new.invoices@ == old.invoices@
    }
    &&& standard_price_ok(amount, bps) && known && !has_key(entry_keys(old.invoices@), id_text)
        ==> {
        &&& r matches Ok(id) && id@ == id_text
        &&& exists|p: int, inv: Invoice|
            0 <= p <= old.invoices@.len() && new.invoices@ == old.invoices@.insert(
                p,
                (r->Ok_0, inv),
            ) && standard_invoice_made(
                inv,
                r->Ok_0,
                old.parties.merchant,
                buyer,
                external_ref,
                issue_day,
                amount,
                bps,
            )
    }
}

/// A one-line invoice: its net, tax and totals.
proof fn lemma_one_line(line: LineItem)
    ensures
        line_nets(seq![line]) == seq![line.net_spec()],
        line_taxes(seq![line]) == seq![line.tax_spec()],
        seq_sum(seq![line.net_spec()]) == line.net_spec(),
        seq_sum(seq![line.tax_spec()]) == line.tax_spec(),
        fits_i64(line.net_spec()) ==> running_sums_fit(seq![line.net_spec()]),
        fits_i64(line.tax_spec()) ==> running_sums_fit(seq![line.tax_spec()]),
{
    assert(line_nets(seq![line]) =~= seq![line.net_spec()]);
    assert(line_taxes(seq![line]) =~= seq![line.tax_spec()]);
    reveal_with_fuel(sum_first, 2);
}

impl SableState {
    /// Issues a one-line invoice of `amount`, taxed at `tax_bps`, from the merchant to
    /// `buyer`, posts it to the ledger and files it; returns its id.
    #[verifier::spinoff_prover]
    #[verifier::rlimit(40)]
    pub fn issue_standard_invoice(
        &mut self,
        buyer: PartyId,
        external_ref: String,
        issue_day: u32,
        amount: Money,
        tax_bps: Bps,
    ) -> (r: SableResult<InvoiceId>)
        requires
            old(self).wf(),
            issue_safe(*old(self), issue_day, amount, tax_bps),
        ensures
            final(self).wf(),
            same_frame(*old(self), *final(self)),
            final(self).receipts == old(self).receipts,
            final(self).adjustments == old(self).adjustments,
            final(self).settlement == old(self).settlement,
            final(self).next_receipt == old(self).next_receipt,
            final(self).next_adjustment == old(self).next_adjustment,
            final(self).next_batch == old(self).next_batch,
            issue_outcome(
                *old(self),
                *final(self),
                buyer,
                external_ref,
                issue_day,
                amount,
                tax_bps,
                r,
            ),
    {
        let id = InvoiceId::generated(self.next_invoice);
        self.next_invoice = self.next_invoice + 1;
        let mut sku = String::from_str("SBL-");
        push_decimal(&mut sku, (self.next_invoice + 1000) as u128);
        let line = LineItem::new(
            sku,
            String::from_str("DTL clearing service bundle"),
            1,
            amount,
            tax_bps,
        );
        let ghost line_v = line;
        let mut lines: Vec<LineItem> = Vec::new();
        lines.push(line);
        proof {
            assert(lines@ =~= seq![line_v]);
            lemma_one_line(line_v);
            assert(line_v.quantity == 1 && line_v.unit_price == amount);
            assert(line_v.unit_price@ * line_v.quantity == amount@) by (nonlinear_arith)
                requires
                    line_v.quantity == 1,
                    line_v.unit_price@ == amount@,
            ;
        }
        let mut invoice = Invoice::new(
            id.duplicate(),
            self.parties.merchant.duplicate(),
            buyer,
            external_ref,
            issue_day,
            PaymentTerms::net_30(),
            lines,
        )?;
        invoice.issue()?;
        self.ledger.post_invoice(
            issue_day,
            id.duplicate(),
            self.accounts.receivable.duplicate(),
            self.accounts.revenue.duplicate(),
            invoice.total,
            String::from_str("merchant invoice"),
        )?;
        let ghost inv_v = invoice;
        self.invoices.insert(invoice)?;
        proof {
            let p = choose|p: int|
                0 <= p <= old(self).invoices@.len() && self.invoices@ == old(
                    self,
                ).invoices@.insert(p, (inv_v.id, inv_v));
            assert(inv_v.id == id);
            assert(self.invoices@ == old(self).invoices@.insert(p, (id, inv_v)));
        }
        Ok(id)
    }

    /// Whether issuing such an invoice on this desk stays within machine integers.
    pub fn issue_fits(&self, issue_day: u32, amount: Money, tax_bps: Bps) -> (r: bool)
        requires
            self.wf(),
        ensures
            r == issue_safe(*self, issue_day, amount, tax_bps),
    {
        if self.next_invoice >= u64::MAX - 1000 {
            return false;
        }
        let tax = match amount.apply_bps(tax_bps) {
            Ok(t) => t,
            Err(_) => return true,
        };
        let total = match amount.checked_add(tax) {
            Ok(t) => t,
            Err(_) => return true,
        };
        issue_day <= u32::MAX - 30 && self.ledger.pair_fits(
            &self.accounts.receivable,
            &self.accounts.revenue,
            total,
        )
    }
}

/// Whether every invoice that leaves an obligation has a gross within `i64`.
pub open spec fn obligations_computable(invs: Seq<Invoice>) -> bool {
    forall|i: int|
        0 <= i < invs.len() && obligation_computes(#[trigger] invs[i]) ==> fits_i64(invs[i].gross())
}

/// Whether the obligations of these invoices can be computed.
pub fn obligations_fit(invoices: &InvoiceBook) -> (r: bool)
    ensures
        r == obligations_computable(invoices.all()),
{
    let values = invoices.values();
    let ghost invs = invoices.all();
    let mut i: usize = 0;
    while i < values.len()
        invariant
            derefs(values@) == invs,
            invs == invoices.all(),
            i <= invs.len(),
            forall|j: int|
                0 <= j < i && obligation_computes(#[trigger] invs[j]) ==> fits_i64(invs[j].gross()),
        decreases invs.len() - i,
    {
        let inv = values[i];
        assert(*inv == invs[i as int]);
        if !(inv.status == InvoiceStatus::Draft || inv.status == InvoiceStatus::Voided) {
            if !inv.gross_fits_exec() {
                return false;
            }
        }
        i = i + 1;
    }
    true
}

/// Whether every invoice looked at for closing on `day` has balances within `i64`.
pub open spec fn close_checks_computable(invs: Seq<Invoice>, day: u32) -> bool {
    forall|i: int|
        0 <= i < invs.len() && crate::invoice::book::close_check_computes(#[trigger] invs[i], day)
            ==> invs[i].amounts_fit()
}

/// Whether the invoices to close on `day` can be found.
pub fn close_checks_fit(invoices: &InvoiceBook, day: u32) -> (r: bool)
    ensures
        r == close_checks_computable(invoices.all(), day),
{
    let values = invoices.values();
    let ghost invs = invoices.all();
    let mut i: usize = 0;
    while i < values.len()
        invariant
            derefs(values@) == invs,
            invs == invoices.all(),
            i <= invs.len(),
            forall|j: int|
                0 <= j < i && crate::invoice::book::close_check_computes(#[trigger] invs[j], day)
                    ==> invs[j].amounts_fit(),
        decreases invs.len() - i,
    {
        let inv = values[i];
        assert(*inv == invs[i as int]);
        if inv.issue_day <= day && (inv.status == InvoiceStatus::Paid || inv.status
            == InvoiceStatus::PartiallyCollected) {
            if !inv.amounts_fit_exec() {
                return false;
            }
        }
        i = i + 1;
    }
    true
}

/// Whether `rc` is the posted receipt the desk records for these inputs.
pub open spec fn receipt_made(
    rc: SettlementReceipt,
    id: ReceiptId,
    invoice_id: InvoiceId,
    inv: Invoice,
    channel: PaymentChannel,
    bank_ref: String,
    amount: Money,
    day: u32,
    tx: Seq<char>,
) -> bool {
    &&& rc.id == id
    &&& rc.invoice_id == invoice_id
    &&& rc.payer == inv.buyer
    &&& rc.payee == inv.merchant
    &&& rc.channel == channel
    &&& rc.bank_ref == bank_ref
    &&& rc.amount == amount
    &&& rc.received_day == day
    &&& rc.status == crate::receipts::model::ReceiptStatus::Posted
    &&& rc.journal_tx matches Some(t) && t@ == tx
}

/// Whether recording a receipt of `amount` against `inv` stays within machine integers.
pub open spec fn receipt_safe(st: SableState, inv: Invoice, amount: Money) -> bool {
    &&& st.next_receipt < u64::MAX
    &&& pair_safe(st.ledger, st.accounts.cash, st.accounts.receivable, amount)
    &&& receipt_entry_safe(inv, amount)
}

/// What recording a receipt against `inv` did to the desk and returned. The receipt is
/// checked first (a positive amount, an invoice that takes entries, a collected total
/// within `i64`, a receipt id still free); a refused receipt leaves the desk as it was.
/// Then the cash entry is posted, applied to the invoice, and the receipt is filed with
/// the entry's transaction; when the chart lacks one of the two accounts nothing is
/// posted, applied or filed.
pub open spec fn receipt_recorded(
    old: SableState,
    new: SableState,
    inv: Invoice,
    invoice_id: InvoiceId,
    day: u32,
    amount: Money,
    channel: PaymentChannel,
    bank_ref: String,
    r: SableResult<ReceiptId>,
) -> bool {
    let known = effects_known(
        old.ledger.slots(),
        pair_effects(old.accounts.cash, old.accounts.receivable, amount),
    );
    let applied = entry_accepted(inv, amount) && fits_i64(inv.receipts_applied@ + amount@);
    let id_text = generated_text(ReceiptId::prefix(), old.next_receipt);
    let fresh = !has_key(entry_keys(old.receipts@), id_text);
    let tx_text = generated_text(TxId::prefix(), old.ledger.next_tx_spec());
    &&& !applied ==> {
        &&& receipt_outcome(
            inv,
            amount,
            match r {
                Ok(_) => Ok(()),
                Err(e) => Err(e),
            },
        )
        &&& r is Err
        &&& new == old
    }
    &&& applied && !fresh ==> {
        &&& r matches Err(SableError::DuplicateId(s)) && s@ == id_text
        &&& new == old
    }
    &&& applied && fresh ==> {
        &&& new.next_receipt == old.next_receipt + 1
        &&& pair_ledger_effect(old.ledger, new.ledger, old.accounts.cash, old.accounts.receivable, amount)
    }
    &&& applied && fresh && !known ==> {
        &&& r == Err::<ReceiptId, SableError>(
            SableError::AccountNotFound(
                pair_missing(old.ledger, old.accounts.cash, old.accounts.receivable),
            ),
        )
        &&& new.invoices == old.invoices
        &&& new.receipts == old.receipts
    }
    &&& applied && fresh && known ==> {
        &&& r matches Ok(id) && id@ == id_text
        &&& new.ledger.entries().last().day == day
        &&& new.ledger.entries().last().invoice_id == Some(invoice_id)
        &&& new.ledger.entries().last().receipt_id == Some(r->Ok_0)
        &&& new.ledger.entries().last().source@ == "receipt"@
        &&& new.invoices@ == old.invoices@.update(
            old.invoices.index_of(invoice_id@),
            (old.invoices@[old.invoices.index_of(invoice_id@)].0, receipt_applied(inv, amount)),
        )
        &&& exists|p: int, rc: SettlementReceipt|
            0 <= p <= old.receipts@.len() && new.receipts@ == old.receipts@.insert(
                p,
                (r->Ok_0, rc),
            ) && receipt_made(rc, r->Ok_0, invoice_id, inv, channel, bank_ref, amount, day, tx_text)
    }
}

/// Whether `adj` is the approved adjustment the desk records for these inputs.
pub open spec fn adjustment_made(
    adj: ManualAdjustment,
    st: SableState,
    invoice_id: InvoiceId,
    day: u32,
    amount: Money,
    reason: AdjustmentReason,
    side: AdjustmentSide,
) -> bool {
    &&& adj.id@ == generated_text(AdjustmentId::prefix(), st.next_adjustment)
    &&& adj.invoice_id == invoice_id
    &&& adj.side == side
    &&& adj.reason == reason
    &&& adj.amount == amount
    &&& adj.created_by == st.parties.processor
    &&& adj.approved_by == Some(st.parties.treasury)
    &&& adj.day == day
    &&& adj.memo@ == "periodic reconciliation memo"@
    &&& adj.journal_tx is None
}

impl SableState {
    /// Records a receipt of `amount` against an invoice: checks it, posts cash against the
    /// receivable, applies it to the invoice and files it; returns its id. A receipt that
    /// the invoice cannot take is refused before anything is posted.
    #[verifier::spinoff_prover]
    #[verifier::rlimit(60)]
    pub fn record_receipt(
        &mut self,
        invoice_id: &InvoiceId,
        day: u32,
        amount: Money,
        channel: PaymentChannel,
        bank_ref: String,
    ) -> (r: SableResult<ReceiptId>)
        requires
            old(self).wf(),
            old(self).invoices.find_spec(invoice_id@) matches Some(inv) ==> receipt_safe(
                *old(self),
                inv,
                amount,
            ),
        ensures
            final(self).wf(),
            same_frame(*old(self), *final(self)),
            final(self).adjustments == old(self).adjustments,
            final(self).settlement == old(self).settlement,
            final(self).next_invoice == old(self).next_invoice,
            final(self).next_adjustment == old(self).next_adjustment,
            final(self).next_batch == old(self).next_batch,
            match old(self).invoices.find_spec(invoice_id@) {
                None => r == Err::<ReceiptId, SableError>(SableError::InvoiceNotFound(*invoice_id))
                    && final(self).invoices == old(self).invoices && final(self).ledger == old(
                    self,
                ).ledger && final(self).receipts == old(self).receipts && final(self).next_receipt
                    == old(self).next_receipt,
                Some(inv) => receipt_recorded(
                    *old(self),
                    *final(self),
                    inv,
                    *invoice_id,
                    day,
                    amount,
                    channel,
                    bank_ref,
                    r,
                ),
            },
    {
        let ghost bank_v = bank_ref;
        let ghost tx_text = generated_text(TxId::prefix(), self.ledger.next_tx_spec());
        let (buyer, merchant) = match self.invoices.get(invoice_id) {
            Ok(inv) => {
                if amount.cents() <= 0 {
                    return Err(
                        SableError::InvalidTransition(
                            String::from_str("receipt amount must be positive"),
                        ),
                    );
                }
                if matches!(inv.status, InvoiceStatus::Voided | InvoiceStatus::Closed) {
                    return Err(
                        SableError::InvalidTransition(
                            join3("invoice ", inv.id.as_str(), " does not accept receipts"),
                        ),
                    );
                }
                if inv.receipts_applied.checked_add(amount).is_err() {
                    return Err(SableError::ArithmeticOverflow);
                }
                (inv.buyer.duplicate(), inv.merchant.duplicate())
            },
            Err(e) => return Err(e),
        };
        let id = ReceiptId::generated(self.next_receipt);
        if self.receipts.get(&id).is_ok() {
            return Err(SableError::DuplicateId(id.to_text()));
        }
        self.next_receipt = self.next_receipt + 1;
        let mut receipt = SettlementReceipt::new(
            id.duplicate(),
            invoice_id.duplicate(),
            buyer,
            merchant,
            channel,
            bank_ref,
            amount,
            day,
        );
        receipt.mark_matched();
        let tx_id = self.ledger.post_receipt(
            day,
            invoice_id.duplicate(),
            id.duplicate(),
            self.accounts.cash.duplicate(),
            self.accounts.receivable.duplicate(),
            amount,
        )?;
        match self.invoices.apply_receipt(invoice_id, amount) {
            Ok(()) => {},
            Err(e) => return Err(e),
        }
        receipt.mark_posted(tx_id);
        let ghost rc = receipt;
        self.receipts.insert(receipt)?;
        proof {
            let p = choose|p: int|
                0 <= p <= old(self).receipts@.len() && self.receipts@ == old(
                    self,
                ).receipts@.insert(p, (rc.id, rc));
            assert(rc.id == id);
            assert(self.receipts@ == old(self).receipts@.insert(p, (id, rc)));
            let inv = old(self).invoices.find_spec(invoice_id@)->Some_0;
            assert(receipt_made(rc, id, *invoice_id, inv, channel, bank_v, amount, day, tx_text));
            assert(exists|q: int, x: SettlementReceipt|
                0 <= q <= old(self).receipts@.len() && self.receipts@ == old(
                    self,
                ).receipts@.insert(q, (id, x)) && receipt_made(
                    x,
                    id,
                    *invoice_id,
                    inv,
                    channel,
                    bank_v,
                    amount,
                    day,
                    tx_text,
                ));
            let o = *old(self);
            assert(entry_accepted(inv, amount) && fits_i64(inv.receipts_applied@ + amount@));
            assert(!has_key(entry_keys(o.receipts@), generated_text(ReceiptId::prefix(), o.next_receipt)));
            assert(self.next_receipt == o.next_receipt + 1);
            assert(pair_ledger_effect(o.ledger, self.ledger, o.accounts.cash, o.accounts.receivable, amount));
            assert(self.ledger.entries().last().receipt_id == Some(id));
            assert(self.invoices@ == o.invoices@.update(
                o.invoices.index_of(invoice_id@),
                (o.invoices@[o.invoices.index_of(invoice_id@)].0, receipt_applied(inv, amount)),
            ));
            assert(self.ledger.entries().last().day == day);
            assert(self.ledger.entries().last().invoice_id == Some(*invoice_id));
            assert(self.ledger.entries().last().source@ == "receipt"@);
            assert(effects_known(o.ledger.slots(), pair_effects(o.accounts.cash, o.accounts.receivable, amount)));
            let r0 = Ok::<ReceiptId, SableError>(id);
            assert(r0->Ok_0 == id);
            assert(r0 matches Ok(i) && i@ == generated_text(ReceiptId::prefix(), o.next_receipt));
            assert(tx_text == generated_text(TxId::prefix(), o.ledger.next_tx_spec()));
            assert(exists|q: int, x: SettlementReceipt|
                0 <= q <= o.receipts@.len() && self.receipts@ == o.receipts@.insert(q, (r0->Ok_0, x))
                    && receipt_made(x, r0->Ok_0, *invoice_id, inv, channel, bank_v, amount, day, tx_text));
            assert(receipt_recorded(o, *self, inv, *invoice_id, day, amount, channel, bank_v, r0));
        }
        Ok(id)
    }

    /// Whether recording a receipt of `amount` against the invoice filed under
    /// `invoice_id` stays within machine integers.
    pub fn receipt_fits(&self, invoice_id: &InvoiceId, amount: Money) -> (r: bool)
        requires
            self.wf(),
        ensures
            r == (self.invoices.find_spec(invoice_id@) matches Some(inv) ==> receipt_safe(
                *self,
                inv,
                amount,
            )),
    {
        match self.invoices.get(invoice_id) {
            Ok(inv) => self.next_receipt < u64::MAX && inv.receipt_fits(amount)
                && self.ledger.pair_fits(&self.accounts.cash, &self.accounts.receivable, amount),
            Err(_) => true,
        }
    }

    /// Records an approved credit memo against an invoice.
    pub fn record_credit_memo(
        &mut self,
        invoice_id: &InvoiceId,
        day: u32,
        amount: Money,
        reason: AdjustmentReason,
    ) -> (r: SableResult<AdjustmentId>)
        requires
            old(self).wf(),
            adjustment_safe_on(*old(self), *invoice_id, AdjustmentSide::CreditMemo, amount),
        ensures
            adjustment_recorded(
                *old(self),
                *final(self),
                *invoice_id,
                day,
                amount,
                reason,
                AdjustmentSide::CreditMemo,
                r,
            ),
    {
        self.record_adjustment(invoice_id, day, amount, reason, AdjustmentSide::CreditMemo)
    }

    /// Records an approved debit memo against an invoice.
    pub fn record_debit_memo(
        &mut self,
        invoice_id: &InvoiceId,
        day: u32,
        amount: Money,
        reason: AdjustmentReason,
    ) -> (r: SableResult<AdjustmentId>)
        requires
            old(self).wf(),
            adjustment_safe_on(*old(self), *invoice_id, AdjustmentSide::DebitMemo, amount),
        ensures
            adjustment_recorded(
                *old(self),
                *final(self),
                *invoice_id,
                day,
                amount,
                reason,
                AdjustmentSide::DebitMemo,
                r,
            ),
    {
        self.record_adjustment(invoice_id, day, amount, reason, AdjustmentSide::DebitMemo)
    }

    /// Records a memo raised by the processor and approved by treasury: it is checked
    /// against the adjustment policy, applied to the invoice, posted and filed.
    pub fn record_adjustment(
        &mut self,
        invoice_id: &InvoiceId,
        day: u32,
        amount: Money,
        reason: AdjustmentReason,
        side: AdjustmentSide,
    ) -> (r: SableResult<AdjustmentId>)
        requires
            old(self).wf(),
            adjustment_safe_on(*old(self), *invoice_id, side, amount),
        ensures
            adjustment_recorded(*old(self), *final(self), *invoice_id, day, amount, reason, side, r),
    {
        let ghost old_self = *self;
        let id = AdjustmentId::generated(self.next_adjustment);
        self.next_adjustment = self.next_adjustment + 1;
        let base = match side {
            AdjustmentSide::CreditMemo => ManualAdjustment::credit(
                id.duplicate(),
                invoice_id.duplicate(),
                reason,
                amount,
                self.parties.processor.duplicate(),
                day,
            ),
            AdjustmentSide::DebitMemo => ManualAdjustment::debit(
                id.duplicate(),
                invoice_id.duplicate(),
                reason,
                amount,
                self.parties.processor.duplicate(),
                day,
            ),
        };
        let adjustment = base.approve(self.parties.treasury.duplicate()).with_memo(
            String::from_str("periodic reconciliation memo"),
        );
        assert(adjustment_made(adjustment, old_self, *invoice_id, day, amount, reason, side));
        self.adjustments.apply(
            adjustment,
            &self.adjustment_policy,
            &mut self.invoices,
            &mut self.ledger,
            self.accounts.receivable.duplicate(),
            self.accounts.revenue.duplicate(),
            self.accounts.allowance.duplicate(),
        )?;
        Ok(id)
    }

    /// Whether recording a memo of this side and amount against the invoice filed under
    /// `invoice_id` stays within machine integers.
    pub fn adjustment_fits(&self, invoice_id: &InvoiceId, side: AdjustmentSide, amount: Money) -> (r:
        bool)
        requires
            self.wf(),
        ensures
            r == adjustment_safe_on(*self, *invoice_id, side, amount),
    {
        if self.next_adjustment == u64::MAX {
            return false;
        }
        match self.invoices.get(invoice_id) {
            Ok(inv) => memo_posting_fits(
                inv,
                side,
                amount,
                &self.ledger,
                &self.accounts.receivable,
                &self.accounts.revenue,
                &self.accounts.allowance,
            ),
            Err(_) => true,
        }
    }

    /// Rebuilds the settlement obligations from the invoices.
    pub fn refresh_settlement(&mut self)
        requires
            old(self).wf(),
            obligations_computable(old(self).invoices.all()),
        ensures
            final(self).wf(),
            same_frame(*old(self), *final(self)),
            final(self).invoices == old(self).invoices,
            final(self).receipts == old(self).receipts,
            final(self).adjustments == old(self).adjustments,
            final(self).ledger == old(self).ledger,
            final(self).next_invoice == old(self).next_invoice,
            final(self).next_receipt == old(self).next_receipt,
            final(self).next_adjustment == old(self).next_adjustment,
            final(self).next_batch == old(self).next_batch,
            final(self).settlement.obligation_entries_spec() == obligation_entries(
                old(self).invoices.all(),
            ),
            final(self).settlement.claim_entries() == old(self).settlement.claim_entries(),
            final(self).settlement.next_claim_spec() == old(self).settlement.next_claim_spec(),
    {
        self.settlement.refresh(&self.invoices);
    }
}

/// What recording an adjustment did to the desk and returned.
pub open spec fn adjustment_recorded(
    old: SableState,
    new: SableState,
    invoice_id: InvoiceId,
    day: u32,
    amount: Money,
    reason: AdjustmentReason,
    side: AdjustmentSide,
    r: SableResult<AdjustmentId>,
) -> bool {
    &&& new.wf()
    &&& same_frame(old, new)
    &&& new.receipts == old.receipts
    &&& new.settlement == old.settlement
    &&& new.next_invoice == old.next_invoice
    &&& new.next_receipt == old.next_receipt
    &&& new.next_batch == old.next_batch
    &&& new.next_adjustment == old.next_adjustment + 1
    &&& r matches Ok(id) ==> id@ == generated_text(AdjustmentId::prefix(), old.next_adjustment)
    &&& match old.invoices.find_spec(invoice_id@) {
        None => {
            &&& r == Err::<AdjustmentId, SableError>(SableError::InvoiceNotFound(invoice_id))
            &&& new.invoices@ == old.invoices@
            &&& new.adjustments@ == old.adjustments@
            &&& new.ledger == old.ledger
        },
        Some(inv) => exists|adj: ManualAdjustment|
            adjustment_made(adj, old, invoice_id, day, amount, reason, side) && adjustment_flow(
                old.adjustments@,
                new.adjustments@,
                old.invoices@,
                new.invoices@,
                old.ledger,
                new.ledger,
                old.invoices.index_of(invoice_id@),
                inv,
                old.adjustment_policy,
                adj,
                old.accounts.receivable,
                old.accounts.revenue,
                old.accounts.allowance,
                match r {
                    Ok(_) => Ok(()),
                    Err(e) => Err(e),
                },
            ),
    }
}

/// Whether recording a memo of this side and amount against the invoice filed under
/// `invoice_id` stays within machine integers.
pub open spec fn adjustment_safe_on(
    st: SableState,
    invoice_id: InvoiceId,
    side: AdjustmentSide,
    amount: Money,
) -> bool {
    &&& st.next_adjustment < u64::MAX
    &&& st.invoices.find_spec(invoice_id@) matches Some(inv) ==> memo_posting_safe(
        inv,
        side,
        amount,
        st.ledger,
        st.accounts.receivable,
        st.accounts.revenue,
        st.accounts.allowance,
    )
}

/// The claims the desk prepares on `day` once the obligations are rebuilt from `invs`.
pub open spec fn settlement_picks(
    invs: Seq<Invoice>,
    claims: Seq<crate::settlement::model::SettlementClaim>,
    day: u32,
) -> Seq<crate::settlement::model::SettlementObligation> {
    claim_picks(by_priority(due_obligations(entry_values(obligation_entries(invs)), day), day), claims)
}

/// The ledger effects of posting claims for these obligations, in order: clearing debited
/// and receivable credited by each presentable amount.
pub open spec fn pick_effects(
    picks: Seq<crate::settlement::model::SettlementObligation>,
    receivable: AccountId,
    clearing: AccountId,
) -> Seq<(Seq<char>, int)>
    decreases picks.len(),
{
    if picks.len() == 0 {
        Seq::empty()
    } else {
        pick_effects(picks.drop_last(), receivable, clearing) + pair_effects(
            clearing,
            receivable,
            picks.last().presentable_amount,
        )
    }
}

proof fn lemma_pick_effects_step(
    picks: Seq<crate::settlement::model::SettlementObligation>,
    i: int,
    receivable: AccountId,
    clearing: AccountId,
)
    requires
        0 <= i < picks.len(),
    ensures
        pick_effects(picks.take(i + 1), receivable, clearing) == pick_effects(
            picks.take(i),
            receivable,
            clearing,
        ) + pair_effects(clearing, receivable, picks[i].presentable_amount),
{
    assert(picks.take(i + 1).drop_last() =~= picks.take(i));
    assert(picks.take(i + 1).last() == picks[i]);
}

proof fn lemma_pick_effects_safe_prefix(
    s: Seq<(AccountId, crate::ledger::state::AccountSlot)>,
    picks: Seq<crate::settlement::model::SettlementObligation>,
    j: int,
    receivable: AccountId,
    clearing: AccountId,
)
    requires
        0 <= j <= picks.len(),
        effects_safe(s, pick_effects(picks, receivable, clearing)),
    ensures
        effects_safe(s, pick_effects(picks.take(j), receivable, clearing)),
    decreases picks.len() - j,
{
    if j == picks.len() {
        assert(picks.take(j) =~= picks);
    } else {
        lemma_pick_effects_safe_prefix(s, picks, j + 1, receivable, clearing);
        lemma_pick_effects_step(picks, j, receivable, clearing);
        lemma_effects_safe_concat(
            s,
            pick_effects(picks.take(j), receivable, clearing),
            pair_effects(clearing, receivable, picks[j].presentable_amount),
        );
    }
}

/// Posting claims for a few small obligations on a chart of small balances is safe, and
/// leaves every balance within the old bound and the amounts posted.
pub proof fn lemma_pick_effects_small(
    s: Seq<(AccountId, crate::ledger::state::AccountSlot)>,
    picks: Seq<crate::settlement::model::SettlementObligation>,
    receivable: AccountId,
    clearing: AccountId,
    b: int,
    big: int,
)
    requires
        sorted_keys(entry_keys(s)),
        receivable@ != clearing@,
        crate::ledger::state::key_active(s, receivable@),
        crate::ledger::state::key_active(s, clearing@),
        0 <= b <= 1_000_000_000_000_000,
        0 <= big <= 1_000_000_000_000_000,
        picks.len() <= 50,
        forall|i: int| 0 <= i < picks.len() ==> 0 <= (#[trigger] picks[i]).presentable_amount@ <= big,
        forall|k: Seq<char>| -b <= #[trigger] balance_of(s, k) <= b,
    ensures
        effects_safe(s, pick_effects(picks, receivable, clearing)),
        forall|k: Seq<char>|
            -(b + picks.len() * big) <= #[trigger] balance_of(
                apply_effects(s, pick_effects(picks, receivable, clearing)),
                k,
            ) <= b + picks.len() * big,
    decreases picks.len(),
{
    if picks.len() == 0 {
        assert(pick_effects(picks, receivable, clearing) =~= Seq::<(Seq<char>, int)>::empty());
        assert(apply_effects(s, pick_effects(picks, receivable, clearing)) == s);
    } else {
        let prev = picks.drop_last();
        assert forall|i: int| 0 <= i < prev.len() implies 0 <= (#[trigger] prev[i]).presentable_amount@ <= big by {
            assert(prev[i] == picks[i]);
        }
        lemma_pick_effects_small(s, prev, receivable, clearing, b, big);
        let n1: int = prev.len() as int;
        let b1 = b + n1 * big;
        assert(n1 * big <= 50 * big) by (nonlinear_arith)
            requires
                n1 <= 50,
                big >= 0,
        ;
        assert(b1 + n1 * 0 == b1);
        assert(n1 * big + big == picks.len() * big) by (nonlinear_arith)
            requires
                n1 + 1 == picks.len(),
        ;
        let ep = pick_effects(prev, receivable, clearing);
        let t = apply_effects(s, ep);
        crate::ledger::state::lemma_apply_effects_keys(s, ep);
        let amt = picks.last().presentable_amount;
        assert(0 <= amt@ <= big) by {
            assert(picks.last() == picks[picks.len() - 1]);
        }
        crate::ledger::state::lemma_pair_small_slots(t, clearing, receivable, amt, b1);
        let pair = pair_effects(clearing, receivable, amt);
        lemma_effects_safe_concat(s, ep, pair);
        crate::ledger::state::lemma_apply_effects_concat(s, ep, pair);
    }
}

/// Whether posting the claims the desk prepares on `day` keeps the transaction counter
/// and, when both posting accounts are in the chart, every balance within range.
pub open spec fn settlement_posts_safely(st: SableState, day: u32) -> bool {
    let picks = settlement_picks(st.invoices.all(), st.settlement.all_claims(), day);
    &&& st.ledger.next_tx_spec() + picks.len() <= u64::MAX
    &&& posting_accounts_known(st.ledger, st.accounts.receivable, st.accounts.clearing)
        ==> effects_safe(
        st.ledger.slots(),
        pick_effects(picks, st.accounts.receivable, st.accounts.clearing),
    )
}

/// What preparing and posting the due claims of `day` did to the desk and returned.
pub open spec fn settlement_run(old: SableState, new: SableState, day: u32, r: SableResult<Vec<String>>) -> bool {
    let picks = settlement_picks(old.invoices.all(), old.settlement.all_claims(), day);
    let n = picks.len();
    let rec = old.accounts.receivable;
    let clr = old.accounts.clearing;
    let known = posting_accounts_known(old.ledger, rec, clr);
    let next0 = old.settlement.next_claim_spec();
    &&& known || n == 0 ==> r is Ok
    &&& !known && n > 0 ==> r == Err::<Vec<String>, SableError>(
        SableError::AccountNotFound(pair_missing(old.ledger, clr, rec)),
    )
    &&& r matches Ok(v) ==> {
        &&& new.next_batch == old.next_batch + 1
        &&& v@.len() == n
        &&& forall|k: int|
            0 <= k < v@.len() ==> (#[trigger] v@[k])@ == generated_text(
                SettlementId::prefix(),
                (next0 + k) as u64,
            )
        &&& new.settlement.obligation_entries_spec() == obligation_entries(old.invoices.all())
        &&& new.settlement.next_claim_spec() == next0 + n
        &&& new.settlement.claim_entries().len() == old.settlement.claim_entries().len() + n
        &&& new.ledger.slots() == apply_effects(old.ledger.slots(), pick_effects(picks, rec, clr))
        &&& new.ledger.next_tx_spec() == old.ledger.next_tx_spec() + n
        &&& new.ledger.entries().len() == old.ledger.entries().len() + n
        &&& forall|k: int|
            0 <= k < n ==> (lookup(
                new.settlement.claim_entries(),
                #[trigger] generated_text(SettlementId::prefix(), (next0 + k) as u64),
            ) matches Some(c) && claim_posted_for(c, picks[k], day, c.batch_id) && c.batch_id@
                == generated_text(BatchId::prefix(), old.next_batch) && c.id@ == generated_text(
                SettlementId::prefix(),
                (next0 + k) as u64,
            ))
        &&& forall|key: Seq<char>|
            (forall|k: int|
                0 <= k < n ==> key != #[trigger] generated_text(SettlementId::prefix(), (next0 + k) as u64))
                ==> lookup(new.settlement.claim_entries(), key) == lookup(
                old.settlement.claim_entries(),
                key,
            )
    }
}

/// An invoice as a closing pass on `day` leaves it: closed when it is eligible.
pub open spec fn close_pass(inv: Invoice, day: u32) -> Invoice {
    if closable(inv, day) {
        closed_on(inv, day)
    } else {
        inv
    }
}

/// Whether `key` is the key of one of the first `j` ids.
pub open spec fn listed_before(ids: Seq<InvoiceId>, j: int, key: Seq<char>) -> bool {
    exists|k: int| 0 <= k < j && ids[k]@ == key
}

impl SableState {
    /// Rebuilds the obligations, prepares a claim for every due obligation in a new batch
    /// and posts them; returns the ids of the claims.
    pub fn prepare_and_post_settlement(&mut self, day: u32) -> (r: SableResult<Vec<String>>)
        requires
            old(self).wf(),
            obligations_computable(old(self).invoices.all()),
            old(self).next_batch < u64::MAX,
            old(self).settlement.next_claim_spec() + settlement_picks(
                old(self).invoices.all(),
                old(self).settlement.all_claims(),
                day,
            ).len() <= u64::MAX,
            settlement_posts_safely(*old(self), day),
        ensures
            final(self).wf(),
            same_frame(*old(self), *final(self)),
            final(self).invoices == old(self).invoices,
            final(self).receipts == old(self).receipts,
            final(self).adjustments == old(self).adjustments,
            final(self).next_invoice == old(self).next_invoice,
            final(self).next_receipt == old(self).next_receipt,
            final(self).next_adjustment == old(self).next_adjustment,
            settlement_run(*old(self), *final(self), day, r),
    {
        let ghost picks = settlement_picks(old(self).invoices.all(), old(self).settlement.all_claims(), day);
        let ghost rec = old(self).accounts.receivable;
        let ghost clr = old(self).accounts.clearing;
        let ghost known = posting_accounts_known(old(self).ledger, rec, clr);
        let ghost l0 = old(self).ledger;
        let ghost next0 = old(self).settlement.next_claim_spec();
        self.refresh_settlement();
        let batch_id = self.next_batch_id();
        let ghost batch = batch_id;
        let ghost mid = self.settlement;
        let claim_ids = self.settlement.prepare_due_claims(day, batch_id)?;
        let ghost prepared = self.settlement;
        let n = claim_ids.len();
        proof {
            assert(n == picks.len());
            assert forall|a: int, b: int| 0 <= a < n && 0 <= b < n && a != b implies (
            #[trigger] claim_ids@[a])@ != (#[trigger] claim_ids@[b])@ by {
                if claim_ids@[a]@ == claim_ids@[b]@ {
                    lemma_generated_injective(SettlementId::prefix(), (next0 + a) as u64, (next0 + b) as u64);
                }
            }
            assert(picks.take(0) =~= Seq::<crate::settlement::model::SettlementObligation>::empty());
        }
        let mut i: usize = 0;
        while i < n
            invariant
                n == claim_ids@.len(),
                n == picks.len(),
                i <= n,
                self.wf(),
                same_frame(*old(self), *self),
                self.invoices == old(self).invoices,
                self.receipts == old(self).receipts,
                self.adjustments == old(self).adjustments,
                self.next_invoice == old(self).next_invoice,
                self.next_receipt == old(self).next_receipt,
                self.next_adjustment == old(self).next_adjustment,
                self.next_batch == old(self).next_batch + 1,
                self.accounts.receivable == rec,
                self.accounts.clearing == clr,
                prepared_claims(mid, prepared, day, batch, Ok::<Vec<SettlementId>, SableError>(claim_ids)),
                picks == claim_picks(by_priority(due_obligations(mid.all_obligations(), day), day), mid.all_claims()),
                mid.claim_entries() == old(self).settlement.claim_entries(),
                mid.next_claim_spec() == next0,
                mid.obligation_entries_spec() == obligation_entries(old(self).invoices.all()),
                self.settlement.obligation_entries_spec() == mid.obligation_entries_spec(),
                self.settlement.next_claim_spec() == next0 + n,
                self.settlement.claim_entries().len() == prepared.claim_entries().len(),
                forall|a: int, b: int|
                    0 <= a < n && 0 <= b < n && a != b ==> (#[trigger] claim_ids@[a])@ != (
                    #[trigger] claim_ids@[b])@,
                l0 == old(self).ledger,
                l0.wf(),
                rec == old(self).accounts.receivable,
                clr == old(self).accounts.clearing,
                next0 == old(self).settlement.next_claim_spec(),
                picks == settlement_picks(old(self).invoices.all(), old(self).settlement.all_claims(), day),
                batch@ == generated_text(BatchId::prefix(), old(self).next_batch),
                known == posting_accounts_known(l0, rec, clr),
                l0.next_tx_spec() + picks.len() <= u64::MAX,
                known ==> effects_safe(l0.slots(), pick_effects(picks, rec, clr)),
                known ==> posting_accounts_known(self.ledger, rec, clr),
                !known ==> i == 0,
                i == 0 ==> self.ledger == l0,
                self.ledger.slots() == apply_effects(l0.slots(), pick_effects(picks.take(i as int), rec, clr)),
                known ==> effects_safe(l0.slots(), pick_effects(picks.take(i as int), rec, clr)),
                self.ledger.next_tx_spec() == l0.next_tx_spec() + i,
                self.ledger.entries().len() == l0.entries().len() + i,
                forall|k: int|
                    0 <= k < i ==> (lookup(self.settlement.claim_entries(), (#[trigger] claim_ids@[k])@)
                        matches Some(c) && claim_posted_for(c, picks[k], day, batch) && c.id == claim_ids@[k]),
                forall|k: int|
                    i <= k < n ==> lookup(self.settlement.claim_entries(), (#[trigger] claim_ids@[k])@)
                        == lookup(prepared.claim_entries(), claim_ids@[k]@),
                forall|key: Seq<char>|
                    (forall|k: int| 0 <= k < n ==> key != (#[trigger] claim_ids@[k])@) ==> lookup(
                        self.settlement.claim_entries(),
                        key,
                    ) == lookup(old(self).settlement.claim_entries(), key),
            decreases n - i,
        {
            let ghost b_i = self.settlement;
            let ghost l_i = self.ledger;
            let ghost c = lookup(prepared.claim_entries(), claim_ids@[i as int]@)->Some_0;
            proof {
                assert(lookup(prepared.claim_entries(), claim_ids@[i as int]@) == Some(c));
                assert(claim_made(c, picks[i as int], day, batch));
            }
            proof {
                let cs = b_i.claim_entries();
                let ids1 = seq![claim_ids@[i as int]];
                let i_pos = key_index(entry_keys(cs), claim_ids@[i as int]@);
                reveal_with_fuel(post_plan, 2);
                reveal_with_fuel(posting_effects, 2);
                assert(ids1.drop_last() =~= Seq::<SettlementId>::empty());
                assert(ids1.last() == claim_ids@[i as int]);
                assert(cs[i_pos].1 == c);
                let empty = Seq::<int>::empty();
                assert(!empty.contains(i_pos));
                assert(post_plan(cs, ids1).0 == seq![i_pos]);
                assert(seq![i_pos].drop_last() =~= empty);
                assert(posting_effects(cs, seq![i_pos], rec, clr) =~= pair_effects(clr, rec, c.amount));
                lemma_pick_effects_step(picks, i as int, rec, clr);
                lemma_effects_safe_concat(
                    l0.slots(),
                    pick_effects(picks.take(i as int), rec, clr),
                    pair_effects(clr, rec, c.amount),
                );
                crate::ledger::state::lemma_apply_effects_concat(
                    l0.slots(),
                    pick_effects(picks.take(i as int), rec, clr),
                    pair_effects(clr, rec, c.amount),
                );
                if known {
                    lemma_pick_effects_safe_prefix(l0.slots(), picks, i + 1, rec, clr);
                }
                assert(crate::settlement::book::claims_post_safely(b_i, ids1, l_i, rec, clr));
            }
            let one = vec![claim_ids[i].duplicate()];
            assert(one@ =~= seq![claim_ids@[i as int]]);
            let posted = self.settlement.post_claims(
                one.as_slice(),
                day,
                &mut self.ledger,
                self.accounts.receivable.duplicate(),
                self.accounts.clearing.duplicate(),
            );
            proof {
                lemma_post_single(b_i, self.settlement, claim_ids@[i as int], c, l_i, self.ledger, rec, clr, day, posted);
            }
            match posted {
                Ok(()) => {},
                Err(e) => {
                    proof {
                        assert(!known);
                        assert(i == 0);
                        assert(e == SableError::AccountNotFound(pair_missing(old(self).ledger, clr, rec)));
                    }
                    return Err(e);
                },
            }
            proof {
                crate::ledger::state::lemma_apply_effects_keys(l0.slots(), pick_effects(picks.take(i as int), rec, clr));
                crate::ledger::state::lemma_apply_effects_keys(l0.slots(), pick_effects(picks.take(i + 1), rec, clr));
                assert forall|k: int|
                    i + 1 <= k < n implies lookup(self.settlement.claim_entries(), (#[trigger] claim_ids@[k])@)
                        == lookup(prepared.claim_entries(), claim_ids@[k]@) by {
                    assert(claim_ids@[k]@ != claim_ids@[i as int]@);
                }
                assert forall|k: int|
                    0 <= k < i + 1 implies (lookup(self.settlement.claim_entries(), (#[trigger] claim_ids@[k])@)
                        matches Some(c2) && claim_posted_for(c2, picks[k], day, batch) && c2.id == claim_ids@[k]) by {
                    if k < i {
                        assert(claim_ids@[k]@ != claim_ids@[i as int]@);
                    }
                }
                assert forall|key: Seq<char>|
                    (forall|k: int| 0 <= k < n ==> key != (#[trigger] claim_ids@[k])@) implies lookup(
                        self.settlement.claim_entries(),
                        key,
                    ) == lookup(old(self).settlement.claim_entries(), key) by {
                    assert(key != claim_ids@[i as int]@);
                }
            }
            i = i + 1;
        }
        proof {
            assert(picks.take(n as int) =~= picks);
        }
        let mut texts: Vec<String> = Vec::new();
        let mut k: usize = 0;
        while k < n
            invariant
                n == claim_ids@.len(),
                k <= n,
                texts@.len() == k,
                forall|j: int| 0 <= j < k ==> (#[trigger] texts@[j])@ == claim_ids@[j]@,
            decreases n - k,
        {
            texts.push(claim_ids[k].to_text());
            k = k + 1;
        }
        proof {
            assert forall|k: int|
                0 <= k < n implies (lookup(
                    self.settlement.claim_entries(),
                    #[trigger] generated_text(SettlementId::prefix(), (next0 + k) as u64),
                ) matches Some(c) && claim_posted_for(c, picks[k], day, c.batch_id) && c.batch_id@
                    == generated_text(BatchId::prefix(), old(self).next_batch) && c.id@ == generated_text(
                    SettlementId::prefix(),
                    (next0 + k) as u64,
                )) by {
                assert(claim_ids@[k]@ == generated_text(SettlementId::prefix(), (next0 + k) as u64));
            }
            assert forall|key: Seq<char>|
                (forall|k: int|
                    0 <= k < n ==> key != #[trigger] generated_text(SettlementId::prefix(), (next0 + k) as u64))
                    implies lookup(self.settlement.claim_entries(), key) == lookup(
                    old(self).settlement.claim_entries(),
                    key,
                ) by {
                assert forall|k: int| 0 <= k < n implies key != (#[trigger] claim_ids@[k])@ by {
                    assert(claim_ids@[k]@ == generated_text(SettlementId::prefix(), (next0 + k) as u64));
                }
            }
        }
        Ok(texts)
    }

    /// Rebuilds the obligations and prepares the close batch of `period`.
    pub fn prepare_close(&mut self, period: Period, prepared_day: u32) -> (r: SableResult<
        CloseBatch,
    >)
        requires
            old(self).wf(),
            obligations_computable(old(self).invoices.all()),
            old(self).next_batch < u64::MAX,
            crate::close::reconciliation_ok(
                period,
                old(self).invoices.all(),
                old(self).receipts.all(),
                old(self).settlement.all_claims(),
                entry_values(obligation_entries(old(self).invoices.all())),
                old(self).ledger,
            ),
        ensures
            final(self).wf(),
            same_frame(*old(self), *final(self)),
            final(self).invoices == old(self).invoices,
            final(self).receipts == old(self).receipts,
            final(self).adjustments == old(self).adjustments,
            final(self).ledger == old(self).ledger,
            final(self).next_invoice == old(self).next_invoice,
            final(self).next_receipt == old(self).next_receipt,
            final(self).next_adjustment == old(self).next_adjustment,
            final(self).next_batch == old(self).next_batch + 1,
            final(self).settlement.claim_entries() == old(self).settlement.claim_entries(),
            final(self).settlement.next_claim_spec() == old(self).settlement.next_claim_spec(),
            r matches Ok(b) && {
                &&& b.id@ == generated_text(BatchId::prefix(), old(self).next_batch)
                &&& b.period == period
                &&& b.prepared_day == prepared_day
                &&& b.status == crate::close::CloseStatus::Prepared
                &&& b.closed_day is None
                &&& final(self).settlement.obligation_entries_spec() == obligation_entries(
                    old(self).invoices.all(),
                )
                &&& reconciliation_holds(
                    b.report,
                    period,
                    final(self).invoices.all(),
                    final(self).receipts.all(),
                    final(self).settlement.all_claims(),
                    final(self).settlement.all_obligations(),
                    final(self).ledger,
                )
                &&& b.digest@ == blake3_hex(vstd::utf8::encode_utf8(reconciliation_json(b.report)))
            },
    {
        self.refresh_settlement();
        let batch_id = self.next_batch_id();
        CloseBatch::prepare(
            batch_id,
            period,
            prepared_day,
            &self.invoices,
            &self.receipts,
            &self.settlement,
            &self.ledger,
        )
    }

    /// Whether the close report of `period` can be computed in `i64` from the books as they
    /// stand, obligations rebuilt.
    pub fn close_fits(&self, period: Period) -> (r: bool)
        requires
            self.wf(),
            self.settlement.obligation_entries_spec() == obligation_entries(self.invoices.all()),
        ensures
            r == crate::close::reconciliation_ok(
                period,
                self.invoices.all(),
                self.receipts.all(),
                self.settlement.all_claims(),
                entry_values(obligation_entries(self.invoices.all())),
                self.ledger,
            ),
    {
        ReconciliationReport::try_build(
            period,
            &self.invoices,
            &self.receipts,
            &self.settlement,
            &self.ledger,
        ).is_some()
    }

    /// Closes every invoice eligible on `day`; returns how many there were.
    pub fn close_eligible_invoices(&mut self, day: u32) -> (r: SableResult<usize>)
        requires
            old(self).wf(),
            close_checks_computable(old(self).invoices.all(), day),
        ensures
            final(self).wf(),
            same_frame(*old(self), *final(self)),
            final(self).receipts == old(self).receipts,
            final(self).adjustments == old(self).adjustments,
            final(self).settlement == old(self).settlement,
            final(self).ledger == old(self).ledger,
            final(self).next_invoice == old(self).next_invoice,
            final(self).next_receipt == old(self).next_receipt,
            final(self).next_adjustment == old(self).next_adjustment,
            final(self).next_batch == old(self).next_batch,
            r == Ok::<usize, SableError>(
                old(self).invoices.all().filter(|inv: Invoice| closable(inv, day)).len() as usize,
            ),
            entry_keys(final(self).invoices@) == entry_keys(old(self).invoices@),
            forall|key: Seq<char>|
                #[trigger] final(self).invoices.find_spec(key) == match old(self).invoices.find_spec(
                    key,
                ) {
                    Some(inv) => Some(close_pass(inv, day)),
                    None => None,
                },
    {
        let eligible = self.invoices.eligible_for_close(day);
        let ghost chosen = derefs(eligible@);
        let ghost invs = self.invoices.all();
        let ghost pred = |inv: Invoice| closable(inv, day);
        proof {
            invs.filter_lemma(pred);
        }
        let mut ids: Vec<InvoiceId> = Vec::new();
        let mut i: usize = 0;
        while i < eligible.len()
            invariant
                chosen == derefs(eligible@),
                i <= eligible@.len(),
                ids@.len() == i,
                forall|k: int| 0 <= k < i ==> (#[trigger] ids@[k]) == chosen[k].id,
            decreases eligible@.len() - i,
        {
            ids.push(eligible[i].id.duplicate());
            i = i + 1;
        }
        assert(chosen.len() == eligible@.len());
        let n = ids.len();
        proof {
            assert forall|k: int| 0 <= k < n implies (self.invoices.find_spec((#[trigger] ids@[k])@)
                matches Some(inv) && closable(inv, day)) by {
                let x = chosen[k];
                assert(pred(invs.filter(pred)[k]));
                crate::keyed::lemma_filter_member(invs, pred, k);
                let m = choose|m: int| 0 <= m < invs.len() && invs[m] == x;
                self.lemma_find_own(m);
            }
            assert forall|key: Seq<char>|
                (self.invoices.find_spec(key) matches Some(inv) && closable(inv, day)) implies
                #[trigger] listed_before(ids@, n as int, key) by {
                let m = self.invoices.index_of(key);
                let inv = self.invoices.find_spec(key)->Some_0;
                assert(self.invoices@[m].1 == inv);
                assert(invs[m] == inv);
                assert(entry_keys(self.invoices@)[m] == key);
                invs.lemma_filter_contains(pred, m);
                let k = choose|k: int| 0 <= k < invs.filter(pred).len() && invs.filter(pred)[k] == inv;
                assert(ids@[k]@ == key);
            }
        }
        let mut j: usize = 0;
        while j < n
            invariant
                n == ids@.len(),
                j <= n,
                self.wf(),
                same_frame(*old(self), *self),
                self.receipts == old(self).receipts,
                self.adjustments == old(self).adjustments,
                self.settlement == old(self).settlement,
                self.ledger == old(self).ledger,
                self.next_invoice == old(self).next_invoice,
                self.next_receipt == old(self).next_receipt,
                self.next_adjustment == old(self).next_adjustment,
                self.next_batch == old(self).next_batch,
                close_checks_computable(old(self).invoices.all(), day),
                old(self).invoices.wf(),
                forall|k: int|
                    0 <= k < n ==> (old(self).invoices.find_spec((#[trigger] ids@[k])@) matches Some(
                        inv,
                    ) && closable(inv, day)),
                entry_keys(self.invoices@) == entry_keys(old(self).invoices@),
                forall|key: Seq<char>|
                    #[trigger] self.invoices.find_spec(key) == match old(self).invoices.find_spec(key) {
                        Some(inv) => Some(
                            if listed_before(ids@, j as int, key) {
                                closed_on(inv, day)
                            } else {
                                inv
                            },
                        ),
                        None => None,
                    },
            decreases n - j,
        {
            let ghost book = self.invoices;
            let ghost key = ids@[j as int]@;
            let ghost inv0 = old(self).invoices.find_spec(key)->Some_0;
            proof {
                assert(old(self).invoices.find_spec(ids@[j as int]@) matches Some(inv) && closable(inv, day));
                let m = old(self).invoices.index_of(key);
                assert(old(self).invoices@[m].1 == inv0);
                assert(old(self).invoices.all()[m] == inv0);
                assert(book.find_spec(key) == Some(if listed_before(ids@, j as int, key) {
                    closed_on(inv0, day)
                } else {
                    inv0
                }));
            }
            let closed = self.invoices.close_invoice(&ids[j], day);
            proof {
                let s0 = book@;
                let i0 = book.index_of(key);
                let cur = book.find_spec(key)->Some_0;
                assert(closed_on(cur, day) == closed_on(inv0, day));
                assert(entry_keys(s0)[i0] == key);
                assert forall|other: Seq<char>|
                    #[trigger] self.invoices.find_spec(other) == match old(self).invoices.find_spec(other) {
                        Some(inv) => Some(
                            if listed_before(ids@, j + 1, other) {
                                closed_on(inv, day)
                            } else {
                                inv
                            },
                        ),
                        None => None,
                    } by {
                    crate::keyed::lemma_lookup_after_update(s0, i0, closed_on(cur, day), other);
                    assert(self.invoices@ == s0.update(i0, (s0[i0].0, closed_on(cur, day))));
                    if other != key {
                        if listed_before(ids@, j + 1, other) {
                            let k = choose|k: int| 0 <= k < j + 1 && ids@[k]@ == other;
                            assert(k != j);
                            assert(listed_before(ids@, j as int, other));
                        }
                        assert(listed_before(ids@, j + 1, other) == listed_before(ids@, j as int, other));
                        assert(self.invoices.find_spec(other) == book.find_spec(other));
                    } else {
                        assert(ids@[j as int]@ == other);
                        assert(listed_before(ids@, j + 1, other));
                        assert(self.invoices.find_spec(other) == Some(closed_on(inv0, day)));
                    }
                }
                crate::keyed::lemma_lookup_after_update(s0, i0, closed_on(cur, day), key);
            }
            match closed {
                Ok(()) => {},
                Err(e) => {
                    return Err(e);
                },
            }
            j = j + 1;
        }
        proof {
            assert forall|key: Seq<char>|
                #[trigger] self.invoices.find_spec(key) == match old(self).invoices.find_spec(key) {
                    Some(inv) => Some(close_pass(inv, day)),
                    None => None,
                } by {
                if old(self).invoices.find_spec(key) matches Some(inv) {
                    if listed_before(ids@, n as int, key) {
                        let k = choose|k: int| 0 <= k < n && ids@[k]@ == key;
                        assert(old(self).invoices.find_spec(ids@[k]@) matches Some(inv2) && closable(inv2, day));
                    }
                }
            }
        }
        Ok(n)
    }

    /// Every invoice of the book is the one filed under its own id.
    proof fn lemma_find_own(&self, m: int)
        requires
            self.wf(),
            0 <= m < self.invoices.all().len(),
        ensures
            self.invoices.find_spec(self.invoices.all()[m].id@) == Some(self.invoices.all()[m]),
    {
        let s = self.invoices@;
        assert(s[m].0@ == s[m].1.id@);
        assert(entry_keys(s)[m] == s[m].1.id@);
        crate::keyed::lemma_sorted_index_unique(entry_keys(s), m, s[m].1.id@);
    }
}

} // verus!
