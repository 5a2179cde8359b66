//! Counterparties of the desk, their bank accounts, and the book that holds them.
use vstd::prelude::*;

use crate::error::{SableError, SableResult};
use crate::ids::{AccountId, PartyId};
use crate::keyed::{
    derefs, entry_keys, entry_values, has_key, key_index, lemma_derefs_push,
    lemma_filter_take_step, lemma_keys_after_insert, lemma_lookup_after_insert, lemma_lookup_after_update, lemma_take_full,
    lemma_take_push, lookup,
    sorted_keys, BookKey, Registry,
};

verus! {

/// What a counterparty is to the desk.
#[derive(Clone, Copy, Debug, PartialEq, Eq, Structural)]
pub enum CounterpartyRole {
    Merchant,
    Buyer,
    Processor,
    Treasury,
    ClearingHouse,
    Auditor,
}

/// A bank account on which a counterparty settles.
#[derive(Clone, Debug, PartialEq, Eq)]
pub struct BankAccount {
    pub institution: String,
    pub routing_code: String,
    pub account_ref: String,
    pub currency: String,
    pub enabled: bool,
}

impl BankAccount {
    /// An enabled bank account.
    pub fn new(
        institution: String,
        routing_code: String,
        account_ref: String,
        currency: String,
    ) -> (r: BankAccount)
        ensures
            r == (BankAccount { institution, routing_code, account_ref, currency, enabled: true }),
    {
        BankAccount { institution, routing_code, account_ref, currency, enabled: true }
    }

    /// The same account, disabled.
    pub fn disabled(self) -> (r: BankAccount)
        ensures
            r == (BankAccount { enabled: false, ..self }),
    {
        BankAccount { enabled: false, ..self }
    }
}

/// Index of the first enabled account in `accounts`, if any is.
pub open spec fn first_enabled(accounts: Seq<BankAccount>) -> Option<int> {
    if exists|i: int| 0 <= i < accounts.len() && accounts[i].enabled {
        Some(
            choose|i: int|
                0 <= i < accounts.len() && accounts[i].enabled && forall|j: int|
                    0 <= j < i ==> !accounts[j].enabled,
        )
    } else {
        None
    }
}

/// A merchant, buyer, processor or other party the desk deals with.
#[derive(Clone, Debug, PartialEq, Eq)]
pub struct Counterparty {
    pub id: PartyId,
    pub legal_name: String,
    pub role: CounterpartyRole,
    pub settlement_account: AccountId,
    pub receivable_account: AccountId,
    pub payable_account: AccountId,
    pub bank_accounts: Vec<BankAccount>,
    pub active: bool,
}

impl Counterparty {
    /// An active counterparty with no bank account yet.
    pub fn new(
        id: PartyId,
        legal_name: String,
        role: CounterpartyRole,
        settlement_account: AccountId,
        receivable_account: AccountId,
        payable_account: AccountId,
    ) -> (r: Counterparty)
        ensures
            r.id == id,
            r.legal_name == legal_name,
            r.role == role,
            r.settlement_account == settlement_account,
            r.receivable_account == receivable_account,
            r.payable_account == payable_account,
            r.bank_accounts@ == Seq::<BankAccount>::empty(),
            r.active,
    {
        Counterparty {
            id,
            legal_name,
            role,
            settlement_account,
            receivable_account,
            payable_account,
            bank_accounts: Vec::new(),
            active: true,
        }
    }

    /// The same counterparty with `account` added after its other accounts.
    pub fn with_bank_account(self, account: BankAccount) -> (r: Counterparty)
        ensures
            r.bank_accounts@ == self.bank_accounts@.push(account),
            r == (Counterparty { bank_accounts: r.bank_accounts, ..self }),
    {
        let mut party = self;
        party.bank_accounts.push(account);
        party
    }

    /// The first enabled bank account, in the order they were added.
    pub fn primary_bank_account(&self) -> (r: Option<&BankAccount>)
        ensures
            match first_enabled(self.bank_accounts@) {
                None => r is None,
                Some(i) => r == Some(&self.bank_accounts@[i]),
            },
    {
        let n = self.bank_accounts.len();
        let mut i: usize = 0;
        while i < n
            invariant
                n == self.bank_accounts@.len(),
                i <= n,
                forall|j: int| 0 <= j < i ==> !self.bank_accounts@[j].enabled,
            decreases n - i,
        {
            if self.bank_accounts[i].enabled {
                let ghost accts = self.bank_accounts@;
                proof {
                    let c = choose|k: int|
                        0 <= k < accts.len() && accts[k].enabled && forall|j: int|
                            0 <= j < k ==> !accts[j].enabled;
                    assert(0 <= c < accts.len() && accts[c].enabled && forall|j: int|
                        0 <= j < c ==> !accts[j].enabled);
                    assert(c == i as int) by {
                        if c < i as int {
                        } else if c > i as int {
                            assert(!accts[i as int].enabled);
                        }
                    }
                }
                return Some(&self.bank_accounts[i]);
            }
            i = i + 1;
        }
        None
    }

    pub fn deactivate(&mut self)
        ensures
            *final(self) == (Counterparty { active: false, ..*old(self) }),
    {
        self.active = false;
    }
}

/// The counterparties of the desk, in id order.
pub struct CounterpartyBook {
    parties: Registry<PartyId, Counterparty>,
}

impl View for CounterpartyBook {
    type V = Seq<(PartyId, Counterparty)>;

    closed spec fn view(&self) -> Seq<(PartyId, Counterparty)> {
        self.parties.entries()
    }
}

impl CounterpartyBook {
    pub open spec fn wf(&self) -> bool {
        sorted_keys(entry_keys(self@))
    }

    pub open spec fn all(&self) -> Seq<Counterparty> {
        entry_values(self@)
    }

    pub open spec fn find_spec(&self, id: Seq<char>) -> Option<Counterparty> {
        lookup(self@, id)
    }

    pub open spec fn index_of(&self, id: Seq<char>) -> int {
        key_index(entry_keys(self@), id)
    }

    pub fn new() -> (r: CounterpartyBook)
        ensures
            r@ == Seq::<(PartyId, Counterparty)>::empty(),
            r.wf(),
    {
        CounterpartyBook { parties: Registry::new() }
    }

    /// Registers a counterparty; an id already in the book is refused.
    pub fn insert(&mut self, party: Counterparty) -> (r: SableResult<()>)
        requires
            old(self).wf(),
        ensures
            final(self).wf(),
            has_key(entry_keys(old(self)@), party.id@) ==> final(self)@ == old(self)@ && (
            r matches Err(SableError::DuplicateId(s)) && s@ == party.id@),
            !has_key(entry_keys(old(self)@), party.id@) ==> r is Ok && exists|p: int|
                0 <= p <= old(self)@.len() && final(self)@ == old(self)@.insert(
                    p,
                    (party.id, party),
                ),
        forall|k: Seq<char>|
            #[trigger] has_key(entry_keys(final(self)@), k) ==> has_key(entry_keys(old(self)@), k)
                || k == party.id@,
            !has_key(entry_keys(old(self)@), party.id@) ==> final(self)@.len() == old(self)@.len() + 1
                && forall|k: Seq<char>|
                #[trigger] final(self).find_spec(k) == if k == party.id@ {
                    Some(party)
                } else {
                    old(self).find_spec(k)
                },
    {
        let text = party.id.to_text();
        let key = party.id.duplicate();
        let ghost entry = (party.id, party);
        if self.parties.insert_new(key, party) {
            proof {
                let p = choose|p: int|
                    0 <= p <= old(self)@.len() && self@ == old(self)@.insert(p, entry);
                assert forall|k: Seq<char>| #[trigger] has_key(entry_keys(self@), k) implies has_key(
                    entry_keys(old(self)@),
                    k,
                ) || k == entry.0@ by {
                    lemma_keys_after_insert(old(self)@, p, entry, k);
                }
                assert forall|k: Seq<char>| #[trigger] self.find_spec(k) == if k == entry.0@ {
                    Some(entry.1)
                } else {
                    old(self).find_spec(k)
                } by {
                    lemma_lookup_after_insert(old(self)@, p, entry.0, entry.1, k);
                }
            }
            Ok(())
        } else {
            Err(SableError::DuplicateId(text))
        }
    }

    pub fn get(&self, id: &PartyId) -> (r: SableResult<&Counterparty>)
        requires
            self.wf(),
        ensures
            match self.find_spec(id@) {
                None => r == Err::<&Counterparty, SableError>(
                    SableError::CounterpartyNotFound(*id),
                ),
                Some(x) => r == Ok::<&Counterparty, SableError>(&x),
            },
    {
        match self.parties.find(id.as_str()) {
            Some(x) => Ok(x),
            None => Err(SableError::CounterpartyNotFound(id.duplicate())),
        }
    }

    /// The counterparty filed under `id`, to change in place; its id must not change.
    pub fn get_mut(&mut self, id: &PartyId) -> (r: SableResult<&mut Counterparty>)
        requires
            old(self).wf(),
        ensures
            match r {
                Ok(x) => {
                    &&& old(self).find_spec(id@) == Some(*x)
                    &&& final(self)@ == old(self)@.update(
                        old(self).index_of(id@),
                        (old(self)@[old(self).index_of(id@)].0, *final(x)),
                    )
                },
                Err(e) => {
                    &&& old(self).find_spec(id@) is None
                    &&& e == SableError::CounterpartyNotFound(*id)
                    &&& final(self)@ == old(self)@
                },
            },
            final(self).wf(),
    {
        proof {
            self.lemma_update_keeps_order();
        }
        match self.parties.find_mut(id.as_str()) {
            Some(x) => Ok(x),
            None => Err(SableError::CounterpartyNotFound(id.duplicate())),
        }
    }

    proof fn lemma_update_keeps_order(&self)
        requires
            self.wf(),
        ensures
            forall|i: int, v: Counterparty|
                0 <= i < self@.len() ==> sorted_keys(
                    #[trigger] entry_keys(self@.update(i, (self@[i].0, v))),
                ),
    {
        assert forall|i: int, v: Counterparty| 0 <= i < self@.len() implies sorted_keys(
            #[trigger] entry_keys(self@.update(i, (self@[i].0, v))),
        ) by {
            lemma_lookup_after_update(self@, i, v, self@[i].0.key());
        }
    }

    /// The counterparties in `role`, in id order.
    pub fn by_role(&self, role: CounterpartyRole) -> (r: Vec<&Counterparty>)
        ensures
            derefs(r@) == self.all().filter(|p: Counterparty| p.role == role),
    {
        let ghost pred = |p: Counterparty| p.role == role;
        let n = self.parties.len();
        let mut r: Vec<&Counterparty> = Vec::new();
        let mut i: usize = 0;
        while i < n
            invariant
                pred == (|p: Counterparty| p.role == role),
                n == self@.len(),
                i <= n,
                derefs(r@) == self.all().take(i as int).filter(pred),
            decreases n - i,
        {
            let x = self.parties.value_at(i);
            assert(*x == self.all()[i as int]);
            proof {
                lemma_filter_take_step(self.all(), pred, i as int);
            }
            if x.role == role {
                proof {
                    lemma_derefs_push(r@, x);
                }
                r.push(x);
            }
            i = i + 1;
        }
        proof {
            lemma_take_full(self.all());
        }
        r
    }

    /// The active counterparties, in id order.
    pub fn active_parties(&self) -> (r: Vec<&Counterparty>)
        ensures
            derefs(r@) == self.all().filter(|p: Counterparty| p.active),
    {
        let ghost pred = |p: Counterparty| p.active;
        let n = self.parties.len();
        let mut r: Vec<&Counterparty> = Vec::new();
        let mut i: usize = 0;
        while i < n
            invariant
                pred == (|p: Counterparty| p.active),
                n == self@.len(),
                i <= n,
                derefs(r@) == self.all().take(i as int).filter(pred),
            decreases n - i,
        {
            let x = self.parties.value_at(i);
            assert(*x == self.all()[i as int]);
            proof {
                lemma_filter_take_step(self.all(), pred, i as int);
            }
            if x.active {
                proof {
                    lemma_derefs_push(r@, x);
                }
                r.push(x);
            }
            i = i + 1;
        }
        proof {
            lemma_take_full(self.all());
        }
        r
    }

    /// The counterparties, in id order.
    pub fn values(&self) -> (r: Vec<&Counterparty>)
        ensures
            derefs(r@) == self.all(),
    {
        let n = self.parties.len();
        let mut r: Vec<&Counterparty> = Vec::new();
        let mut i: usize = 0;
        while i < n
            invariant
                n == self@.len(),
                i <= n,
                derefs(r@) == self.all().take(i as int),
            decreases n - i,
        {
            let x = self.parties.value_at(i);
            proof {
                lemma_derefs_push(r@, x);
                lemma_take_push(self.all(), i as int);
            }
            r.push(x);
            i = i + 1;
        }
        proof {
            lemma_take_full(self.all());
        }
        r
    }
}

} // verus!
