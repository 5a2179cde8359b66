//! Accounts of the chart.
use vstd::prelude::*;

use crate::ids::AccountId;

verus! {

/// The kind of an account, which decides its normal side.
#[derive(Clone, Copy, Debug, PartialEq, Eq, Structural, Hash)]
pub enum AccountClass {
    Asset,
    Liability,
    Equity,
    Revenue,
    Expense,
    ContraRevenue,
    Clearing,
}

/// The name of an account class, as its debug rendering prints it.
pub open spec fn account_class_name(c: AccountClass) -> Seq<char> {
    match c {
        AccountClass::Asset => "Asset"@,
        AccountClass::Liability => "Liability"@,
        AccountClass::Equity => "Equity"@,
        AccountClass::Revenue => "Revenue"@,
        AccountClass::Expense => "Expense"@,
        AccountClass::ContraRevenue => "ContraRevenue"@,
        AccountClass::Clearing => "Clearing"@,
    }
}

impl AccountClass {
    pub fn name(self) -> (r: &'static str)
        ensures
            r@ == account_class_name(self),
    {
        match self {
            AccountClass::Asset => "Asset",
            AccountClass::Liability => "Liability",
            AccountClass::Equity => "Equity",
            AccountClass::Revenue => "Revenue",
            AccountClass::Expense => "Expense",
            AccountClass::ContraRevenue => "ContraRevenue",
            AccountClass::Clearing => "Clearing",
        }
    }

    /// Whether accounts of this class normally carry a debit balance.
    pub open spec fn debit_normal(self) -> bool {
        self == AccountClass::Asset || self == AccountClass::Expense || self
            == AccountClass::ContraRevenue
    }
}

/// An account of the chart.
#[derive(Clone, Debug, PartialEq, Eq)]
pub struct ChartAccount {
    pub id: AccountId,
    pub code: String,
    pub name: String,
    pub class: AccountClass,
    pub normal_debit: bool,
    pub enabled: bool,
}

impl ChartAccount {
    /// An enabled account whose normal side follows from its class.
    pub fn new(id: AccountId, code: String, name: String, class: AccountClass) -> (r: ChartAccount)
        ensures
            r == (ChartAccount {
                id,
                code,
                name,
                class,
                normal_debit: class.debit_normal(),
                enabled: true,
            }),
    {
        let normal_debit = matches!(
            class,
            AccountClass::Asset | AccountClass::Expense | AccountClass::ContraRevenue
        );
        ChartAccount { id, code, name, class, normal_debit, enabled: true }
    }

    pub fn disabled(self) -> (r: ChartAccount)
        ensures
            r == (ChartAccount { enabled: false, ..self }),
    {
        ChartAccount { enabled: false, ..self }
    }
}

} // verus!
