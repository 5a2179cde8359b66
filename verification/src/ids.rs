//! Text identifiers of the desk's records.
use vstd::prelude::*;

use crate::keyed::BookKey;
use crate::text::{decimal, digit_char, push_zero_padded, zero_pad};

verus! {

/// Text of a generated identifier: the prefix, a dash and the sequence number padded to eight digits.
pub open spec fn generated_text(prefix: Seq<char>, sequence: u64) -> Seq<char> {
    prefix + seq!['-'] + zero_pad(decimal(sequence as nat), 8)
}

/// Generated identifiers of one kind with single-digit sequence numbers are ordered as
/// their numbers.
pub proof fn lemma_generated_order(prefix: Seq<char>, a: u64, b: u64)
    requires
        a < b < 10,
    ensures
        crate::keyed::key_lt(generated_text(prefix, a), generated_text(prefix, b)),
{
    let x = prefix + seq!['-'] + Seq::new(7, |i: int| '0');
    assert(decimal(a as nat) == seq![digit_char(a as nat)]);
    assert(decimal(b as nat) == seq![digit_char(b as nat)]);
    assert(generated_text(prefix, a) =~= x + seq![digit_char(a as nat)]);
    assert(generated_text(prefix, b) =~= x + seq![digit_char(b as nat)]);
    crate::keyed::lemma_key_lt_common_prefix(x, seq![digit_char(a as nat)], seq![digit_char(b as nat)]);
    assert(((48 + a) as u8) as char as int == 48 + a);
    assert(((48 + b) as u8) as char as int == 48 + b);
    assert(seq![digit_char(a as nat)][0] == digit_char(a as nat));
    assert(seq![digit_char(a as nat)].drop_first().len() == 0);
}

/// The number written by a string of decimal digits.
pub open spec fn digits_value(s: Seq<char>) -> int
    decreases s.len(),
{
    if s.len() == 0 {
        0
    } else {
        digits_value(s.drop_last()) * 10 + (s.last() as int - 48)
    }
}

proof fn lemma_decimal_value(n: nat)
    ensures
        digits_value(decimal(n)) == n,
    decreases n,
{
    if n >= 10 {
        lemma_decimal_value(n / 10);
        assert(decimal(n).drop_last() == decimal(n / 10));
    }
    let d = (n % 10) as nat;
    assert(((48 + d) as u8) as int == 48 + d);
    assert(((48 + d) as u8) as char as int == 48 + d);
    assert(decimal(n).last() == digit_char(d));
    if n < 10 {
        assert(decimal(n).drop_last() =~= Seq::<char>::empty());
        assert(digits_value(decimal(n).drop_last()) == 0);
    } else {
        assert(digits_value(decimal(n)) == digits_value(decimal(n / 10)) * 10 + d);
    }
}

proof fn lemma_zeros_value(k: nat)
    ensures
        digits_value(Seq::new(k, |i: int| '0')) == 0,
    decreases k,
{
    if k > 0 {
        assert(Seq::new(k, |i: int| '0').drop_last() =~= Seq::new((k - 1) as nat, |i: int| '0'));
        lemma_zeros_value((k - 1) as nat);
    }
}

proof fn lemma_padded_value(z: Seq<char>, s: Seq<char>)
    requires
        digits_value(z) == 0,
    ensures
        digits_value(z + s) == digits_value(s),
    decreases s.len(),
{
    if s.len() == 0 {
        assert(z + s =~= z);
    } else {
        assert((z + s).drop_last() =~= z + s.drop_last());
        lemma_padded_value(z, s.drop_last());
    }
}

/// Distinct sequence numbers give distinct generated identifiers.
pub proof fn lemma_generated_injective(prefix: Seq<char>, a: u64, b: u64)
    requires
        generated_text(prefix, a) == generated_text(prefix, b),
    ensures
        a == b,
{
    let k: int = prefix.len() as int + 1;
    let pa = zero_pad(decimal(a as nat), 8);
    let pb = zero_pad(decimal(b as nat), 8);
    assert(generated_text(prefix, a).skip(k) =~= pa);
    assert(generated_text(prefix, b).skip(k) =~= pb);
    lemma_decimal_value(a as nat);
    lemma_decimal_value(b as nat);
    if decimal(a as nat).len() < 8 {
        lemma_zeros_value((8 - decimal(a as nat).len()) as nat);
        lemma_padded_value(Seq::new((8 - decimal(a as nat).len()) as nat, |i: int| '0'), decimal(a as nat));
    }
    if decimal(b as nat).len() < 8 {
        lemma_zeros_value((8 - decimal(b as nat).len()) as nat);
        lemma_padded_value(Seq::new((8 - decimal(b as nat).len()) as nat, |i: int| '0'), decimal(b as nat));
    }
}

fn generated_string(prefix: &str, sequence: u64) -> (s: String)
    ensures
        s@ == generated_text(prefix@, sequence),
{
    let mut s = String::from_str(prefix);
    proof {
        reveal_strlit("-");
    }
    s.append("-");
    push_zero_padded(&mut s, sequence as u128, 8);
    s
}

/// Identifier of an account of the chart.
#[derive(Clone, Debug, PartialEq, Eq, PartialOrd, Ord, Hash)]
pub struct AccountId(String);

impl View for AccountId {
    type V = Seq<char>;

    closed spec fn view(&self) -> Seq<char> {
        self.0@
    }
}

impl AccountId {
    /// The prefix of generated identifiers of this kind.
    pub open spec fn prefix() -> Seq<char> {
        "acct"@
    }

    pub fn new(value: &str) -> (r: Self)
        ensures
            r@ == value@,
    {
        AccountId(String::from_str(value))
    }

    pub fn from_string(value: String) -> (r: Self)
        ensures
            r@ == value@,
    {
        AccountId(value)
    }

    pub fn generated(sequence: u64) -> (r: Self)
        ensures
            r@ == generated_text(Self::prefix(), sequence),
    {
        AccountId(generated_string("acct", sequence))
    }

    pub fn as_str(&self) -> (r: &str)
        ensures
            r@ == self@,
    {
        self.0.as_str()
    }

    /// Text equality of two identifiers.
    pub fn same(&self, other: &Self) -> (r: bool)
        ensures
            r == (self@ == other@),
    {
        self.0 == other.0
    }

    /// The identifier as an owned string.
    pub fn to_text(&self) -> (r: String)
        ensures
            r@ == self@,
    {
        self.0.clone()
    }
}

impl BookKey for AccountId {
    open spec fn key(&self) -> Seq<char> {
        self@
    }

    fn key_str(&self) -> (r: &str) {
        self.0.as_str()
    }

    fn duplicate(&self) -> (r: Self) {
        AccountId(self.0.clone())
    }
}

/// Identifier of a manual adjustment.
#[derive(Clone, Debug, PartialEq, Eq, PartialOrd, Ord, Hash)]
pub struct AdjustmentId(String);

impl View for AdjustmentId {
    type V = Seq<char>;

    closed spec fn view(&self) -> Seq<char> {
        self.0@
    }
}

impl AdjustmentId {
    /// The prefix of generated identifiers of this kind.
    pub open spec fn prefix() -> Seq<char> {
        "adj"@
    }

    pub fn new(value: &str) -> (r: Self)
        ensures
            r@ == value@,
    {
        AdjustmentId(String::from_str(value))
    }

    pub fn from_string(value: String) -> (r: Self)
        ensures
            r@ == value@,
    {
        AdjustmentId(value)
    }

    pub fn generated(sequence: u64) -> (r: Self)
        ensures
            r@ == generated_text(Self::prefix(), sequence),
    {
        AdjustmentId(generated_string("adj", sequence))
    }

    pub fn as_str(&self) -> (r: &str)
        ensures
            r@ == self@,
    {
        self.0.as_str()
    }

    /// Text equality of two identifiers.
    pub fn same(&self, other: &Self) -> (r: bool)
        ensures
            r == (self@ == other@),
    {
        self.0 == other.0
    }

    /// The identifier as an owned string.
    pub fn to_text(&self) -> (r: String)
        ensures
            r@ == self@,
    {
        self.0.clone()
    }
}

impl BookKey for AdjustmentId {
    open spec fn key(&self) -> Seq<char> {
        self@
    }

    fn key_str(&self) -> (r: &str) {
        self.0.as_str()
    }

    fn duplicate(&self) -> (r: Self) {
        AdjustmentId(self.0.clone())
    }
}

/// Identifier of a settlement or close batch.
#[derive(Clone, Debug, PartialEq, Eq, PartialOrd, Ord, Hash)]
pub struct BatchId(String);

impl View for BatchId {
    type V = Seq<char>;

    closed spec fn view(&self) -> Seq<char> {
        self.0@
    }
}

impl BatchId {
    /// The prefix of generated identifiers of this kind.
    pub open spec fn prefix() -> Seq<char> {
        "batch"@
    }

    pub fn new(value: &str) -> (r: Self)
        ensures
            r@ == value@,
    {
        BatchId(String::from_str(value))
    }

    pub fn from_string(value: String) -> (r: Self)
        ensures
            r@ == value@,
    {
        BatchId(value)
    }

    pub fn generated(sequence: u64) -> (r: Self)
        ensures
            r@ == generated_text(Self::prefix(), sequence),
    {
        BatchId(generated_string("batch", sequence))
    }

    pub fn as_str(&self) -> (r: &str)
        ensures
            r@ == self@,
    {
        self.0.as_str()
    }

    /// Text equality of two identifiers.
    pub fn same(&self, other: &Self) -> (r: bool)
        ensures
            r == (self@ == other@),
    {
        self.0 == other.0
    }

    /// The identifier as an owned string.
    pub fn to_text(&self) -> (r: String)
        ensures
            r@ == self@,
    {
        self.0.clone()
    }
}

impl BookKey for BatchId {
    open spec fn key(&self) -> Seq<char> {
        self@
    }

    fn key_str(&self) -> (r: &str) {
        self.0.as_str()
    }

    fn duplicate(&self) -> (r: Self) {
        BatchId(self.0.clone())
    }
}

/// Identifier of an invoice.
#[derive(Clone, Debug, PartialEq, Eq, PartialOrd, Ord, Hash)]
pub struct InvoiceId(String);

impl View for InvoiceId {
    type V = Seq<char>;

    closed spec fn view(&self) -> Seq<char> {
        self.0@
    }
}

impl InvoiceId {
    /// The prefix of generated identifiers of this kind.
    pub open spec fn prefix() -> Seq<char> {
        "inv"@
    }

    pub fn new(value: &str) -> (r: Self)
        ensures
            r@ == value@,
    {
        InvoiceId(String::from_str(value))
    }

    pub fn from_string(value: String) -> (r: Self)
        ensures
            r@ == value@,
    {
        InvoiceId(value)
    }

    pub fn generated(sequence: u64) -> (r: Self)
        ensures
            r@ == generated_text(Self::prefix(), sequence),
    {
        InvoiceId(generated_string("inv", sequence))
    }

    pub fn as_str(&self) -> (r: &str)
        ensures
            r@ == self@,
    {
        self.0.as_str()
    }

    /// Text equality of two identifiers.
    pub fn same(&self, other: &Self) -> (r: bool)
        ensures
            r == (self@ == other@),
    {
        self.0 == other.0
    }

    /// The identifier as an owned string.
    pub fn to_text(&self) -> (r: String)
        ensures
            r@ == self@,
    {
        self.0.clone()
    }
}

impl BookKey for InvoiceId {
    open spec fn key(&self) -> Seq<char> {
        self@
    }

    fn key_str(&self) -> (r: &str) {
        self.0.as_str()
    }

    fn duplicate(&self) -> (r: Self) {
        InvoiceId(self.0.clone())
    }
}

/// Identifier of a counterparty.
#[derive(Clone, Debug, PartialEq, Eq, PartialOrd, Ord, Hash)]
pub struct PartyId(String);

impl View for PartyId {
    type V = Seq<char>;

    closed spec fn view(&self) -> Seq<char> {
        self.0@
    }
}

impl PartyId {
    /// The prefix of generated identifiers of this kind.
    pub open spec fn prefix() -> Seq<char> {
        "party"@
    }

    pub fn new(value: &str) -> (r: Self)
        ensures
            r@ == value@,
    {
        PartyId(String::from_str(value))
    }

    pub fn from_string(value: String) -> (r: Self)
        ensures
            r@ == value@,
    {
        PartyId(value)
    }

    pub fn generated(sequence: u64) -> (r: Self)
        ensures
            r@ == generated_text(Self::prefix(), sequence),
    {
        PartyId(generated_string("party", sequence))
    }

    pub fn as_str(&self) -> (r: &str)
        ensures
            r@ == self@,
    {
        self.0.as_str()
    }

    /// Text equality of two identifiers.
    pub fn same(&self, other: &Self) -> (r: bool)
        ensures
            r == (self@ == other@),
    {
        self.0 == other.0
    }

    /// The identifier as an owned string.
    pub fn to_text(&self) -> (r: String)
        ensures
            r@ == self@,
    {
        self.0.clone()
    }
}

impl BookKey for PartyId {
    open spec fn key(&self) -> Seq<char> {
        self@
    }

    fn key_str(&self) -> (r: &str) {
        self.0.as_str()
    }

    fn duplicate(&self) -> (r: Self) {
        PartyId(self.0.clone())
    }
}

/// Identifier of a settlement receipt.
#[derive(Clone, Debug, PartialEq, Eq, PartialOrd, Ord, Hash)]
pub struct ReceiptId(String);

impl View for ReceiptId {
    type V = Seq<char>;

    closed spec fn view(&self) -> Seq<char> {
        self.0@
    }
}

impl ReceiptId {
    /// The prefix of generated identifiers of this kind.
    pub open spec fn prefix() -> Seq<char> {
        "rcpt"@
    }

    pub fn new(value: &str) -> (r: Self)
        ensures
            r@ == value@,
    {
        ReceiptId(String::from_str(value))
    }

    pub fn from_string(value: String) -> (r: Self)
        ensures
            r@ == value@,
    {
        ReceiptId(value)
    }

    pub fn generated(sequence: u64) -> (r: Self)
        ensures
            r@ == generated_text(Self::prefix(), sequence),
    {
        ReceiptId(generated_string("rcpt", sequence))
    }

    pub fn as_str(&self) -> (r: &str)
        ensures
            r@ == self@,
    {
        self.0.as_str()
    }

    /// Text equality of two identifiers.
    pub fn same(&self, other: &Self) -> (r: bool)
        ensures
            r == (self@ == other@),
    {
        self.0 == other.0
    }

    /// The identifier as an owned string.
    pub fn to_text(&self) -> (r: String)
        ensures
            r@ == self@,
    {
        self.0.clone()
    }
}

impl BookKey for ReceiptId {
    open spec fn key(&self) -> Seq<char> {
        self@
    }

    fn key_str(&self) -> (r: &str) {
        self.0.as_str()
    }

    fn duplicate(&self) -> (r: Self) {
        ReceiptId(self.0.clone())
    }
}

/// Identifier of a settlement claim.
#[derive(Clone, Debug, PartialEq, Eq, PartialOrd, Ord, Hash)]
pub struct SettlementId(String);

impl View for SettlementId {
    type V = Seq<char>;

    closed spec fn view(&self) -> Seq<char> {
        self.0@
    }
}

impl SettlementId {
    /// The prefix of generated identifiers of this kind.
    pub open spec fn prefix() -> Seq<char> {
        "set"@
    }

    pub fn new(value: &str) -> (r: Self)
        ensures
            r@ == value@,
    {
        SettlementId(String::from_str(value))
    }

    pub fn from_string(value: String) -> (r: Self)
        ensures
            r@ == value@,
    {
        SettlementId(value)
    }

    pub fn generated(sequence: u64) -> (r: Self)
        ensures
            r@ == generated_text(Self::prefix(), sequence),
    {
        SettlementId(generated_string("set", sequence))
    }

    pub fn as_str(&self) -> (r: &str)
        ensures
            r@ == self@,
    {
        self.0.as_str()
    }

    /// Text equality of two identifiers.
    pub fn same(&self, other: &Self) -> (r: bool)
        ensures
            r == (self@ == other@),
    {
        self.0 == other.0
    }

    /// The identifier as an owned string.
    pub fn to_text(&self) -> (r: String)
        ensures
            r@ == self@,
    {
        self.0.clone()
    }
}

impl BookKey for SettlementId {
    open spec fn key(&self) -> Seq<char> {
        self@
    }

    fn key_str(&self) -> (r: &str) {
        self.0.as_str()
    }

    fn duplicate(&self) -> (r: Self) {
        SettlementId(self.0.clone())
    }
}

/// Identifier of a journal transaction.
#[derive(Clone, Debug, PartialEq, Eq, PartialOrd, Ord, Hash)]
pub struct TxId(String);

impl View for TxId {
    type V = Seq<char>;

    closed spec fn view(&self) -> Seq<char> {
        self.0@
    }
}

impl TxId {
    /// The prefix of generated identifiers of this kind.
    pub open spec fn prefix() -> Seq<char> {
        "tx"@
    }

    pub fn new(value: &str) -> (r: Self)
        ensures
            r@ == value@,
    {
        TxId(String::from_str(value))
    }

    pub fn from_string(value: String) -> (r: Self)
        ensures
            r@ == value@,
    {
        TxId(value)
    }

    pub fn generated(sequence: u64) -> (r: Self)
        ensures
            r@ == generated_text(Self::prefix(), sequence),
    {
        TxId(generated_string("tx", sequence))
    }

    pub fn as_str(&self) -> (r: &str)
        ensures
            r@ == self@,
    {
        self.0.as_str()
    }

    /// Text equality of two identifiers.
    pub fn same(&self, other: &Self) -> (r: bool)
        ensures
            r == (self@ == other@),
    {
        self.0 == other.0
    }

    /// The identifier as an owned string.
    pub fn to_text(&self) -> (r: String)
        ensures
            r@ == self@,
    {
        self.0.clone()
    }
}

impl BookKey for TxId {
    open spec fn key(&self) -> Seq<char> {
        self@
    }

    fn key_str(&self) -> (r: &str) {
        self.0.as_str()
    }

    fn duplicate(&self) -> (r: Self) {
        TxId(self.0.clone())
    }
}

} // verus!
