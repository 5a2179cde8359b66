//! Money in cents, basis points, ratios and weighted allocations.
use vstd::prelude::*;

use crate::error::{SableError, SableResult};
use crate::text::{decimal, push_decimal, push_zero_padded, zero_pad};

verus! {

/// Whether an integer is representable as an `i64`.
pub open spec fn fits_i64(x: int) -> bool {
    i64::MIN <= x <= i64::MAX
}

pub open spec fn abs(x: int) -> int {
    if x < 0 {
        -x
    } else {
        x
    }
}

/// Integer division rounding toward zero, as Rust's `/` on signed integers.
pub open spec fn trunc_div(a: int, b: int) -> int {
    if b == 0 {
        0
    } else if (a >= 0 && b > 0) || (a < 0 && b < 0) {
        abs(a) / abs(b)
    } else {
        -(abs(a) / abs(b))
    }
}

/// Division of `n` by `d` rounding to the nearest integer, halves away from zero
/// when `d` is positive.
pub open spec fn round_div(n: int, d: int) -> int {
    if n >= 0 {
        trunc_div(n + trunc_div(d, 2), d)
    } else {
        trunc_div(n - trunc_div(d, 2), d)
    }
}

/// `amount * numerator / denominator`, rounded to the nearest cent.
pub open spec fn scaled(amount: int, numerator: int, denominator: int) -> int {
    round_div(amount * numerator, denominator)
}

/// The rendering of an amount of cents as major units with two decimals.
pub open spec fn money_text(cents: int) -> Seq<char> {
    (if cents < 0 {
        seq!['-']
    } else {
        Seq::<char>::empty()
    }) + decimal((abs(cents) / 100) as nat) + seq!['.'] + zero_pad(
        decimal((abs(cents) % 100) as nat),
        2,
    )
}

fn trunc_div_exec(a: i128, b: i128) -> (q: i128)
    requires
        b != 0,
        a > i128::MIN,
        b > i128::MIN,
    ensures
        q == trunc_div(a as int, b as int),
{
    let ua: u128 = if a < 0 {
        (-a) as u128
    } else {
        a as u128
    };
    let ub: u128 = if b < 0 {
        (-b) as u128
    } else {
        b as u128
    };
    let uq = ua / ub;
    assert(uq <= ua) by (nonlinear_arith)
        requires
            uq == ua / ub,
            ub >= 1,
    ;
    if (a >= 0 && b > 0) || (a < 0 && b < 0) {
        uq as i128
    } else {
        -(uq as i128)
    }
}

fn div_round_nearest(numerator: i128, denominator: i128) -> (r: i128)
    requires
        denominator != 0,
        -0x4000_0000_0000_0000_0000_0000_0000_0000 <= numerator <= 0x4000_0000_0000_0000_0000_0000_0000_0000,
        -0x1_0000_0000_0000_0000 <= denominator <= 0x1_0000_0000_0000_0000,
    ensures
        r == round_div(numerator as int, denominator as int),
{
    let half = trunc_div_exec(denominator, 2);
    assert(abs(half as int) <= abs(denominator as int)) by (nonlinear_arith)
        requires
            half == trunc_div(denominator as int, 2),
    ;
    if numerator >= 0 {
        trunc_div_exec(numerator + half, denominator)
    } else {
        trunc_div_exec(numerator - half, denominator)
    }
}

/// An amount of money, counted in cents.
#[derive(Clone, Copy, Debug, PartialEq, Eq, Structural, PartialOrd, Ord, Hash)]
pub struct Money {
    pub cents: i64,
}

impl View for Money {
    type V = int;

    open spec fn view(&self) -> int {
        self.cents as int
    }
}

impl Default for Money {
    fn default() -> (r: Money)
        ensures
            r.cents == 0,
    {
        Money { cents: 0 }
    }
}

impl Money {
    /// No money.
    pub fn zero() -> (r: Money)
        ensures
            r.cents == 0,
    {
        Money { cents: 0 }
    }

    pub fn from_cents(cents: i64) -> (r: Money)
        ensures
            r.cents == cents,
    {
        Money { cents }
    }

    pub fn cents(self) -> (r: i64)
        ensures
            r == self.cents,
    {
        self.cents
    }

    /// Whole units times one hundred, saturating at the bounds of `i64`.
    pub fn dollars(units: i64) -> (r: Money)
        ensures
            r@ == if units * 100 > i64::MAX {
                i64::MAX as int
            } else if units * 100 < i64::MIN {
                i64::MIN as int
            } else {
                units * 100
            },
    {
        if units > i64::MAX / 100 {
            Money { cents: i64::MAX }
        } else if units < i64::MIN / 100 {
            Money { cents: i64::MIN }
        } else {
            Money { cents: units * 100 }
        }
    }

    pub fn checked_add(self, other: Money) -> (r: SableResult<Money>)
        ensures
            fits_i64(self@ + other@) ==> r == Ok::<Money, SableError>(
                Money { cents: (self@ + other@) as i64 },
            ),
            !fits_i64(self@ + other@) ==> r == Err::<Money, SableError>(
                SableError::ArithmeticOverflow,
            ),
    {
        match self.cents.checked_add(other.cents) {
            Some(c) => Ok(Money { cents: c }),
            None => Err(SableError::ArithmeticOverflow),
        }
    }

    pub fn checked_sub(self, other: Money) -> (r: SableResult<Money>)
        ensures
            fits_i64(self@ - other@) ==> r == Ok::<Money, SableError>(
                Money { cents: (self@ - other@) as i64 },
            ),
            !fits_i64(self@ - other@) ==> r == Err::<Money, SableError>(
                SableError::ArithmeticOverflow,
            ),
    {
        match self.cents.checked_sub(other.cents) {
            Some(c) => Ok(Money { cents: c }),
            None => Err(SableError::ArithmeticOverflow),
        }
    }

    pub fn checked_mul_i64(self, factor: i64) -> (r: SableResult<Money>)
        ensures
            fits_i64(self@ * factor) ==> r == Ok::<Money, SableError>(
                Money { cents: (self@ * factor) as i64 },
            ),
            !fits_i64(self@ * factor) ==> r == Err::<Money, SableError>(
                SableError::ArithmeticOverflow,
            ),
    {
        match self.cents.checked_mul(factor) {
            Some(c) => Ok(Money { cents: c }),
            None => Err(SableError::ArithmeticOverflow),
        }
    }

    pub fn checked_abs(self) -> (r: SableResult<Money>)
        ensures
            fits_i64(abs(self@)) ==> r == Ok::<Money, SableError>(
                Money { cents: abs(self@) as i64 },
            ),
            !fits_i64(abs(self@)) ==> r == Err::<Money, SableError>(
                SableError::ArithmeticOverflow,
            ),
    {
        if self.cents == i64::MIN {
            Err(SableError::ArithmeticOverflow)
        } else if self.cents < 0 {
            Ok(Money { cents: -self.cents })
        } else {
            Ok(self)
        }
    }

    pub fn min(self, other: Money) -> (r: Money)
        ensures
            r == if self@ <= other@ {
                self
            } else {
                other
            },
    {
        if self.cents <= other.cents {
            self
        } else {
            other
        }
    }

    pub fn max(self, other: Money) -> (r: Money)
        ensures
            r == if self@ >= other@ {
                self
            } else {
                other
            },
    {
        if self.cents >= other.cents {
            self
        } else {
            other
        }
    }

    pub fn is_zero(self) -> (r: bool)
        ensures
            r == (self@ == 0),
    {
        self.cents == 0
    }

    pub fn is_positive(self) -> (r: bool)
        ensures
            r == (self@ > 0),
    {
        self.cents > 0
    }

    pub fn is_negative(self) -> (r: bool)
        ensures
            r == (self@ < 0),
    {
        self.cents < 0
    }

    /// `self - other`, saturated to `i64` and then raised to zero when negative.
    pub fn saturating_sub_floor_zero(self, other: Money) -> (r: Money)
        ensures
            r@ == if self@ - other@ <= 0 {
                0
            } else if self@ - other@ > i64::MAX {
                i64::MAX as int
            } else {
                self@ - other@
            },
    {
        let d = (self.cents as i128) - (other.cents as i128);
        if d <= 0 {
            Money { cents: 0 }
        } else if d > i64::MAX as i128 {
            Money { cents: i64::MAX }
        } else {
            Money { cents: d as i64 }
        }
    }

    /// The amount scaled by basis points, rounded to the nearest cent.
    pub fn apply_bps(self, bps: Bps) -> (r: SableResult<Money>)
        ensures
            fits_i64(scaled(self@, bps@ as int, 10000)) ==> r == Ok::<Money, SableError>(
                Money { cents: scaled(self@, bps@ as int, 10000) as i64 },
            ),
            !fits_i64(scaled(self@, bps@ as int, 10000)) ==> r == Err::<Money, SableError>(
                SableError::ArithmeticOverflow,
            ),
    {
        let v = bps.value();
        assert(-0x4000_0000_0000_0000_0000_0000_0000_0000 <= (self.cents as int) * (v as int)
            <= 0x4000_0000_0000_0000_0000_0000_0000_0000) by (nonlinear_arith)
            requires
                i64::MIN <= self.cents <= i64::MAX,
                0 <= v <= u16::MAX,
        ;
        let numerator = (self.cents as i128) * (v as i128);
        let rounded = div_round_nearest(numerator, 10000);
        if rounded < i64::MIN as i128 || rounded > i64::MAX as i128 {
            Err(SableError::ArithmeticOverflow)
        } else {
            Ok(Money { cents: rounded as i64 })
        }
    }

    /// The amount times `numerator / denominator`, rounded to the nearest cent.
    pub fn percent_of(self, numerator: i64, denominator: i64) -> (r: SableResult<Money>)
        ensures
            denominator == 0 ==> r == Err::<Money, SableError>(SableError::InvalidRatio),
            denominator != 0 && fits_i64(scaled(self@, numerator as int, denominator as int))
                ==> r == Ok::<Money, SableError>(
                Money { cents: scaled(self@, numerator as int, denominator as int) as i64 },
            ),
            denominator != 0 && !fits_i64(scaled(self@, numerator as int, denominator as int))
                ==> r == Err::<Money, SableError>(SableError::ArithmeticOverflow),
    {
        if denominator == 0 {
            return Err(SableError::InvalidRatio);
        }
        assert(-0x4000_0000_0000_0000_0000_0000_0000_0000 <= (self.cents as int) * (
        numerator as int) <= 0x4000_0000_0000_0000_0000_0000_0000_0000) by (nonlinear_arith)
            requires
                i64::MIN <= self.cents <= i64::MAX,
                i64::MIN <= numerator <= i64::MAX,
        ;
        let raw = (self.cents as i128) * (numerator as i128);
        let rounded = div_round_nearest(raw, denominator as i128);
        if rounded < i64::MIN as i128 || rounded > i64::MAX as i128 {
            Err(SableError::ArithmeticOverflow)
        } else {
            Ok(Money { cents: rounded as i64 })
        }
    }

    /// Major units with two decimals, such as `-12.05`.
    pub fn format_major(self) -> (r: String)
        ensures
            r@ == money_text(self@),
    {
        let mut out = String::new();
        if self.cents < 0 {
            proof {
                reveal_strlit("-");
            }
            out.append("-");
        }
        let magnitude: u128 = if self.cents < 0 {
            (-(self.cents as i128)) as u128
        } else {
            self.cents as u128
        };
        push_decimal(&mut out, magnitude / 100);
        proof {
            reveal_strlit(".");
        }
        out.append(".");
        push_zero_padded(&mut out, magnitude % 100, 2);
        assert(out@ =~= money_text(self@));
        out
    }
}

/// Basis points: hundredths of a percent, from 0 to 10 000.
#[derive(Clone, Copy, Debug, PartialEq, Eq, Structural, PartialOrd, Ord, Hash)]
pub struct Bps(u16);

impl View for Bps {
    type V = u16;

    closed spec fn view(&self) -> u16 {
        self.0
    }
}

impl Bps {
    #[verifier::type_invariant]
    spec fn within_full(self) -> bool {
        self.0 <= 10000
    }

    pub fn zero() -> (r: Bps)
        ensures
            r@ == 0,
    {
        Bps(0)
    }

    pub fn one_percent() -> (r: Bps)
        ensures
            r@ == 100,
    {
        Bps(100)
    }

    pub fn full() -> (r: Bps)
        ensures
            r@ == 10000,
    {
        Bps(10000)
    }

    pub fn new(value: u16) -> (r: SableResult<Bps>)
        ensures
            value <= 10000 ==> (r matches Ok(b) && b@ == value),
            value > 10000 ==> r == Err::<Bps, SableError>(SableError::InvalidBasisPoints(value)),
    {
        if value <= 10000 {
            Ok(Bps(value))
        } else {
            Err(SableError::InvalidBasisPoints(value))
        }
    }

    /// The rate as text, such as `25 bps`.
    pub fn to_text(self) -> (r: String)
        ensures
            r@ == decimal(self@ as nat) + " bps"@,
    {
        let mut r = String::new();
        push_decimal(&mut r, self.0 as u128);
        r.append(" bps");
        assert(r@ =~= decimal(self@ as nat) + " bps"@);
        r
    }

    pub fn value(self) -> (r: u16)
        ensures
            r == self@,
            r <= 10000,
    {
        proof {
            use_type_invariant(self);
        }
        self.0
    }

    pub fn checked_add(self, other: Bps) -> (r: SableResult<Bps>)
        ensures
            self@ + other@ <= 10000 ==> (r matches Ok(b) && b@ == self@ + other@),
            self@ + other@ > 10000 ==> r == Err::<Bps, SableError>(
                SableError::InvalidBasisPoints((self@ + other@) as u16),
            ),
    {
        let a = self.value();
        let b = other.value();
        match a.checked_add(b) {
            Some(sum) => Bps::new(sum),
            None => Err(SableError::ArithmeticOverflow),
        }
    }

    pub fn checked_sub(self, other: Bps) -> (r: SableResult<Bps>)
        ensures
            other@ > self@ ==> r == Err::<Bps, SableError>(SableError::InvalidRatio),
            other@ <= self@ ==> (r matches Ok(b) && b@ == self@ - other@),
    {
        let a = self.value();
        let b = other.value();
        if b > a {
            return Err(SableError::InvalidRatio);
        }
        Bps::new(a - b)
    }
}

/// A fraction with a nonzero denominator.
#[derive(Clone, Copy, Debug, PartialEq, Eq, Structural)]
pub struct Ratio {
    numerator: i64,
    denominator: i64,
}

impl View for Ratio {
    type V = (i64, i64);

    closed spec fn view(&self) -> (i64, i64) {
        (self.numerator, self.denominator)
    }
}

impl Ratio {
    #[verifier::type_invariant]
    spec fn nonzero_denominator(self) -> bool {
        self.denominator != 0
    }

    pub fn new(numerator: i64, denominator: i64) -> (r: SableResult<Ratio>)
        ensures
            denominator == 0 ==> r == Err::<Ratio, SableError>(SableError::InvalidRatio),
            denominator != 0 ==> (r matches Ok(q) && q@ == (numerator, denominator)),
    {
        if denominator == 0 {
            return Err(SableError::InvalidRatio);
        }
        Ok(Ratio { numerator, denominator })
    }

    pub fn numerator(self) -> (r: i64)
        ensures
            r == self@.0,
    {
        self.numerator
    }

    pub fn denominator(self) -> (r: i64)
        ensures
            r == self@.1,
            r != 0,
    {
        proof {
            use_type_invariant(self);
        }
        self.denominator
    }

    /// The amount times the ratio, rounded to the nearest cent.
    pub fn apply(self, amount: Money) -> (r: SableResult<Money>)
        ensures
            fits_i64(scaled(amount@, self@.0 as int, self@.1 as int)) ==> r == Ok::<
                Money,
                SableError,
            >(Money { cents: scaled(amount@, self@.0 as int, self@.1 as int) as i64 }),
            !fits_i64(scaled(amount@, self@.0 as int, self@.1 as int)) ==> r == Err::<
                Money,
                SableError,
            >(SableError::ArithmeticOverflow),
    {
        let d = self.denominator();
        amount.percent_of(self.numerator, d)
    }
}

/// A labelled share of an allocated total.
#[derive(Clone, Debug, PartialEq, Eq)]
pub struct Allocation {
    pub label: String,
    pub amount: Money,
}

impl Allocation {
    pub fn new(label: String, amount: Money) -> (r: Allocation)
        ensures
            r.label == label,
            r.amount == amount,
    {
        Allocation { label, amount }
    }
}

/// Sum of the first `n` values of a sequence.
pub open spec fn sum_first(s: Seq<int>, n: nat) -> int
    decreases n,
{
    if n == 0 || n > s.len() {
        0
    } else {
        sum_first(s, (n - 1) as nat) + s[n - 1]
    }
}

/// Adding half the divisor and dividing down lands within half a divisor of `m`, and an
/// exact half goes up.
proof fn lemma_half_up_nearest(m: int, d: int)
    requires
        m >= 0,
        d > 0,
    ensures
        2 * m - d < 2 * (((m + d / 2) / d) * d) <= 2 * m + d,
{
    let h = d / 2;
    let q = (m + h) / d;
    vstd::arithmetic::div_mod::lemma_fundamental_div_mod(m + h, d);
    vstd::arithmetic::div_mod::lemma_mod_pos_bound(m + h, d);
    vstd::arithmetic::mul::lemma_mul_is_commutative(d, q);
    let r = (m + h) % d;
    assert(m + h == q * d + r);
    assert(2 * h == d || 2 * h == d - 1);
}

/// Rounding to the nearest: `round_div(n, d)` times `d` lies within half of `d` of `n`, and
/// an exact half rounds away from zero.
pub proof fn lemma_round_div_nearest(n: int, d: int)
    requires
        d > 0,
    ensures
        n >= 0 ==> 2 * n - d < 2 * (round_div(n, d) * d) <= 2 * n + d,
        n < 0 ==> 2 * n - d <= 2 * (round_div(n, d) * d) < 2 * n + d,
{
    assert(trunc_div(d, 2) == d / 2);
    if n >= 0 {
        assert(round_div(n, d) == (n + d / 2) / d);
        lemma_half_up_nearest(n, d);
    } else {
        let m = -n;
        assert(round_div(n, d) == -((m + d / 2) / d));
        lemma_half_up_nearest(m, d);
        vstd::arithmetic::mul::lemma_mul_unary_negation((m + d / 2) / d, d);
    }
}

/// Scaling by a fraction rounds `amount * numerator / denominator` to the nearest whole cent,
/// halves away from zero; scaling by a whole (`numerator == denominator`) leaves the amount
/// as it is, and scaling by nothing gives nothing.
pub proof fn lemma_scaled_nearest(amount: int, numerator: int, denominator: int)
    requires
        denominator > 0,
    ensures
        amount * numerator >= 0 ==> 2 * (amount * numerator) - denominator < 2 * (scaled(
            amount,
            numerator,
            denominator,
        ) * denominator) <= 2 * (amount * numerator) + denominator,
        amount * numerator < 0 ==> 2 * (amount * numerator) - denominator <= 2 * (scaled(
            amount,
            numerator,
            denominator,
        ) * denominator) < 2 * (amount * numerator) + denominator,
        scaled(amount, denominator, denominator) == amount,
        scaled(amount, 0, denominator) == 0,
{
    lemma_round_div_nearest(amount * numerator, denominator);
    lemma_round_div_nearest(amount * denominator, denominator);
    lemma_round_div_nearest(0, denominator);
    let q = scaled(amount, denominator, denominator);
    assert(q == amount) by (nonlinear_arith)
        requires
            denominator > 0,
            amount * denominator >= 0 ==> 2 * (amount * denominator) - denominator < 2 * (q
                * denominator) <= 2 * (amount * denominator) + denominator,
            amount * denominator < 0 ==> 2 * (amount * denominator) - denominator <= 2 * (q
                * denominator) < 2 * (amount * denominator) + denominator,
    ;
    let z = scaled(amount, 0, denominator);
    assert(amount * 0 == 0);
    assert(z == 0) by (nonlinear_arith)
        requires
            denominator > 0,
            -denominator < 2 * (z * denominator) <= denominator,
    ;
}

/// A negative amount reads as the amount of the same size with a minus sign in front, and a
/// non-negative amount never starts with one.
pub proof fn lemma_money_text_sign(c: int)
    ensures
        c > 0 ==> money_text(-c) == seq!['-'] + money_text(c),
        c >= 0 ==> money_text(c).len() > 0 && money_text(c)[0] != '-',
{
    if c > 0 {
        assert(abs(-c) == abs(c));
        assert(money_text(-c) =~= seq!['-'] + money_text(c));
    }
    if c >= 0 {
        crate::text::lemma_decimal_starts_with_digit((abs(c) / 100) as nat);
        assert(money_text(c)[0] == decimal((abs(c) / 100) as nat)[0]);
    }
}

pub proof fn lemma_sum_first_bounded(s: Seq<int>, b: int, n: nat)
    requires
        0 <= b,
        n <= s.len(),
        forall|i: int| 0 <= i < s.len() ==> -b <= #[trigger] s[i] <= b,
    ensures
        -(n * b) <= sum_first(s, n) <= n * b,
    decreases n,
{
    if n > 0 {
        lemma_sum_first_bounded(s, b, (n - 1) as nat);
        let m: int = n - 1;
        assert(m * b + b == n * b) by (nonlinear_arith)
            requires
                m == n - 1,
        ;
    }
}

/// A short sequence of small numbers has every running sum within `i64`.
pub proof fn lemma_small_running_sums(s: Seq<int>, b: int)
    requires
        0 <= b <= 1_000_000_000_000_000,
        s.len() <= 1000,
        forall|i: int| 0 <= i < s.len() ==> -b <= #[trigger] s[i] <= b,
    ensures
        running_sums_fit(s),
{
    assert forall|k: nat| 1 <= k <= s.len() implies fits_i64(#[trigger] sum_first(s, k)) by {
        lemma_sum_first_bounded(s, b, k);
        assert(k * b <= 1_000_000_000_000_000_000) by (nonlinear_arith)
            requires
                k <= 1000,
                0 <= b <= 1_000_000_000_000_000,
        ;
    }
}

/// Sum of a sequence.
pub open spec fn seq_sum(s: Seq<int>) -> int {
    sum_first(s, s.len())
}

proof fn lemma_sum_first_update(s: Seq<int>, i: int, v: int, n: nat)
    requires
        0 <= i < s.len(),
        n <= s.len(),
    ensures
        sum_first(s.update(i, v), n) == sum_first(s, n) + if i < n {
            v - s[i]
        } else {
            0
        },
    decreases n,
{
    if n > 0 {
        lemma_sum_first_update(s, i, v, (n - 1) as nat);
    }
}

/// Replacing one element changes the sum by the difference.
pub proof fn lemma_sum_update(s: Seq<int>, i: int, v: int)
    requires
        0 <= i < s.len(),
    ensures
        seq_sum(s.update(i, v)) == seq_sum(s) - s[i] + v,
{
    lemma_sum_first_update(s, i, v, s.len());
}

pub proof fn lemma_sum_first_same_prefix(a: Seq<int>, b: Seq<int>, n: nat)
    requires
        n <= a.len(),
        n <= b.len(),
        forall|j: int| 0 <= j < n ==> a[j] == b[j],
    ensures
        sum_first(a, n) == sum_first(b, n),
    decreases n,
{
    if n > 0 {
        lemma_sum_first_same_prefix(a, b, (n - 1) as nat);
    }
}

proof fn lemma_sum_first_insert(s: Seq<int>, p: int, v: int, n: nat)
    requires
        0 <= p <= n <= s.len(),
    ensures
        sum_first(s.insert(p, v), (n + 1) as nat) == sum_first(s, n) + v,
    decreases n,
{
    let t = s.insert(p, v);
    if n == p {
        lemma_sum_first_same_prefix(t, s, n);
    } else {
        lemma_sum_first_insert(s, p, v, (n - 1) as nat);
    }
}

/// The sum of a difference is the difference of the sums.
pub proof fn lemma_sum_split(a: Seq<int>, b: Seq<int>, c: Seq<int>)
    requires
        a.len() == b.len(),
        b.len() == c.len(),
        forall|i: int| 0 <= i < c.len() ==> a[i] - b[i] == #[trigger] c[i],
    ensures
        seq_sum(a) - seq_sum(b) == seq_sum(c),
{
    lemma_sum_first_split(a, b, c, c.len());
}

proof fn lemma_sum_first_split(a: Seq<int>, b: Seq<int>, c: Seq<int>, n: nat)
    requires
        a.len() == b.len(),
        b.len() == c.len(),
        n <= c.len(),
        forall|i: int| 0 <= i < c.len() ==> a[i] - b[i] == #[trigger] c[i],
    ensures
        sum_first(a, n) - sum_first(b, n) == sum_first(c, n),
    decreases n,
{
    if n > 0 {
        lemma_sum_first_split(a, b, c, (n - 1) as nat);
        assert(a[n - 1] - b[n - 1] == c[n - 1]);
    }
}

/// The sum of a nonempty sequence is the sum of all but its last element, plus that element.
pub proof fn lemma_seq_sum_drop_last(s: Seq<int>)
    requires
        s.len() > 0,
    ensures
        seq_sum(s) == seq_sum(s.drop_last()) + s.last(),
{
    lemma_sum_first_same_prefix(s, s.drop_last(), (s.len() - 1) as nat);
}

/// One more element of a filtered sum: the sum grows by its value and stays a running sum
/// of the whole filtered sequence.
pub proof fn lemma_filtered_running_sum<A>(
    s: Seq<A>,
    p: spec_fn(A) -> bool,
    val: spec_fn(A) -> int,
    i: int,
)
    requires
        0 <= i < s.len(),
        p(s[i]),
        running_sums_fit(s.filter(p).map_values(val)),
    ensures
        seq_sum(s.take(i + 1).filter(p).map_values(val)) == seq_sum(
            s.take(i).filter(p).map_values(val),
        ) + val(s[i]),
        fits_i64(seq_sum(s.take(i + 1).filter(p).map_values(val))),
{
    crate::keyed::lemma_filter_take_step(s, p, i);
    let g = s.take(i + 1).filter(p);
    let gv = g.map_values(val);
    assert(g.len() > 0);
    assert(gv.drop_last() =~= s.take(i).filter(p).map_values(val));
    lemma_seq_sum_drop_last(gv);
    crate::keyed::lemma_filter_split(s, p, i + 1);
    let f = s.filter(p);
    let fv = f.map_values(val);
    assert forall|j: int| 0 <= j < gv.len() implies fv[j] == gv[j] by {
        assert(f[j] == g[j]);
    }
    lemma_sum_first_same_prefix(fv, gv, gv.len());
    assert(fits_i64(sum_first(fv, gv.len())));
}

/// Appending a value adds it to the sum, and keeps the running sums in `i64`
/// when the new sum is.
pub proof fn lemma_push_running(s: Seq<int>, v: int)
    requires
        running_sums_fit(s),
    ensures
        seq_sum(s.push(v)) == seq_sum(s) + v,
        fits_i64(seq_sum(s) + v) ==> running_sums_fit(s.push(v)),
{
    let t = s.push(v);
    lemma_sum_first_same_prefix(t, s, s.len());
    assert forall|k: nat| 1 <= k <= t.len() && fits_i64(seq_sum(s) + v) implies fits_i64(
        #[trigger] sum_first(t, k),
    ) by {
        if k < t.len() {
            lemma_sum_first_same_prefix(t, s, k);
        }
    }
}

/// A prefix whose sum leaves `i64` keeps the whole sequence's running sums from fitting.
pub proof fn lemma_prefix_overflows(s: Seq<int>, t: Seq<int>)
    requires
        t.len() <= s.len(),
        forall|j: int| 0 <= j < t.len() ==> t[j] == s[j],
        !fits_i64(seq_sum(t)),
    ensures
        !running_sums_fit(s),
{
    lemma_sum_first_same_prefix(s, t, t.len());
    assert(t.len() >= 1);
    assert(!fits_i64(sum_first(s, t.len())));
}

/// Inserting an element adds it to the sum.
pub proof fn lemma_sum_insert(s: Seq<int>, p: int, v: int)
    requires
        0 <= p <= s.len(),
    ensures
        seq_sum(s.insert(p, v)) == seq_sum(s) + v,
{
    lemma_sum_first_insert(s, p, v, s.len());
}

/// Whether every running sum of a sequence, taken left to right, fits in `i64`.
pub open spec fn running_sums_fit(s: Seq<int>) -> bool {
    forall|k: nat| 1 <= k <= s.len() ==> fits_i64(#[trigger] sum_first(s, k))
}

/// The weights of a weight table.
pub open spec fn weight_values(ws: Seq<(String, i64)>) -> Seq<int> {
    ws.map_values(|w: (String, i64)| w.1 as int)
}

/// The amount of row `i` when `allocated` has been handed out before it.
pub open spec fn allocation_row(
    total: int,
    ws: Seq<int>,
    den: int,
    i: int,
    allocated: int,
) -> Option<int> {
    if i + 1 == ws.len() {
        Some(total - allocated)
    } else if fits_i64(scaled(total, ws[i], den)) {
        Some(scaled(total, ws[i], den))
    } else {
        None
    }
}

/// The allocation of the first `k` rows: whether every share could be computed,
/// what was handed out, and the amounts.
pub open spec fn allocation_prefix(total: int, ws: Seq<int>, den: int, k: nat) -> (
    bool,
    int,
    Seq<int>,
)
    decreases k,
{
    if k == 0 {
        (true, 0, Seq::empty())
    } else {
        let (ok, allocated, amounts) = allocation_prefix(total, ws, den, (k - 1) as nat);
        if !ok {
            (false, allocated, amounts)
        } else {
            match allocation_row(total, ws, den, k - 1, allocated) {
                Some(x) => (true, allocated + x, amounts.push(x)),
                None => (false, allocated, amounts),
            }
        }
    }
}

/// Whether allocating the first `k` rows leaves the range of `i64` in its running total.
pub open spec fn allocation_overflows(total: int, ws: Seq<int>, den: int, k: nat) -> bool
    decreases k,
{
    if k == 0 {
        false
    } else {
        let (ok, allocated, amounts) = allocation_prefix(total, ws, den, (k - 1) as nat);
        allocation_overflows(total, ws, den, (k - 1) as nat) || (ok && match allocation_row(
            total,
            ws,
            den,
            k - 1,
            allocated,
        ) {
            Some(x) => !fits_i64(x) || !fits_i64(allocated + x),
            None => false,
        })
    }
}

proof fn lemma_allocation_prefix_facts(total: int, ws: Seq<int>, den: int, k: nat)
    ensures
        ({
            let (ok, allocated, amounts) = allocation_prefix(total, ws, den, k);
            &&& ok ==> amounts.len() == k
            &&& ok ==> allocated == seq_sum(amounts)
            &&& amounts.len() <= k
        }),
    decreases k,
{
    if k > 0 {
        lemma_allocation_prefix_facts(total, ws, den, (k - 1) as nat);
        let (ok, allocated, amounts) = allocation_prefix(total, ws, den, (k - 1) as nat);
        if ok {
            match allocation_row(total, ws, den, k - 1, allocated) {
                Some(x) => {
                    let a2 = amounts.push(x);
                    assert(sum_first(a2, (a2.len() - 1) as nat) == sum_first(
                        amounts,
                        amounts.len(),
                    )) by {
                        lemma_sum_first_push(amounts, x, amounts.len());
                    }
                },
                None => {},
            }
        }
    }
}

proof fn lemma_sum_first_push(s: Seq<int>, x: int, n: nat)
    requires
        n <= s.len(),
    ensures
        sum_first(s.push(x), n) == sum_first(s, n),
    decreases n,
{
    if n > 0 {
        lemma_sum_first_push(s, x, (n - 1) as nat);
    }
}

proof fn lemma_overflow_monotone(total: int, ws: Seq<int>, den: int, k: nat, n: nat)
    requires
        k <= n,
        !allocation_overflows(total, ws, den, n),
    ensures
        !allocation_overflows(total, ws, den, k),
    decreases n - k,
{
    if k < n {
        lemma_overflow_monotone(total, ws, den, k, (n - 1) as nat);
    }
}

proof fn lemma_ok_monotone(total: int, ws: Seq<int>, den: int, k: nat, n: nat)
    requires
        k <= n,
        allocation_prefix(total, ws, den, n).0,
    ensures
        allocation_prefix(total, ws, den, k).0,
    decreases n - k,
{
    if k < n {
        lemma_ok_monotone(total, ws, den, k, (n - 1) as nat);
    }
}

/// Splits `total` among weighted labels; the last label takes the remainder, so the
/// shares add up to the total.
pub fn allocate_by_weights(total: Money, weights: &[(String, i64)]) -> (r: SableResult<
    Vec<Allocation>,
>)
    requires
        running_sums_fit(weight_values(weights@)),
        seq_sum(weight_values(weights@)) > 0 ==> !allocation_overflows(
            total@,
            weight_values(weights@),
            seq_sum(weight_values(weights@)),
            weights@.len(),
        ),
    ensures
        ({
            let ws = weight_values(weights@);
            let den = seq_sum(ws);
            let (ok, allocated, amounts) = allocation_prefix(total@, ws, den, ws.len());
            &&& den <= 0 ==> r == Err::<Vec<Allocation>, SableError>(SableError::InvalidRatio)
            &&& den > 0 && !ok ==> r == Err::<Vec<Allocation>, SableError>(
                SableError::ArithmeticOverflow,
            )
            &&& den > 0 && ok ==> (r matches Ok(rows) && {
                &&& rows@.len() == weights@.len()
                &&& forall|i: int|
                    0 <= i < rows@.len() ==> (#[trigger] rows@[i]).label == weights@[i].0
                        && rows@[i].amount@ == amounts[i]
            })
        }),
        // the shares add up to the total
        r matches Ok(rows) ==> seq_sum(rows@.map_values(|a: Allocation| a.amount@)) == total@,
{
    let ghost ws = weight_values(weights@);
    let n = weights.len();
    let mut denominator: i64 = 0;
    let mut i: usize = 0;
    while i < n
        invariant
            n == weights@.len(),
            ws == weight_values(weights@),
            i <= n,
            running_sums_fit(ws),
            denominator == sum_first(ws, i as nat),
        decreases n - i,
    {
        proof {
            assert(fits_i64(sum_first(ws, (i + 1) as nat)));
        }
        denominator = denominator + weights[i].1;
        i += 1;
    }
    assert(denominator == seq_sum(ws));
    if denominator <= 0 {
        return Err(SableError::InvalidRatio);
    }
    let ghost den = denominator as int;
    let mut allocated = Money::zero();
    let mut rows: Vec<Allocation> = Vec::new();
    let mut index: usize = 0;
    while index < n
        invariant
            n == weights@.len(),
            ws == weight_values(weights@),
            den == denominator,
            den == seq_sum(ws),
            den > 0,
            index <= n,
            !allocation_overflows(total@, ws, den, n as nat),
            allocation_prefix(total@, ws, den, index as nat) == (
                true,
                allocated@,
                rows@.map_values(|a: Allocation| a.amount@),
            ),
            rows@.len() == index,
            forall|j: int| 0 <= j < index ==> (#[trigger] rows@[j]).label == weights@[j].0,
        decreases n - index,
    {
        proof {
            lemma_overflow_monotone(total@, ws, den, (index + 1) as nat, n as nat);
        }
        let amount = if index + 1 == n {
            Money { cents: total.cents - allocated.cents }
        } else {
            match total.percent_of(weights[index].1, denominator) {
                Ok(m) => m,
                Err(e) => {
                    proof {
                        assert(ws[index as int] == weights@[index as int].1 as int);
                        assert(allocation_row(total@, ws, den, index as int, allocated@) is None);
                        assert(!allocation_prefix(total@, ws, den, (index + 1) as nat).0);
                        assert(e == SableError::ArithmeticOverflow);
                        lemma_ok_monotone_false(total@, ws, den, (index + 1) as nat, n as nat);
                        assert(ws.len() == n);
                        assert(!allocation_prefix(total@, ws, den, ws.len()).0);
                        assert(den == seq_sum(ws));
                    }
                    return Err(e);
                },
            }
        };
        allocated = Money { cents: allocated.cents + amount.cents };
        let ghost old_rows = rows@;
        rows.push(Allocation::new(weights[index].0.clone(), amount));
        index += 1;
        assert(rows@.map_values(|a: Allocation| a.amount@) =~= old_rows.map_values(
            |a: Allocation| a.amount@,
        ).push(amount@));
    }
    proof {
        lemma_allocation_prefix_facts(total@, ws, den, n as nat);
        let amounts = rows@.map_values(|a: Allocation| a.amount@);
        let (ok, allocated_before, prev) = allocation_prefix(total@, ws, den, (n - 1) as nat);
        lemma_allocation_prefix_facts(total@, ws, den, (n - 1) as nat);
        assert(amounts == prev.push(total@ - allocated_before));
        lemma_sum_first_push(prev, total@ - allocated_before, prev.len());
    }
    Ok(rows)
}

proof fn lemma_ok_monotone_false(total: int, ws: Seq<int>, den: int, k: nat, n: nat)
    requires
        k <= n,
        !allocation_prefix(total, ws, den, k).0,
    ensures
        !allocation_prefix(total, ws, den, n).0,
{
    if allocation_prefix(total, ws, den, n).0 {
        lemma_ok_monotone(total, ws, den, k, n);
    }
}

} // verus!
