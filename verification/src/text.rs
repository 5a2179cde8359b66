//! Decimal rendering and small string-building helpers.
use vstd::prelude::*;

verus! {

/// The character of a decimal digit.
pub open spec fn digit_char(d: nat) -> char {
    ((48 + d) as u8) as char
}

/// The decimal digits of `n`, most significant first, without leading zeros.
pub open spec fn decimal(n: nat) -> Seq<char>
    decreases n,
{
    if n < 10 {
        seq![digit_char(n)]
    } else {
        decimal(n / 10).push(digit_char(n % 10))
    }
}

/// `s` left-padded with zeros up to `width` characters.
pub open spec fn zero_pad(s: Seq<char>, width: nat) -> Seq<char> {
    if s.len() >= width {
        s
    } else {
        Seq::new((width - s.len()) as nat, |i: int| '0') + s
    }
}

/// Decimal text of a signed integer, with a leading minus sign when negative.
pub open spec fn signed_decimal(n: int) -> Seq<char> {
    if n < 0 {
        seq!['-'] + decimal((-n) as nat)
    } else {
        decimal(n as nat)
    }
}

pub proof fn lemma_decimal_len_pos(n: nat)
    ensures
        decimal(n).len() >= 1,
    decreases n,
{
    if n >= 10 {
        lemma_decimal_len_pos(n / 10);
    }
}

/// The character of digit `d` is the code point `48 + d`.
proof fn lemma_digit_char_code(d: nat)
    requires
        d < 10,
    ensures
        digit_char(d) as int == 48 + d,
{
    assert(((48 + d) as u8) as int == 48 + d);
}

/// A decimal text starts with a digit, never with a minus sign.
pub proof fn lemma_decimal_starts_with_digit(n: nat)
    ensures
        decimal(n).len() >= 1,
        48 <= decimal(n)[0] as int <= 57,
    decreases n,
{
    if n < 10 {
        lemma_digit_char_code(n);
    } else {
        lemma_decimal_starts_with_digit(n / 10);
        assert(decimal(n)[0] == decimal(n / 10)[0]);
    }
}

/// Different numbers have different decimal texts.
pub proof fn lemma_decimal_injective(a: nat, b: nat)
    ensures
        decimal(a) == decimal(b) ==> a == b,
    decreases a + b,
{
    if decimal(a) == decimal(b) {
        if a < 10 && b < 10 {
            lemma_digit_char_code(a);
            lemma_digit_char_code(b);
            assert(decimal(a)[0] == decimal(b)[0]);
        } else if a < 10 {
            lemma_decimal_len_pos(b / 10);
            assert(decimal(b).len() >= 2);
        } else if b < 10 {
            lemma_decimal_len_pos(a / 10);
            assert(decimal(a).len() >= 2);
        } else {
            assert(decimal(a / 10) =~= decimal(a).drop_last());
            assert(decimal(b / 10) =~= decimal(b).drop_last());
            lemma_decimal_injective(a / 10, b / 10);
            assert(decimal(a).last() == decimal(b).last());
            lemma_digit_char_code(a % 10);
            lemma_digit_char_code(b % 10);
            assert(a % 10 == b % 10);
        }
    }
}

/// Different integers have different signed decimal texts: a negative number keeps its
/// minus sign.
pub proof fn lemma_signed_decimal_injective(a: int, b: int)
    ensures
        signed_decimal(a) == signed_decimal(b) ==> a == b,
{
    if signed_decimal(a) == signed_decimal(b) {
        if a < 0 && b < 0 {
            assert(decimal((-a) as nat) =~= signed_decimal(a).drop_first());
            assert(decimal((-b) as nat) =~= signed_decimal(b).drop_first());
            lemma_decimal_injective((-a) as nat, (-b) as nat);
        } else if a < 0 {
            lemma_decimal_starts_with_digit(b as nat);
            assert(signed_decimal(a)[0] == '-');
        } else if b < 0 {
            lemma_decimal_starts_with_digit(a as nat);
            assert(signed_decimal(b)[0] == '-');
        } else {
            lemma_decimal_injective(a as nat, b as nat);
        }
    }
}

/// The single-character string of a decimal digit.
pub fn digit_str(d: u8) -> (s: &'static str)
    requires
        d < 10,
    ensures
        s@ == seq![digit_char(d as nat)],
{
    proof {
        reveal_strlit("0");
        reveal_strlit("1");
        reveal_strlit("2");
        reveal_strlit("3");
        reveal_strlit("4");
        reveal_strlit("5");
        reveal_strlit("6");
        reveal_strlit("7");
        reveal_strlit("8");
        reveal_strlit("9");
    }
    if d == 0 {
        "0"
    } else if d == 1 {
        "1"
    } else if d == 2 {
        "2"
    } else if d == 3 {
        "3"
    } else if d == 4 {
        "4"
    } else if d == 5 {
        "5"
    } else if d == 6 {
        "6"
    } else if d == 7 {
        "7"
    } else if d == 8 {
        "8"
    } else {
        "9"
    }
}

/// Appends the decimal digits of `n`.
pub fn push_decimal(out: &mut String, n: u128)
    ensures
        final(out)@ == old(out)@ + decimal(n as nat),
    decreases n,
{
    if n >= 10 {
        push_decimal(out, n / 10);
    }
    let d = (n % 10) as u8;
    out.append(digit_str(d));
    proof {
        assert(decimal(n as nat) == if n < 10 {
            seq![digit_char(n as nat)]
        } else {
            decimal((n / 10) as nat).push(digit_char((n % 10) as nat))
        });
    }
}

/// The number of decimal digits of `n`.
pub fn decimal_width(n: u128) -> (w: usize)
    ensures
        w as nat == decimal(n as nat).len(),
        w <= 39,
    decreases n,
{
    if n < 10 {
        1
    } else {
        let w = decimal_width(n / 10);
        proof {
            assert(n / 10 < n);
            if w == 39 {
                // 39 digits already cover every value below 10^39 > u128::MAX
                lemma_decimal_width_bound(n as nat);
            }
        }
        w + 1
    }
}

proof fn lemma_decimal_width_bound(n: nat)
    requires
        n <= u128::MAX,
    ensures
        decimal(n).len() <= 39,
{
    reveal_with_fuel(pow10, 40);
    assert(pow10(39) == 1000000000000000000000000000000000000000nat);
    lemma_decimal_len_le(n, 39, 1000000000000000000000000000000000000000nat);
}

proof fn lemma_decimal_len_le(n: nat, k: nat, p: nat)
    requires
        n < p,
        p == pow10(k),
        k >= 1,
    ensures
        decimal(n).len() <= k,
    decreases k,
{
    if n >= 10 {
        if k == 1 {
            assert(pow10(1) == 10 * pow10(0));
            assert(false);
        } else {
            assert(p == 10 * pow10((k - 1) as nat));
            assert(n / 10 < pow10((k - 1) as nat));
            lemma_decimal_len_le(n / 10, (k - 1) as nat, pow10((k - 1) as nat));
        }
    }
}

pub open spec fn pow10(k: nat) -> nat
    decreases k,
{
    if k == 0 {
        1
    } else {
        10 * pow10((k - 1) as nat)
    }
}

/// Appends the decimal digits of `n`, left-padded with zeros to `width`.
pub fn push_zero_padded(out: &mut String, n: u128, width: usize)
    ensures
        final(out)@ == old(out)@ + zero_pad(decimal(n as nat), width as nat),
{
    let w = decimal_width(n);
    let ghost start = out@;
    if w < width {
        let mut i: usize = 0;
        while i < width - w
            invariant
                i <= width - w,
                w < width,
                out@ == start + Seq::new(i as nat, |j: int| '0'),
            decreases width - w - i,
        {
            proof {
                reveal_strlit("0");
            }
            out.append("0");
            i += 1;
            assert(out@ =~= start + Seq::new(i as nat, |j: int| '0'));
        }
    }
    push_decimal(out, n);
    assert(out@ =~= start + zero_pad(decimal(n as nat), width as nat));
}

/// Appends the decimal text of a signed integer.
pub fn push_signed(out: &mut String, n: i128)
    requires
        n > i128::MIN,
    ensures
        final(out)@ == old(out)@ + signed_decimal(n as int),
{
    let ghost start = out@;
    if n < 0 {
        proof {
            reveal_strlit("-");
        }
        out.append("-");
        let m = (-n) as u128;
        push_decimal(out, m);
        assert(out@ =~= start + signed_decimal(n as int));
    } else {
        push_decimal(out, n as u128);
    }
}

/// The concatenation of three strings.
pub fn join3(a: &str, b: &str, c: &str) -> (r: String)
    ensures
        r@ == a@ + b@ + c@,
{
    let mut r = String::from_str(a);
    r.append(b);
    r.append(c);
    r
}

/// The concatenation of four strings.
pub fn join4(a: &str, b: &str, c: &str, d: &str) -> (r: String)
    ensures
        r@ == a@ + b@ + c@ + d@,
{
    let mut r = String::from_str(a);
    r.append(b);
    r.append(c);
    r.append(d);
    r
}

} // verus!
