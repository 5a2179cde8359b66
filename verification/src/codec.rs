//! Canonical JSON text of the desk's records, and digests of that text.
//!
//! The text is compact: no whitespace, object fields in declaration order, map keys in
//! key order, strings escaped the way JSON requires (quote, backslash and control
//! characters; everything else is written as is).
use vstd::prelude::*;

use crate::text::{
    decimal, digit_char, lemma_signed_decimal_injective, push_decimal, push_signed, signed_decimal,
};

verus! {

/// The lowercase hexadecimal digit of `d`.
pub open spec fn hex_char(d: nat) -> char {
    if d < 10 {
        digit_char(d)
    } else {
        ((87 + d) as u8) as char
    }
}

/// How a character is written inside a JSON string.
pub open spec fn escape_char(c: char) -> Seq<char> {
    if c == '"' {
        seq!['\\', '"']
    } else if c == '\\' {
        seq!['\\', '\\']
    } else if c == '\n' {
        seq!['\\', 'n']
    } else if c == '\r' {
        seq!['\\', 'r']
    } else if c == '\t' {
        seq!['\\', 't']
    } else if c as u32 == 8 {
        seq!['\\', 'b']
    } else if c as u32 == 12 {
        seq!['\\', 'f']
    } else if (c as u32) < 32 {
        seq!['\\', 'u', '0', '0', hex_char((c as u32 / 16) as nat), hex_char((c as u32 % 16) as nat)]
    } else {
        seq![c]
    }
}

/// The characters of `s`, each escaped.
pub open spec fn escaped(s: Seq<char>) -> Seq<char>
    decreases s.len(),
{
    if s.len() == 0 {
        Seq::empty()
    } else {
        escaped(s.drop_last()) + escape_char(s.last())
    }
}

/// A JSON string holding `s`.
pub open spec fn json_string(s: Seq<char>) -> Seq<char> {
    seq!['"'] + escaped(s) + seq!['"']
}

/// A JSON boolean.
pub open spec fn json_bool(b: bool) -> Seq<char> {
    if b {
        "true"@
    } else {
        "false"@
    }
}

/// An amount of money: an object with its cents.
pub open spec fn json_money(cents: int) -> Seq<char> {
    "{\"cents\":"@ + signed_decimal(cents) + "}"@
}

/// Different amounts are written as different JSON texts; in particular a negative amount
/// keeps its minus sign and never reads as the positive amount of the same size.
pub proof fn lemma_json_money_injective(a: int, b: int)
    ensures
        json_money(a) == json_money(b) ==> a == b,
{
    if json_money(a) == json_money(b) {
        let head = "{\"cents\":"@;
        let tail = "}"@;
        assert(signed_decimal(a) =~= json_money(a).subrange(
            head.len() as int,
            json_money(a).len() - tail.len(),
        ));
        assert(signed_decimal(b) =~= json_money(b).subrange(
            head.len() as int,
            json_money(b).len() - tail.len(),
        ));
        lemma_signed_decimal_injective(a, b);
    }
}

/// A number that may be absent.
pub open spec fn json_opt_nat(n: Option<u32>) -> Seq<char> {
    match n {
        Some(v) => decimal(v as nat),
        None => "null"@,
    }
}

/// `open` followed by the items separated by commas.
pub open spec fn json_items(open: Seq<char>, items: Seq<Seq<char>>) -> Seq<char>
    decreases items.len(),
{
    if items.len() == 0 {
        open
    } else if items.len() == 1 {
        open + items[0]
    } else {
        json_items(open, items.drop_last()) + ","@ + items.last()
    }
}

/// A JSON array of already written values.
pub open spec fn json_array(items: Seq<Seq<char>>) -> Seq<char> {
    json_items("["@, items) + "]"@
}

/// A JSON object of already written `"key":value` members.
pub open spec fn json_object(members: Seq<Seq<char>>) -> Seq<char> {
    json_items("{"@, members) + "}"@
}

/// The hexadecimal digit `d` as text.
fn hex_str(d: u32) -> (s: &'static str)
    requires
        d < 16,
    ensures
        s@ == seq![hex_char(d as nat)],
{
    proof {
        reveal_strlit("0");
        reveal_strlit("1");
        reveal_strlit("2");
        reveal_strlit("3");
        reveal_strlit("4");
        reveal_strlit("5");
        reveal_strlit("6");
        reveal_strlit("7");
        reveal_strlit("8");
        reveal_strlit("9");
        reveal_strlit("a");
        reveal_strlit("b");
        reveal_strlit("c");
        reveal_strlit("d");
        reveal_strlit("e");
        reveal_strlit("f");
    }
    match d {
        0 => "0",
        1 => "1",
        2 => "2",
        3 => "3",
        4 => "4",
        5 => "5",
        6 => "6",
        7 => "7",
        8 => "8",
        9 => "9",
        10 => "a",
        11 => "b",
        12 => "c",
        13 => "d",
        14 => "e",
        _ => "f",
    }
}

/// Appends the character at `i` of `s`, escaped.
fn push_escaped_char(out: &mut String, s: &str, i: usize)
    requires
        i < s@.len() <= usize::MAX,
    ensures
        final(out)@ == old(out)@ + escape_char(s@[i as int]),
{
    let c = s.get_char(i);
    let code = c as u32;
    if c == '"' {
        proof {
            reveal_strlit("\\\"");
        }
        out.append("\\\"");
    } else if c == '\\' {
        proof {
            reveal_strlit("\\\\");
        }
        out.append("\\\\");
    } else if c == '\n' {
        proof {
            reveal_strlit("\\n");
        }
        out.append("\\n");
    } else if c == '\r' {
        proof {
            reveal_strlit("\\r");
        }
        out.append("\\r");
    } else if c == '\t' {
        proof {
            reveal_strlit("\\t");
        }
        out.append("\\t");
    } else if code == 8 {
        proof {
            reveal_strlit("\\b");
        }
        out.append("\\b");
    } else if code == 12 {
        proof {
            reveal_strlit("\\f");
        }
        out.append("\\f");
    } else if code < 32 {
        let ghost start = out@;
        proof {
            reveal_strlit("\\u00");
        }
        out.append("\\u00");
        out.append(hex_str(code / 16));
        out.append(hex_str(code % 16));
        assert(out@ =~= start + escape_char(c));
    } else {
        out.append(s.substring_char(i, i + 1));
        assert(s@.subrange(i as int, i + 1) =~= seq![c]);
    }
}

/// Appends `s` as a JSON string.
pub fn push_json_string(out: &mut String, s: &str)
    ensures
        final(out)@ == old(out)@ + json_string(s@),
{
    let ghost start = out@;
    proof {
        reveal_strlit("\"");
    }
    out.append("\"");
    let n = s.unicode_len();
    let mut i: usize = 0;
    while i < n
        invariant
            n == s@.len(),
            i <= n,
            out@ == start + seq!['"'] + escaped(s@.take(i as int)),
        decreases n - i,
    {
        let ghost before = out@;
        push_escaped_char(out, s, i);
        assert(s@.take(i + 1).drop_last() =~= s@.take(i as int));
        assert(out@ =~= start + seq!['"'] + escaped(s@.take(i + 1)));
        i = i + 1;
    }
    assert(s@.take(n as int) =~= s@);
    out.append("\"");
    assert(out@ =~= start + json_string(s@));
}

/// Appends an amount of money.
pub fn push_json_money(out: &mut String, cents: i64)
    ensures
        final(out)@ == old(out)@ + json_money(cents as int),
{
    let ghost start = out@;
    out.append("{\"cents\":");
    push_signed(out, cents as i128);
    out.append("}");
    assert(out@ =~= start + json_money(cents as int));
}

/// Appends a boolean.
pub fn push_json_bool(out: &mut String, b: bool)
    ensures
        final(out)@ == old(out)@ + json_bool(b),
{
    if b {
        out.append("true");
    } else {
        out.append("false");
    }
}

/// Appends a number that may be absent.
pub fn push_json_opt_nat(out: &mut String, n: Option<u32>)
    ensures
        final(out)@ == old(out)@ + json_opt_nat(n),
{
    match n {
        Some(v) => push_decimal(out, v as u128),
        None => out.append("null"),
    }
}

/// Appends the items, already written, as a JSON array.
pub fn push_json_array(out: &mut String, items: &Vec<String>)
    ensures
        final(out)@ == old(out)@ + json_array(items@.map_values(|t: String| t@)),
{
    push_json_items(out, "[", items);
    out.append("]");
    proof {
        lemma_add_assoc(old(out)@, json_items("["@, items@.map_values(|t: String| t@)), "]"@);
    }
}

/// Appends the members, already written, as a JSON object.
pub fn push_json_object(out: &mut String, members: &Vec<String>)
    ensures
        final(out)@ == old(out)@ + json_object(members@.map_values(|t: String| t@)),
{
    push_json_items(out, "{", members);
    out.append("}");
    proof {
        lemma_add_assoc(old(out)@, json_items("{"@, members@.map_values(|t: String| t@)), "}"@);
    }
}

proof fn lemma_add_assoc(a: Seq<char>, b: Seq<char>, c: Seq<char>)
    ensures
        a + (b + c) == a + b + c,
{
    assert(a + (b + c) =~= a + b + c);
}

/// Appends `open` and the items separated by commas.
fn push_json_items(out: &mut String, open: &str, items: &Vec<String>)
    ensures
        final(out)@ == old(out)@ + json_items(open@, items@.map_values(|t: String| t@)),
{
    let ghost start = out@;
    let ghost texts = items@.map_values(|t: String| t@);
    let mut body = String::from_str(open);
    let n = items.len();
    let mut i: usize = 0;
    proof {
        assert(texts.take(0) =~= Seq::<Seq<char>>::empty());
    }
    while i < n
        invariant
            texts == items@.map_values(|t: String| t@),
            n == items@.len(),
            i <= n,
            body@ == json_items(open@, texts.take(i as int)),
        decreases n - i,
    {
        let ghost t = texts.take(i + 1);
        assert(t.drop_last() =~= texts.take(i as int));
        if i > 0 {
            body.append(",");
        }
        body.append(items[i].as_str());
        proof {
            if i == 0 {
                assert(t.len() == 1);
            }
        }
        i = i + 1;
    }
    assert(texts.take(n as int) =~= texts);
    out.append(body.as_str());
}

/// The BLAKE3 hash of `input`, as lowercase hexadecimal text.
pub uninterp spec fn blake3_hex(input: Seq<u8>) -> Seq<char>;

/// Whether `c` is a lowercase hexadecimal digit.
pub open spec fn lower_hex(c: char) -> bool {
    ('0' <= c && c <= '9') || ('a' <= c && c <= 'f')
}

/// Calls `blake3::hash` on the bytes and renders the hash with `Hash::to_hex`, which
/// writes each of the 32 bytes as two lowercase hexadecimal digits. The contract names
/// the result, so the same bytes give the same text, and states its shape; which text
/// BLAKE3 gives is not stated here.
#[verifier::external_body]
fn blake3_hex_text(input: &[u8]) -> (r: String)
    ensures
        r@ == blake3_hex(input@),
        r@.len() == 64,
        forall|i: int| 0 <= i < r@.len() ==> lower_hex(#[trigger] r@[i]),
{
    blake3::hash(input).to_hex().to_string()
}

/// A hexadecimal digest of canonical text.
#[derive(Clone, Debug, PartialEq, Eq)]
pub struct Digest(String);

impl View for Digest {
    type V = Seq<char>;

    closed spec fn view(&self) -> Seq<char> {
        self.0@
    }
}

impl Digest {
    pub fn new(value: String) -> (r: Digest)
        ensures
            r@ == value@,
    {
        Digest(value)
    }

    pub fn as_str(&self) -> (r: &str)
        ensures
            r@ == self@,
    {
        self.0.as_str()
    }

    /// The digest as owned text.
    pub fn to_text(&self) -> (r: String)
        ensures
            r@ == self@,
    {
        String::from_str(self.0.as_str())
    }
}

/// The digest of a text: the BLAKE3 hash of its UTF-8 bytes.
pub fn text_digest(text: &str) -> (r: Digest)
    ensures
        r@ == blake3_hex(vstd::utf8::encode_utf8(text@)),
        r@.len() == 64,
        forall|i: int| 0 <= i < r@.len() ==> lower_hex(#[trigger] r@[i]),
{
    Digest(blake3_hex_text(text.as_bytes()))
}

/// The texts of written items, one more written.
pub proof fn lemma_texts_push<A>(
    texts: Seq<String>,
    xs: Seq<A>,
    f: spec_fn(A) -> Seq<char>,
    t: String,
    i: int,
)
    requires
        0 <= i < xs.len(),
        texts.map_values(|s: String| s@) == xs.take(i).map_values(f),
        t@ == f(xs[i]),
    ensures
        texts.push(t).map_values(|s: String| s@) == xs.take(i + 1).map_values(f),
{
    let a = texts.push(t).map_values(|s: String| s@);
    let b = xs.take(i + 1).map_values(f);
    assert(texts.map_values(|s: String| s@).len() == i);
    assert forall|j: int| 0 <= j < a.len() implies a[j] == b[j] by {
        if j < i {
            assert(texts.map_values(|s: String| s@)[j] == xs.take(i).map_values(f)[j]);
        }
    }
    assert(a =~= b);
}

} // verus!
