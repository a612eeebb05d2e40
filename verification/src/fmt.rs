//! Decimal numbers in text: writing them (with zero padding, as `{:0w}`
//! does) and reading them back (as `str::parse::<u64>` does).
use vstd::prelude::*;

use crate::text::owned;

verus! {

/// The character of decimal digit `d`.
pub open spec fn digit_char(d: nat) -> char {
    (48 + d) as char
}

/// `n` written in decimal, without leading zeros.
pub open spec fn decimal(n: nat) -> Seq<char>
    decreases n,
{
    if n < 10 {
        seq![digit_char(n)]
    } else {
        decimal(n / 10).push(digit_char(n % 10))
    }
}

/// `s` with `0` added in front until it is `w` characters long.
pub open spec fn zero_pad(s: Seq<char>, w: nat) -> Seq<char> {
    if s.len() >= w {
        s
    } else {
        Seq::new((w - s.len()) as nat, |i: int| '0') + s
    }
}

/// `n` in decimal, zero-padded to width `w`, as `{:0w}` writes a signed number:
/// the sign comes first and counts toward the width.
pub open spec fn signed_padded(n: int, w: nat) -> Seq<char> {
    if n >= 0 {
        zero_pad(decimal(n as nat), w)
    } else {
        seq!['-'] + zero_pad(decimal((-n) as nat), if w >= 1 { (w - 1) as nat } else { 0 })
    }
}

pub open spec fn is_digit(c: char) -> bool {
    '0' <= c && c <= '9'
}

/// The value of a string of decimal digits (0 for the empty string).
pub open spec fn digits_value(s: Seq<char>) -> nat
    decreases s.len(),
{
    if s.len() == 0 {
        0
    } else {
        digits_value(s.drop_last()) * 10 + ((s.last() as int - 48) as nat)
    }
}

/// What `str::parse::<u64>` accepts: an optional `+`, then one or more decimal
/// digits whose value fits in 64 bits.
pub open spec fn parse_u64_spec(s: Seq<char>) -> Option<u64> {
    let body = unsigned_body(s);
    if body.len() > 0 && all_digits(body) && digits_value(body) <= u64::MAX {
        Some(digits_value(body) as u64)
    } else {
        None
    }
}

/// `s` without one leading `+`.
pub open spec fn unsigned_body(s: Seq<char>) -> Seq<char> {
    if s.len() > 0 && s[0] == '+' {
        s.drop_first()
    } else {
        s
    }
}

pub open spec fn all_digits(s: Seq<char>) -> bool {
    forall|i: int| 0 <= i < s.len() ==> is_digit(#[trigger] s[i])
}

pub proof fn lemma_decimal_len(n: nat)
    ensures
        decimal(n).len() >= 1,
        n < 10 ==> decimal(n).len() == 1,
        n >= 10 ==> decimal(n).len() >= 2,
    decreases n,
{
    if n >= 10 {
        lemma_decimal_len(n / 10);
    }
}

fn digit_str(d: u64) -> (r: &'static str)
    requires
        d < 10,
    ensures
        r@ == seq![digit_char(d as nat)],
{
    let digits = "0123456789";
    proof {
        reveal_strlit("0123456789");
    }
    let r = digits.substring_char(d as usize, (d + 1) as usize);
    assert(r@ =~= seq![digit_char(d as nat)]);
    r
}

/// `n` in decimal (`n.to_string()`).
pub fn decimal_string(n: u64) -> (r: String)
    ensures
        r@ == decimal(n as nat),
    decreases n,
{
    if n < 10 {
        owned(digit_str(n))
    } else {
        let mut s = decimal_string(n / 10);
        s.append(digit_str(n % 10));
        s
    }
}

/// `s` zero-padded to width `w`.
pub fn zero_padded(s: String, w: usize) -> (r: String)
    ensures
        r@ == zero_pad(s@, w as nat),
{
    let n = s.as_str().unicode_len();
    if n >= w {
        return s;
    }
    let mut out = String::new();
    let mut k: usize = 0;
    while k < w - n
        invariant
            n < w,
            k <= w - n,
            out@ == Seq::new(k as nat, |i: int| '0'),
        decreases w - n - k,
    {
        out.append("0");
        proof {
            reveal_strlit("0");
        }
        assert(out@ =~= Seq::new((k + 1) as nat, |i: int| '0'));
        k = k + 1;
    }
    out.append(s.as_str());
    out
}

/// `n` as `{:0w}` writes it.
pub fn signed_padded_string(n: i64, w: usize) -> (r: String)
    requires
        n > i64::MIN,
    ensures
        r@ == signed_padded(n as int, w as nat),
{
    if n >= 0 {
        zero_padded(decimal_string(n as u64), w)
    } else {
        let mut s = String::new();
        s.append("-");
        proof {
            reveal_strlit("-");
        }
        let digits = zero_padded(decimal_string((-n) as u64), if w >= 1 { w - 1 } else { 0 });
        s.append(digits.as_str());
        assert(s@ =~= seq!['-'] + digits@);
        s
    }
}

/// `n` in decimal with a leading `-` when negative (`n.to_string()`).
pub fn i64_string(n: i64) -> (r: String)
    ensures
        r@ == signed_padded(n as int, 0),
{
    if n >= 0 {
        zero_padded(decimal_string(n as u64), 0)
    } else {
        let m1: i64 = -(n + 1);
        let magnitude: u64 = m1 as u64 + 1;
        assert(magnitude == -n);
        let mut s = String::new();
        s.append("-");
        proof {
            reveal_strlit("-");
        }
        let digits = zero_padded(decimal_string(magnitude), 0);
        s.append(digits.as_str());
        assert(s@ =~= seq!['-'] + digits@);
        s
    }
}

pub proof fn lemma_digits_value_prefix(s: Seq<char>, k: int)
    requires
        0 <= k <= s.len(),
        forall|i: int| 0 <= i < s.len() ==> is_digit(#[trigger] s[i]),
    ensures
        digits_value(s.take(k)) <= digits_value(s),
    decreases s.len() - k,
{
    if k < s.len() {
        let t = s.drop_last();
        assert forall|i: int| 0 <= i < t.len() implies is_digit(#[trigger] t[i]) by {
            assert(t[i] == s[i]);
        }
        lemma_digits_value_prefix(t, k);
        assert(t.take(k) == s.take(k));
    } else {
        assert(s.take(k) == s);
    }
}

/// `s.parse::<u64>()`, with `None` for every input it rejects.
pub fn parse_u64(s: &str) -> (r: Option<u64>)
    ensures
        r == parse_u64_spec(s@),
{
    let n = s.unicode_len();
    let start: usize = if n > 0 && s.get_char(0) == '+' { 1 } else { 0 };
    let ghost body = unsigned_body(s@);
    assert(body == s@.subrange(start as int, n as int));
    if start >= n {
        return None;
    }
    let mut value: u64 = 0;
    let mut i: usize = start;
    while i < n
        invariant
            n == s@.len(),
            start <= i <= n,
            body == s@.subrange(start as int, n as int),
            body == unsigned_body(s@),
            body.len() > 0,
            forall|k: int| 0 <= k < i - start ==> is_digit(#[trigger] body[k]),
            value as nat == digits_value(body.take(i - start)),
        decreases n - i,
    {
        let c = s.get_char(i);
        assert(body[i - start] == c);
        if !('0' <= c && c <= '9') {
            assert(!is_digit(body[i - start]));
            assert(!all_digits(body));
            return None;
        }
        let d = (c as u32 - 48u32) as u64;
        assert(body.take(i - start + 1).drop_last() == body.take(i - start));
        assert(digits_value(body.take(i - start + 1)) == value * 10 + d);
        if value > 1844674407370955161u64 || (value == 1844674407370955161u64 && d > 5) {
            proof {
                assert(value * 10 + d > u64::MAX);
                // every later character would have to be a digit, and then the value only grows
                if all_digits(body) {
                    lemma_digits_value_prefix(body, i - start + 1);
                }
            }
            return None;
        }
        value = value * 10 + d;
        i = i + 1;
    }
    assert(body.take(n - start) == body);
    Some(value)
}

proof fn lemma_digit_char(d: nat)
    requires
        d < 10,
    ensures
        digit_char(d) as int == 48 + d,
        is_digit(digit_char(d)),
{
}

pub proof fn lemma_decimal_digits(n: nat)
    ensures
        all_digits(decimal(n)),
        digits_value(decimal(n)) == n,
        decimal(n).len() >= 1,
        decimal(n)[0] != '+',
    decreases n,
{
    lemma_digit_char(n % 10);
    if n < 10 {
        let e = seq![digit_char(n)];
        assert(e.drop_last() =~= Seq::<char>::empty());
        assert(e.last() == digit_char(n));
        lemma_digit_char(n);
        assert(decimal(n) == e);
        assert(digits_value(e.drop_last()) == 0);
        assert(digits_value(e) == digits_value(e.drop_last()) * 10 + ((e.last() as int - 48) as nat));
    }
    if n >= 10 {
        lemma_decimal_digits(n / 10);
        let d = decimal(n / 10);
        let e = d.push(digit_char(n % 10));
        assert(e.last() == digit_char(n % 10));
        assert(decimal(n) == e);
        assert(e.drop_last() == d);
        assert(digits_value(e) == digits_value(e.drop_last()) * 10 + ((e.last() as int - 48) as nat));
        assert(n == (n / 10) * 10 + n % 10);
        assert(digits_value(d) == n / 10);
        assert(((e.last() as int - 48) as nat) == n % 10);
        assert(e.drop_last() == d);
        assert forall|i: int| 0 <= i < e.len() implies is_digit(#[trigger] e[i]) by {
            if i < d.len() {
                assert(e[i] == d[i]);
            }
        }
        assert(e[0] == d[0]);
    }
}

/// A number written in decimal reads back as the same number: a cursor the
/// server hands out is accepted, unchanged, when the client sends it back.
pub proof fn law_decimal_parses_back(n: u64)
    ensures
        parse_u64_spec(decimal(n as nat)) == Some(n),
{
    lemma_decimal_digits(n as nat);
}

} // verus!
