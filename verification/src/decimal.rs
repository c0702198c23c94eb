//! Unsigned 128-bit integers written in decimal.
//!
//! Column values can be up to 128 bits wide, which the wire format has no
//! integer type for, so they travel as decimal strings.

use vstd::prelude::*;

verus! {

pub open spec fn is_digit(c: char) -> bool {
    '0' <= c && c <= '9'
}

pub open spec fn digit_value(c: char) -> nat {
    (c as int - '0' as int) as nat
}

/// The character of a decimal digit below ten.
pub open spec fn digit_char(d: nat) -> char {
    if d == 0 {
        '0'
    } else if d == 1 {
        '1'
    } else if d == 2 {
        '2'
    } else if d == 3 {
        '3'
    } else if d == 4 {
        '4'
    } else if d == 5 {
        '5'
    } else if d == 6 {
        '6'
    } else if d == 7 {
        '7'
    } else if d == 8 {
        '8'
    } else {
        '9'
    }
}

pub open spec fn all_digits(s: Seq<char>) -> bool {
    forall|i: int| 0 <= i < s.len() ==> is_digit(#[trigger] s[i])
}

/// The number that a sequence of decimal digits spells.
pub open spec fn digits_value(s: Seq<char>) -> nat
    decreases s.len(),
{
    if s.len() == 0 {
        0
    } else {
        digits_value(s.drop_last()) * 10 + digit_value(s.last())
    }
}

/// The digits of `s` once an optional leading `+` is dropped.
pub open spec fn unsigned_digits(s: Seq<char>) -> Seq<char> {
    if s.len() > 0 && s[0] == '+' {
        s.drop_first()
    } else {
        s
    }
}

/// The unsigned 128-bit integer that `s` writes: an optional `+`, then one or
/// more decimal digits (leading zeros allowed) whose value fits in 128 bits.
/// Anything else, a sign `-`, spaces, separators, other bases and values past
/// `u128::MAX` included, writes none.
pub open spec fn parse_decimal(s: Seq<char>) -> Option<u128> {
    let d = unsigned_digits(s);
    if d.len() > 0 && all_digits(d) && digits_value(d) <= u128::MAX {
        Some(digits_value(d) as u128)
    } else {
        None
    }
}

/// The decimal digits of `v`, with no leading zeros.
pub open spec fn decimal_chars(v: nat) -> Seq<char>
    decreases v,
{
    if v < 10 {
        seq![digit_char(v)]
    } else {
        decimal_chars(v / 10).push(digit_char(v % 10))
    }
}

proof fn lemma_digits_value_prefix(d: Seq<char>, j: int)
    requires
        all_digits(d),
        0 <= j <= d.len(),
    ensures
        digits_value(d.take(j)) <= digits_value(d),
    decreases d.len() - j,
{
    if j < d.len() {
        lemma_digits_value_prefix(d, j + 1);
        assert(d.take(j + 1).drop_last() =~= d.take(j));
    } else {
        assert(d.take(j) =~= d);
    }
}

proof fn lemma_digit_char(d: nat)
    requires
        d < 10,
    ensures
        is_digit(digit_char(d)),
        digit_value(digit_char(d)) == d,
{
}

proof fn lemma_decimal_chars_digits(v: nat)
    ensures
        decimal_chars(v).len() > 0,
        all_digits(decimal_chars(v)),
        digits_value(decimal_chars(v)) == v,
    decreases v,
{
    lemma_digit_char(v % 10);
    if v < 10 {
        let s = seq![digit_char(v)];
        assert(s.drop_last() =~= Seq::<char>::empty());
        assert(s.last() == digit_char(v));
        assert(v % 10 == v);
        assert(digits_value(s) == digits_value(s.drop_last()) * 10 + digit_value(s.last()));
    } else {
        lemma_decimal_chars_digits(v / 10);
        let s = decimal_chars(v);
        assert(s.drop_last() =~= decimal_chars(v / 10));
        assert(s.last() == digit_char(v % 10));
        assert(digits_value(s) == digits_value(s.drop_last()) * 10 + digit_value(s.last()));
        assert forall|i: int| 0 <= i < s.len() implies is_digit(#[trigger] s[i]) by {
            if i < s.len() - 1 {
                assert(s[i] == decimal_chars(v / 10)[i]);
            }
        }
    }
}

/// Reading back the decimal digits of a value gives the value.
pub proof fn lemma_parse_decimal_chars(v: u128)
    ensures
        parse_decimal(decimal_chars(v as nat)) == Some(v),
{
    lemma_decimal_chars_digits(v as nat);
    let s = decimal_chars(v as nat);
    assert(is_digit(s[0]));
    assert(unsigned_digits(s) == s);
}

/// The unsigned 128-bit integer that `s` writes in decimal, if any.
pub fn parse_decimal_u128(s: &str) -> (r: Option<u128>)
    ensures
        r == parse_decimal(s@),
{
    if !s.is_ascii() {
        proof {
            let i = choose|i: int| 0 <= i < s@.len() && !('\0' <= #[trigger] s@[i] <= '\u{7f}');
            let d = unsigned_digits(s@);
            if s@.len() > 0 && s@[0] == '+' {
                assert(d[i - 1] == s@[i]);
                assert(!is_digit(d[i - 1]));
            } else {
                assert(!is_digit(d[i]));
            }
        }
        return None;
    }
    let bytes = s.as_bytes();
    proof {
        vstd::string::is_ascii_spec_bytes(s);
    }
    let n = bytes.len();
    assert(n == s@.len());
    let mut i: usize = 0;
    if n > 0 && bytes[0] == 43u8 {
        assert(s@[0] == '+');
        i = 1;
    } else {
        proof {
            if n > 0 {
                assert(s@[0] != '+');
            }
        }
    }
    let first = i;
    let ghost d = unsigned_digits(s@);
    assert(d =~= s@.skip(first as int));
    if i == n {
        return None;
    }
    let mut v: u128 = 0;
    proof {
        assert(d.take(0) =~= Seq::<char>::empty());
    }
    while i < n
        invariant
            first <= i <= n,
            n == s@.len(),
            n == bytes@.len(),
            bytes@ == Seq::new(s@.len(), |j: int| s@[j] as u8),
            vstd::string::is_ascii(s),
            d == s@.skip(first as int),
            d == unsigned_digits(s@),
            all_digits(d.take(i - first)),
            v == digits_value(d.take(i - first)),
        decreases n - i,
    {
        let b = bytes[i];
        let ghost c = s@[i as int];
        assert(d[i - first] == c);
        assert(b == c as u8);
        if b < 48u8 || b > 57u8 {
            assert(!is_digit(c));
            assert(!all_digits(d));
            return None;
        }
        assert(is_digit(c));
        let digit = (b - 48u8) as u128;
        assert(digit == digit_value(c));
        proof {
            assert(d.take(i + 1 - first).drop_last() =~= d.take(i - first));
            assert(all_digits(d.take(i + 1 - first)));
            assert(d.take(i + 1 - first).last() == c);
            assert(digits_value(d.take(i + 1 - first)) == v * 10 + digit);
        }
        match v.checked_mul(10) {
            Some(t) => match t.checked_add(digit) {
                Some(u) => {
                    v = u;
                },
                None => {
                    proof {
                        if all_digits(d) {
                            lemma_digits_value_prefix(d, i + 1 - first);
                        }
                    }
                    return None;
                },
            },
            None => {
                proof {
                    if all_digits(d) {
                        lemma_digits_value_prefix(d, i + 1 - first);
                    }
                }
                return None;
            },
        }
        i = i + 1;
    }
    assert(d.take(n - first) =~= d);
    Some(v)
}

fn digit_str(d: u128) -> (r: &'static str)
    requires
        d < 10,
    ensures
        r@ == seq![digit_char(d as nat)],
{
    proof {
        reveal_strlit("0");
        reveal_strlit("1");
        reveal_strlit("2");
        reveal_strlit("3");
        reveal_strlit("4");
        reveal_strlit("5");
        reveal_strlit("6");
        reveal_strlit("7");
        reveal_strlit("8");
        reveal_strlit("9");
    }
    if d == 0 {
        "0"
    } else if d == 1 {
        "1"
    } else if d == 2 {
        "2"
    } else if d == 3 {
        "3"
    } else if d == 4 {
        "4"
    } else if d == 5 {
        "5"
    } else if d == 6 {
        "6"
    } else if d == 7 {
        "7"
    } else if d == 8 {
        "8"
    } else {
        "9"
    }
}

/// `v` written in decimal, with no leading zeros.
pub fn u128_to_decimal(v: u128) -> (r: String)
    ensures
        r@ == decimal_chars(v as nat),
    decreases v,
{
    if v < 10 {
        digit_str(v).to_owned()
    } else {
        let mut r = u128_to_decimal(v / 10);
        r.append(digit_str(v % 10));
        r
    }
}

} // verus!
