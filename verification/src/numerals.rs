//! Decimal numerals: writing natural numbers and reading signed ones.
use vstd::prelude::*;

use crate::text::chars_of;

verus! {

/// The digit for `d`, a number below ten.
pub open spec fn digit(d: nat) -> char {
    ('0' as u8 + d) as u8 as char
}

/// The decimal numeral of `n`, without leading zeros.
pub open spec fn decimal(n: nat) -> Seq<char>
    decreases n,
{
    if n < 10 {
        seq![digit(n)]
    } else {
        decimal(n / 10).push(digit(n % 10))
    }
}

/// The decimal numeral of `n`, without leading zeros.
pub fn to_decimal(n: u64) -> (r: String)
    ensures
        r@ == decimal(n as nat),
    decreases n,
{
    if n < 10 {
        let mut r = String::new();
        r.push((48u8 + n as u8) as char);
        assert(r@ =~= seq![digit(n as nat)]);
        r
    } else {
        let mut r = to_decimal(n / 10);
        r.push((48u8 + (n % 10) as u8) as char);
        r
    }
}

/// The decimal numeral of `n`, with a minus sign in front of a negative one.
pub open spec fn signed_decimal(n: int) -> Seq<char> {
    if n < 0 {
        seq!['-'] + decimal((-n) as nat)
    } else {
        decimal(n as nat)
    }
}

/// The decimal numeral of `n`, with a minus sign in front of a negative one.
pub fn to_signed_decimal(n: i64) -> (r: String)
    ensures
        r@ == signed_decimal(n as int),
{
    if n < 0 {
        let magnitude: u64 = (-(n as i128)) as u64;
        let digits = to_decimal(magnitude);
        let mut r = String::new();
        r.push('-');
        r.append(&digits);
        r
    } else {
        to_decimal(n as u64)
    }
}

/// Every character of `s` is an ASCII digit.
pub open spec fn all_digits(s: Seq<char>) -> bool {
    forall|i: int| 0 <= i < s.len() ==> '0' <= #[trigger] s[i] <= '9'
}

/// The number that the digits `s` write.
pub open spec fn digits_value(s: Seq<char>) -> nat
    decreases s.len(),
{
    if s.len() == 0 {
        0
    } else {
        digits_value(s.drop_last()) * 10 + (s.last() as u8 - '0' as u8) as nat
    }
}

/// Whether `s` starts with a plus or a minus sign.
pub open spec fn has_sign(s: Seq<char>) -> bool {
    s.len() > 0 && (s[0] == '+' || s[0] == '-')
}

/// The digits of the numeral `s`: what stands behind its sign, if it has one.
pub open spec fn numeral_digits(s: Seq<char>) -> Seq<char> {
    if has_sign(s) {
        s.skip(1)
    } else {
        s
    }
}

/// The integer that `s` writes: digits with an optional sign in front, and
/// nothing else.
pub open spec fn integer_of(s: Seq<char>) -> Option<int> {
    let d = numeral_digits(s);
    if d.len() == 0 || !all_digits(d) {
        None
    } else if s[0] == '-' {
        Some(-digits_value(d))
    } else {
        Some(digits_value(d) as int)
    }
}

/// The integer that `s` writes, where it fits in 64 bits.
pub open spec fn i64_of(s: Seq<char>) -> Option<int> {
    match integer_of(s) {
        Some(n) if i64::MIN <= n <= i64::MAX => Some(n),
        _ => None,
    }
}

proof fn lemma_digits_value_grows(s: Seq<char>, k: int)
    requires
        0 <= k <= s.len(),
    ensures
        digits_value(s.take(k)) <= digits_value(s),
    decreases s.len() - k,
{
    if k == s.len() {
        assert(s.take(k) =~= s);
    } else {
        lemma_digits_value_grows(s, k + 1);
        assert(s.take(k + 1).drop_last() =~= s.take(k));
    }
}

/// Reads a signed integer in decimal: `None` unless `s` is a numeral whose
/// value fits in 64 bits.
pub fn parse_i64(s: &str) -> (r: Option<i64>)
    ensures
        match r {
            Some(n) => i64_of(s@) == Some(n as int),
            None => i64_of(s@) is None,
        },
{
    let chars = chars_of(s);
    let start: usize = if chars.len() > 0 && (chars[0] == '+' || chars[0] == '-') {
        1
    } else {
        0
    };
    let ghost d = numeral_digits(s@);
    assert(chars@.skip(0) =~= chars@);
    if start == chars.len() {
        return None;
    }
    let negative = chars[0] == '-';
    let mut value: i128 = 0;
    let mut i: usize = start;
    while i < chars.len()
        invariant
            start <= i <= chars.len(),
            chars@ == s@,
            d == s@.skip(start as int),
            d == numeral_digits(s@),
            d.len() > 0,
            negative == (s@[0] == '-'),
            forall|j: int| 0 <= j < i - start ==> '0' <= #[trigger] d[j] <= '9',
            value == digits_value(d.take(i - start)),
            0 <= value <= 0x8000_0000_0000_0000,
        decreases chars.len() - i,
    {
        let c = chars[i];
        assert(c == d[i - start]);
        if c < '0' || '9' < c {
            return None;
        }
        let next: i128 = value * 10 + ((c as u8) - 48u8) as i128;
        proof {
            assert(d.take(i - start + 1).drop_last() =~= d.take(i - start));
            assert(d.take(i - start + 1).last() == c);
            assert(next == digits_value(d.take(i - start + 1)));
        }
        if next > 0x8000_0000_0000_0000 {
            proof {
                lemma_digits_value_grows(d, i - start + 1);
            }
            return None;
        }
        value = next;
        i += 1;
    }
    assert(d.take(d.len() as int) =~= d);
    if negative {
        Some((-value) as i64)
    } else if value <= 0x7fff_ffff_ffff_ffff {
        Some(value as i64)
    } else {
        None
    }
}

proof fn lemma_decimal_digits(n: nat)
    ensures
        decimal(n).len() > 0,
        all_digits(decimal(n)),
        digits_value(decimal(n)) == n,
    decreases n,
{
    if n < 10 {
        assert(decimal(n).drop_last() =~= Seq::<char>::empty());
        assert(digits_value(Seq::<char>::empty()) == 0);
    } else {
        lemma_decimal_digits(n / 10);
        assert(decimal(n).drop_last() =~= decimal(n / 10));
    }
}

/// A written number reads back as itself.
pub proof fn law_written_number_reads_back(n: i64)
    ensures
        i64_of(signed_decimal(n as int)) == Some(n as int),
{
    if n < 0 {
        lemma_decimal_digits((-n) as nat);
        assert(signed_decimal(n as int).skip(1) =~= decimal((-n) as nat));
    } else {
        lemma_decimal_digits(n as nat);
        assert('0' <= decimal(n as nat)[0] <= '9');
    }
}

} // verus!
