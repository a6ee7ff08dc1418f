//! Numbers as text: decimal and hexadecimal, in both directions.

use crate::text;
use vstd::prelude::*;
use vstd::string::*;

verus! {

// ---------------------------------------------------------------------------------------------
// Decimal
// ---------------------------------------------------------------------------------------------

/// The character for a decimal digit.
pub open spec fn digit_char(d: nat) -> char {
    (48 + d) as char
}

/// Whether a character is a decimal digit.
pub open spec fn is_digit(c: char) -> bool {
    '0' <= c <= '9'
}

/// The value of a decimal digit.
pub open spec fn digit_value(c: char) -> nat {
    (c as nat - 48) as nat
}

/// A number written in decimal, without leading zeros.
pub open spec fn decimal(n: nat) -> Seq<char>
    decreases n,
{
    if n < 10 {
        seq![digit_char(n)]
    } else {
        decimal(n / 10).push(digit_char(n % 10))
    }
}

/// The number that a row of decimal digits writes.
pub open spec fn value(s: Seq<char>) -> nat
    decreases s.len(),
{
    if s.len() == 0 {
        0
    } else {
        value(s.drop_last()) * 10 + digit_value(s.last())
    }
}

/// Whether a text is a non-empty row of decimal digits.
pub open spec fn all_digits(s: Seq<char>) -> bool {
    s.len() > 0 && forall|i: int| 0 <= i < s.len() ==> is_digit(#[trigger] s[i])
}

/// A text without the plus sign that it may start with.
pub open spec fn without_plus(s: Seq<char>) -> Seq<char> {
    if s.len() > 0 && s[0] == '+' {
        s.skip(1)
    } else {
        s
    }
}

/// The number that a text writes, where it is an optional plus sign and decimal digits, and
/// where the number is at most `max`.
pub open spec fn unsigned(s: Seq<char>, max: nat) -> Option<nat> {
    let digits = without_plus(s);
    if all_digits(digits) && value(digits) <= max {
        Some(value(digits))
    } else {
        None
    }
}

/// Writes a number in decimal.
pub fn to_decimal(n: u64) -> (r: String)
    ensures
        r@ == decimal(n as nat),
    decreases n,
{
    let d: u8 = (n % 10) as u8;
    let c: char = (48 + d) as char;
    if n < 10 {
        let mut s: String = String::new();
        s.push(c);
        assert(s@ =~= seq![c]);
        s
    } else {
        let mut s: String = to_decimal(n / 10);
        s.push(c);
        s
    }
}

/// More digits never make a smaller number.
proof fn lemma_value_grows(s: Seq<char>, n: int)
    requires
        0 <= n <= s.len(),
    ensures
        value(s.take(n)) <= value(s),
    decreases s.len() - n,
{
    if n < s.len() {
        lemma_value_grows(s, n + 1);
        assert(s.take(n + 1).drop_last() =~= s.take(n));
    } else {
        assert(s.take(n) =~= s);
    }
}

/// Reads an unsigned number that is at most `max`.
pub fn parse_unsigned(s: &str, max: u64) -> (r: Option<u64>)
    ensures
        match r {
            Some(n) => unsigned(s@, max as nat) == Some(n as nat),
            None => unsigned(s@, max as nat) is None,
        },
{
    let chars = text::chars_of(s);
    let start: usize = if chars.len() > 0 && chars[0] == '+' {
        1
    } else {
        0
    };
    let ghost digits = without_plus(s@);
    assert(digits =~= s@.skip(start as int));
    if start == chars.len() {
        return None;
    }
    let mut i: usize = start;
    let mut acc: u64 = 0;
    while i < chars.len()
        invariant
            start <= i <= chars.len(),
            start < chars.len(),
            chars@ == s@,
            digits == without_plus(s@),
            digits == s@.skip(start as int),
            acc <= max,
            acc == value(digits.take(i - start)),
            forall|j: int| 0 <= j < i - start ==> is_digit(#[trigger] digits[j]),
        decreases chars.len() - i,
    {
        let c: char = chars[i];
        assert(digits[i - start] == c);
        if !('0' <= c && c <= '9') {
            assert(!is_digit(digits[i - start]));
            return None;
        }
        let d: u64 = (c as u32 - 48) as u64;
        let next: u128 = (acc as u128) * 10 + d as u128;
        proof {
            assert(digits.take(i - start + 1).drop_last() =~= digits.take(i - start));
            assert(digits.take(i - start + 1).last() == c);
            lemma_value_grows(digits, i - start + 1);
        }
        if next > max as u128 {
            return None;
        }
        acc = next as u64;
        i += 1;
    }
    assert(digits.take(digits.len() as int) =~= digits);
    Some(acc)
}

/// Every character of a number in decimal is a digit.
pub proof fn lemma_decimal_digits(n: nat)
    ensures
        all_digits(decimal(n)),
    decreases n,
{
    if n >= 10 {
        lemma_decimal_digits(n / 10);
        let s = decimal(n / 10);
        let d = digit_char(n % 10);
        assert forall|i: int| 0 <= i < s.push(d).len() implies is_digit(#[trigger] s.push(d)[i]) by {
            if i < s.len() {
                assert(s.push(d)[i] == s[i]);
            }
        }
    }
}

/// Reading a number back from its decimal digits gives the number.
pub proof fn lemma_decimal_value(n: nat)
    ensures
        value(decimal(n)) == n,
    decreases n,
{
    if n >= 10 {
        lemma_decimal_value(n / 10);
        assert(decimal(n).drop_last() =~= decimal(n / 10));
    } else {
        let s = seq![digit_char(n)];
        assert(s.drop_last() =~= Seq::<char>::empty());
        assert(value(s.drop_last()) == 0);
        assert(s.last() == digit_char(n));
    }
}

/// There is nothing to trim off a row of digits.
pub proof fn lemma_trim_digits(s: Seq<char>)
    requires
        all_digits(s),
    ensures
        text::trimmed(s) == s,
{
    if s.len() > 0 {
        assert(is_digit(s[0]) && is_digit(s.last()));
    }
}

/// What is written in decimal is read back unchanged, under every limit that admits it.
pub proof fn law_decimal_round_trip(n: nat, max: nat)
    requires
        n <= max,
    ensures
        unsigned(decimal(n), max) == Some(n),
{
    lemma_decimal_digits(n);
    lemma_decimal_value(n);
    assert(is_digit(decimal(n)[0]));
    assert(without_plus(decimal(n)) == decimal(n));
}

// ---------------------------------------------------------------------------------------------
// Hexadecimal
// ---------------------------------------------------------------------------------------------

/// The lower-case character for a hexadecimal digit.
pub open spec fn hex_char(d: nat) -> char {
    if d < 10 {
        (48 + d) as char
    } else {
        (87 + d) as char
    }
}

/// A byte as two lower-case hexadecimal digits.
pub open spec fn hex_byte(b: u8) -> Seq<char> {
    seq![hex_char((b / 16) as nat), hex_char((b % 16) as nat)]
}

/// The last `digits` hexadecimal digits of a number, most significant first.
pub open spec fn hex_digits(n: nat, digits: nat) -> Seq<char>
    decreases digits,
{
    if digits == 0 {
        Seq::empty()
    } else {
        hex_digits(n / 16, (digits - 1) as nat).push(hex_char(n % 16))
    }
}

/// Writes a hexadecimal digit.
fn to_hex_char(d: u8) -> (c: char)
    requires
        d < 16,
    ensures
        c == hex_char(d as nat),
{
    if d < 10 {
        (48 + d) as char
    } else {
        (87 + d) as char
    }
}

/// Writes a byte as two hexadecimal digits.
pub fn to_hex_byte(b: u8) -> (r: String)
    ensures
        r@ == hex_byte(b),
{
    let mut s: String = String::new();
    s.push(to_hex_char(b / 16));
    s.push(to_hex_char(b % 16));
    assert(s@ =~= hex_byte(b));
    s
}

/// Two hexadecimal digits stand for one byte: different bytes are written differently.
pub proof fn law_hex_byte_injective(a: u8, b: u8)
    requires
        hex_byte(a) == hex_byte(b),
    ensures
        a == b,
{
    lemma_hex_char_injective((a / 16) as nat, (b / 16) as nat);
    lemma_hex_char_injective((a % 16) as nat, (b % 16) as nat);
    assert(hex_byte(a)[0] == hex_byte(b)[0]);
    assert(hex_byte(a)[1] == hex_byte(b)[1]);
}

/// Different hexadecimal digits are different characters.
pub proof fn lemma_hex_char_injective(a: nat, b: nat)
    requires
        a < 16,
        b < 16,
    ensures
        hex_char(a) == hex_char(b) ==> a == b,
{
}

/// As many digits as asked for.
pub proof fn lemma_hex_digits_len(n: nat, digits: nat)
    ensures
        hex_digits(n, digits).len() == digits,
    decreases digits,
{
    if digits > 0 {
        lemma_hex_digits_len(n / 16, (digits - 1) as nat);
    }
}

/// Hexadecimal digits are letters and digits.
pub proof fn lemma_hex_digits_are_digits(n: nat, digits: nat)
    ensures
        forall|i: int|
            0 <= i < digits ==> ('0' <= #[trigger] hex_digits(n, digits)[i] <= '9' || 'a'
                <= hex_digits(n, digits)[i] <= 'f'),
    decreases digits,
{
    if digits > 0 {
        lemma_hex_digits_are_digits(n / 16, (digits - 1) as nat);
        lemma_hex_digits_len(n / 16, (digits - 1) as nat);
    }
}

/// How many numbers a row of hexadecimal digits can write.
pub open spec fn hex_range(digits: nat) -> nat
    decreases digits,
{
    if digits == 0 {
        1
    } else {
        16 * hex_range((digits - 1) as nat)
    }
}

/// Numbers whose hexadecimal digits agree are equal, as far as the digits reach.
pub proof fn lemma_hex_digits_injective(a: nat, b: nat, digits: nat)
    requires
        hex_digits(a, digits) == hex_digits(b, digits),
        a < hex_range(digits),
        b < hex_range(digits),
    ensures
        a == b,
    decreases digits,
{
    if digits > 0 {
        let p = (digits - 1) as nat;
        let x = hex_digits(a / 16, p);
        let y = hex_digits(b / 16, p);
        let s = hex_digits(a, digits);
        let t = hex_digits(b, digits);
        assert(s == x.push(hex_char(a % 16)));
        assert(t == y.push(hex_char(b % 16)));
        lemma_hex_digits_len(a / 16, p);
        lemma_hex_digits_len(b / 16, p);
        assert(s.last() == t.last());
        lemma_hex_char_injective(a % 16, b % 16);
        assert(x =~= s.drop_last());
        assert(y =~= t.drop_last());
        lemma_hex_digits_injective(a / 16, b / 16, p);
    }
}

/// A number in decimal ends with its last digit, in front of which stand the digits of the tens.
pub proof fn law_decimal_is_by_tens(n: nat, d: nat)
    requires
        d < 10,
    ensures
        decimal(d).len() == 1,
        decimal(d)[0] as int == '0' as int + d,
        n > 0 ==> decimal(10 * n + d) == decimal(n) + decimal(d),
{
    if n > 0 {
        assert((10 * n + d) / 10 == n && (10 * n + d) % 10 == d);
        assert(decimal(10 * n + d) =~= decimal(n) + decimal(d));
    }
}

/// A text is a number exactly where it is digits, behind a plus sign or none, and the number is
/// within its limit; a further digit makes it ten times as much and the digit.
pub proof fn law_digits_are_read(s: Seq<char>, c: char, max: nat)
    requires
        '0' <= c <= '9',
    ensures
        unsigned(seq![c], max) == if c as int - '0' as int <= max {
            Some((c as int - '0' as int) as nat)
        } else {
            None
        },
        unsigned(s, max) matches Some(n) ==> unsigned(s.push(c), max) == if 10 * n + (c as int
            - '0' as int) <= max {
            Some((10 * n + (c as int - '0' as int)) as nat)
        } else {
            None
        },
        s.len() > 0 && s[0] != '+' ==> unsigned(seq!['+'] + s, max) == unsigned(s, max),
        unsigned(Seq::empty(), max) is None,
        unsigned(s, max) matches Some(n) ==> n <= max,
{
    let one = seq![c];
    assert(one.drop_last() =~= Seq::<char>::empty());
    assert(value(one.drop_last()) == 0);
    assert(all_digits(one));
    assert((seq!['+'] + s).skip(1) =~= s);
    if unsigned(s, max) is Some {
        let d = without_plus(s);
        assert(without_plus(s.push(c)) =~= d.push(c));
        assert(d.push(c).drop_last() =~= d);
        assert forall|i: int| 0 <= i < d.push(c).len() implies is_digit(
            #[trigger] d.push(c)[i],
        ) by {
            if i < d.len() {
                assert(d.push(c)[i] == d[i]);
            }
        }
    }
}

/// A text with a character that is no digit is no number, but for a plus sign in front.
pub proof fn law_only_digits_are_read(s: Seq<char>, i: int, max: nat)
    requires
        0 <= i < s.len(),
        !('0' <= s[i] <= '9'),
        i > 0 || s[0] != '+',
    ensures
        unsigned(s, max) is None,
{
    let d = without_plus(s);
    if s[0] == '+' {
        assert(d[i - 1] == s[i]);
        assert(!is_digit(d[i - 1]));
    } else {
        assert(!is_digit(d[i]));
    }
}

} // verus!
