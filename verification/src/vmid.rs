//! The identifiers of VMs.

use crate::model;
use crate::number;
use vstd::prelude::*;
use vstd::string::*;

verus! {

/// The UUID of a VM, as the number that its 128 bits make.
#[derive(Debug, Clone, Copy, PartialEq, Eq, Structural)]
pub struct VmId {
    pub bits: u128,
}

/// A UUID as 32 hexadecimal digits.
pub open spec fn simple(id: VmId) -> Seq<char> {
    number::hex_digits(id.bits as nat, 32)
}

/// A UUID as 32 hexadecimal digits in five groups, with hyphens between them.
pub open spec fn hyphenated(id: VmId) -> Seq<char> {
    let d = simple(id);
    d.subrange(0, 8).push('-') + d.subrange(8, 12).push('-') + d.subrange(12, 16).push('-')
        + d.subrange(16, 20).push('-') + d.subrange(20, 32)
}

/// `uuid::Uuid::simple`, displayed: 32 lower-case hexadecimal digits, the most significant
/// first.
#[verifier::external_body]
fn uuid_simple(bits: u128) -> (r: String)
    ensures
        r@ == number::hex_digits(bits as nat, 32),
{
    uuid::Uuid::from_u128(bits).simple().to_string()
}

/// `uuid::Uuid::hyphenated`, displayed, which is also how a `uuid::Uuid` itself displays: the
/// same digits in groups of eight, four, four, four and twelve.
#[verifier::external_body]
fn uuid_hyphenated(bits: u128) -> (r: String)
    ensures
        r@ == hyphenated(VmId { bits }),
{
    uuid::Uuid::from_u128(bits).hyphenated().to_string()
}

/// The id as 32 hexadecimal digits.
pub fn simple_text(id: VmId) -> (r: String)
    ensures
        r@ == simple(id),
{
    uuid_simple(id.bits)
}

/// The id in its usual form.
pub fn hyphenated_text(id: VmId) -> (r: String)
    ensures
        r@ == hyphenated(id),
{
    uuid_hyphenated(id.bits)
}

/// The digits reach as far as the number does.
proof fn lemma_range(id: VmId)
    ensures
        id.bits < number::hex_range(32),
{
    reveal_with_fuel(number::hex_range, 33);
}

/// Different VMs have different texts.
pub proof fn law_simple_injective(a: VmId, b: VmId)
    requires
        simple(a) == simple(b),
    ensures
        a == b,
{
    lemma_range(a);
    lemma_range(b);
    number::lemma_hex_digits_injective(a.bits as nat, b.bits as nat, 32);
}

/// Different VMs have different texts in the usual form, too.
pub proof fn law_hyphenated_injective(a: VmId, b: VmId)
    requires
        hyphenated(a) == hyphenated(b),
    ensures
        a == b,
{
    let d = simple(a);
    let e = simple(b);
    number::lemma_hex_digits_len(a.bits as nat, 32);
    number::lemma_hex_digits_len(b.bits as nat, 32);
    let s = hyphenated(a);
    let t = hyphenated(b);
    assert forall|i: int| 0 <= i < 32 implies d[i] == e[i] by {
        let j = if i < 8 {
            i
        } else if i < 12 {
            i + 1
        } else if i < 16 {
            i + 2
        } else if i < 20 {
            i + 3
        } else {
            i + 4
        };
        assert(s[j] == d[i]);
        assert(t[j] == e[i]);
    }
    assert(d =~= e);
    law_simple_injective(a, b);
}

/// The digits of an id write its number: the last of them is the lowest four bits.
pub proof fn law_digits_write_the_id(id: VmId, i: int)
    requires
        0 <= i < 32,
    ensures
        simple(id).len() == 32,
        model::digit(simple(id)[i]) == id.bits as int / number::hex_range((31 - i) as nat) as int
            % 16,
{
    number::lemma_hex_digits_len(id.bits as nat, 32);
    lemma_digit_at(id.bits as nat, 32, i);
}

proof fn lemma_digit_of_char(d: nat)
    requires
        d < 16,
    ensures
        model::digit(number::hex_char(d)) == d,
{
}

proof fn lemma_digit_at(n: nat, digits: nat, i: int)
    requires
        0 <= i < digits,
    ensures
        hex_at(n, digits, i) == n as int / number::hex_range((digits - 1 - i) as nat) as int % 16,
    decreases digits,
{
    let p = (digits - 1) as nat;
    number::lemma_hex_digits_len(n / 16, p);
    if i == digits - 1 {
        assert(number::hex_digits(n, digits)[i] == number::hex_char(n % 16));
        assert(number::hex_range(0) == 1);
        lemma_digit_of_char(n % 16);
        assert(n as int / 1 == n as int);
    } else {
        lemma_digit_at(n / 16, p, i);
        let r = number::hex_range((p - 1 - i) as nat);
        lemma_range_positive((p - 1 - i) as nat);
        assert(number::hex_digits(n, digits)[i] == number::hex_digits(n / 16, p)[i]);
        assert(number::hex_range((digits - 1 - i) as nat) == 16 * r);
        vstd::arithmetic::div_mod::lemma_div_denominator(n as int, 16, r as int);
        assert((n / 16) as int / r as int == n as int / (16 * r as int));
    }
}

/// The value of a digit of a number in hexadecimal.
spec fn hex_at(n: nat, digits: nat, i: int) -> int {
    model::digit(number::hex_digits(n, digits)[i])
}

proof fn lemma_range_positive(digits: nat)
    ensures
        number::hex_range(digits) > 0,
    decreases digits,
{
    if digits > 0 {
        lemma_range_positive((digits - 1) as nat);
    }
}

/// The usual form of an id is its digits with four hyphens, behind eight, twelve, sixteen and
/// twenty of them.
pub proof fn law_hyphens_divide_the_digits(id: VmId)
    ensures
        ({
            let s = hyphenated(id);
            &&& s.len() == 36
            &&& s[8] == '-' && s[13] == '-' && s[18] == '-' && s[23] == '-'
            &&& s.subrange(0, 8) + s.subrange(9, 13) + s.subrange(14, 18) + s.subrange(19, 23)
                + s.subrange(24, 36) == simple(id)
        }),
{
    number::lemma_hex_digits_len(id.bits as nat, 32);
    let s = hyphenated(id);
    assert(s.subrange(0, 8) + s.subrange(9, 13) + s.subrange(14, 18) + s.subrange(19, 23)
        + s.subrange(24, 36) =~= simple(id));
}

} // verus!
