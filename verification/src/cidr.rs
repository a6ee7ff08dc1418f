//! IPv4 networks.

use crate::number;
use crate::step::CidrError;
use crate::text;
use vstd::prelude::*;
use vstd::string::*;

verus! {

/// An IPv4 network: its address, with every bit behind the prefix cleared, and the length of
/// the prefix.
#[derive(Debug, Clone, Copy, PartialEq, Eq, Structural)]
pub struct Ipv4Cidr {
    pub network: u32,
    pub prefix: u8,
}

/// One of the four bytes of an address, the most significant first.
pub open spec fn octet(address: u32, i: int) -> u8 {
    if i == 0 {
        (address / 0x100_0000) as u8
    } else if i == 1 {
        (address / 0x1_0000 % 256) as u8
    } else if i == 2 {
        (address / 0x100 % 256) as u8
    } else {
        (address % 256) as u8
    }
}

/// The four bytes of an address, the most significant first.
pub open spec fn octets(address: u32) -> Seq<u8> {
    Seq::new(4, |i: int| octet(address, i))
}

/// The address that has the given bytes.
pub open spec fn address_of(a: u8, b: u8, c: u8, d: u8) -> u32 {
    (a * 0x100_0000 + b * 0x1_0000 + c * 0x100 + d) as u32
}

/// Four numbers in decimal, with dots between them.
pub open spec fn quad(a: u8, b: u8, c: u8, d: u8) -> Seq<char> {
    number::decimal(a as nat) + (seq!['.'] + (number::decimal(b as nat) + (seq!['.'] + (
    number::decimal(c as nat) + (seq!['.'] + number::decimal(d as nat))))))
}

/// An address in dotted decimal.
pub open spec fn dotted(address: u32) -> Seq<char> {
    quad(octet(address, 0), octet(address, 1), octet(address, 2), octet(address, 3))
}

/// The address that a text writes in dotted decimal, if it writes one. Every address is written
/// in one way only: four numbers without leading zeros.
pub open spec fn address(s: Seq<char>) -> Option<u32> {
    if exists|a: u32| dotted(a) == s {
        Some(choose|a: u32| dotted(a) == s)
    } else {
        None
    }
}

/// The bits of an address that a prefix covers.
pub open spec fn mask(prefix: u8) -> u32 {
    if prefix == 0 {
        0
    } else {
        u32::MAX << ((32 - prefix) as u32)
    }
}

/// Whether an address lies in a network.
pub open spec fn covers(net: Ipv4Cidr, address: u32) -> bool {
    address & mask(net.prefix) == net.network
}

/// The network that a text describes: an address in dotted decimal, a slash, and the number of
/// leading bits that count.
pub open spec fn parsed(s: Seq<char>) -> Result<Ipv4Cidr, CidrError> {
    match text::cut(s, '/') {
        None => Err(CidrError::NoPrefix),
        Some((ip, len)) => match address(ip) {
            None => Err(CidrError::BadAddress),
            Some(a) => match number::unsigned(len, 255) {
                None => Err(CidrError::BadPrefix),
                Some(p) => if p > 32 {
                    Err(CidrError::PrefixTooLong)
                } else {
                    Ok(Ipv4Cidr { network: a & mask(p as u8), prefix: p as u8 })
                },
            },
        },
    }
}

/// A network as text.
pub open spec fn rendered(net: Ipv4Cidr) -> Seq<char> {
    dotted(net.network) + (seq!['/'] + number::decimal(net.prefix as nat))
}

/// What is wrong with a text that describes no network, in words.
pub open spec fn complaint(s: Seq<char>) -> Seq<char> {
    match text::cut(s, '/') {
        None => "CIDR "@ + text::quoted(s) + " must include /prefix"@,
        Some((ip, len)) => if address(ip) is None {
            "invalid IPv4 "@ + text::quoted(ip)
        } else {
            match number::unsigned(len, 255) {
                None => "invalid prefix in "@ + text::quoted(s),
                Some(p) => "IPv4 prefix must be <= 32, got "@ + number::decimal(p),
            }
        },
    }
}

// ---------------------------------------------------------------------------------------------
// Proofs about dotted decimal
// ---------------------------------------------------------------------------------------------

/// A text that starts with a number is cut behind the number at a separator that is no digit.
proof fn lemma_cut_number(n: nat, sep: char, rest: Seq<char>)
    requires
        !number::is_digit(sep),
    ensures
        text::cut(number::decimal(n) + (seq![sep] + rest), sep) == Some(
            (number::decimal(n), rest),
        ),
{
    let d = number::decimal(n);
    let s = d + (seq![sep] + rest);
    number::lemma_decimal_digits(n);
    assert forall|j: int| 0 <= j < d.len() implies s[j] != sep by {
        assert(s[j] == d[j]);
        assert(number::is_digit(d[j]));
    }
    assert(s[d.len() as int] == sep);
    text::lemma_position_is(s, sep, d.len() as int);
    assert(s.take(d.len() as int) =~= d);
    assert(s.skip(d.len() as int + 1) =~= rest);
}

/// The four numbers are read off one after the other.
proof fn lemma_cut_quad(a: u8, b: u8, c: u8, d: u8)
    ensures
        ({
            let s3 = number::decimal(c as nat) + (seq!['.'] + number::decimal(d as nat));
            let s2 = number::decimal(b as nat) + (seq!['.'] + s3);
            &&& text::cut(quad(a, b, c, d), '.') == Some((number::decimal(a as nat), s2))
            &&& text::cut(s2, '.') == Some((number::decimal(b as nat), s3))
            &&& text::cut(s3, '.') == Some((number::decimal(c as nat), number::decimal(d as nat)))
        }),
{
    let s3 = number::decimal(c as nat) + (seq!['.'] + number::decimal(d as nat));
    let s2 = number::decimal(b as nat) + (seq!['.'] + s3);
    lemma_cut_number(a as nat, '.', s2);
    lemma_cut_number(b as nat, '.', s3);
    lemma_cut_number(c as nat, '.', number::decimal(d as nat));
}

/// Different numbers are written differently.
proof fn lemma_decimal_injective(a: nat, b: nat)
    requires
        number::decimal(a) == number::decimal(b),
    ensures
        a == b,
{
    number::lemma_decimal_value(a);
    number::lemma_decimal_value(b);
}

/// An address is the sum of its bytes, each with its weight.
pub proof fn lemma_octets_sum(x: u32)
    ensures
        x == 0x100_0000 * octet(x, 0) + 0x1_0000 * octet(x, 1) + 0x100 * octet(x, 2) + octet(x, 3),
{
    let a = x / 0x100;
    let b = x / 0x1_0000;
    let c = x / 0x100_0000;
    assert(a == 0x100 * b + a % 0x100);
    assert(b == 0x100 * c + b % 0x100);
    assert(x == 0x100 * a + x % 0x100);
}

/// Bytes make an address, and the address has those bytes.
pub proof fn lemma_octets(a: u8, b: u8, c: u8, d: u8)
    ensures
        octet(address_of(a, b, c, d), 0) == a,
        octet(address_of(a, b, c, d), 1) == b,
        octet(address_of(a, b, c, d), 2) == c,
        octet(address_of(a, b, c, d), 3) == d,
{
    let x: int = a * 0x100_0000 + b * 0x1_0000 + c * 0x100 + d;
    assert(0 <= x <= u32::MAX);
    let y: int = a * 0x1_0000 + b * 0x100 + c;
    let z: int = a * 0x100 + b;
    assert(x == y * 256 + d);
    assert(x / 256 == y && x % 256 == d) by (nonlinear_arith)
        requires
            x == y * 256 + d,
            0 <= d < 256,
    ;
    assert(x / 0x1_0000 == z) by (nonlinear_arith)
        requires
            x == z * 0x1_0000 + (c * 0x100 + d),
            0 <= c * 0x100 + d < 0x1_0000,
    ;
    assert(x / 0x100_0000 == a) by (nonlinear_arith)
        requires
            x == a * 0x100_0000 + (b * 0x1_0000 + c * 0x100 + d),
            0 <= b * 0x1_0000 + c * 0x100 + d < 0x100_0000,
    ;
    assert(y % 256 == c) by (nonlinear_arith)
        requires
            y == z * 256 + c,
            0 <= c < 256,
    ;
    assert(z % 256 == b) by (nonlinear_arith)
        requires
            z == a * 256 + b,
            0 <= b < 256,
    ;
}

/// An address is made of its bytes.
proof fn lemma_address_of_octets(x: u32)
    ensures
        address_of(octet(x, 0), octet(x, 1), octet(x, 2), octet(x, 3)) == x,
{
}

/// Numbers with the same bytes are the same.
pub proof fn lemma_same_octets(x: u32, y: u32)
    requires
        octet(x, 0) == octet(y, 0),
        octet(x, 1) == octet(y, 1),
        octet(x, 2) == octet(y, 2),
        octet(x, 3) == octet(y, 3),
    ensures
        x == y,
{
    lemma_address_of_octets(x);
    lemma_address_of_octets(y);
}

/// Different addresses are written differently.
pub proof fn law_dotted_injective(x: u32, y: u32)
    requires
        dotted(x) == dotted(y),
    ensures
        x == y,
{
    lemma_cut_quad(octet(x, 0), octet(x, 1), octet(x, 2), octet(x, 3));
    lemma_cut_quad(octet(y, 0), octet(y, 1), octet(y, 2), octet(y, 3));
    lemma_decimal_injective(octet(x, 0) as nat, octet(y, 0) as nat);
    lemma_decimal_injective(octet(x, 1) as nat, octet(y, 1) as nat);
    lemma_decimal_injective(octet(x, 2) as nat, octet(y, 2) as nat);
    lemma_decimal_injective(octet(x, 3) as nat, octet(y, 3) as nat);
    lemma_address_of_octets(x);
    lemma_address_of_octets(y);
}

/// What is written in dotted decimal is read back unchanged.
pub proof fn law_address_round_trip(x: u32)
    ensures
        address(dotted(x)) == Some(x),
{
    let y = choose|a: u32| dotted(a) == dotted(x);
    law_dotted_injective(x, y);
}

// ---------------------------------------------------------------------------------------------
// Reading and writing
// ---------------------------------------------------------------------------------------------

/// Reads a number of eight bits that is written without a sign and without leading zeros.
fn parse_octet(s: &str) -> (r: Option<u8>)
    ensures
        match r {
            Some(n) => s@ == number::decimal(n as nat),
            None => forall|n: u8| s@ != #[trigger] number::decimal(n as nat),
        },
{
    match number::parse_unsigned(s, 255) {
        None => {
            assert forall|n: u8| s@ != #[trigger] number::decimal(n as nat) by {
                number::law_decimal_round_trip(n as nat, 255);
            }
            None
        },
        Some(v) => {
            let back = number::to_decimal(v);
            if text::same(back.as_str(), s) {
                Some(v as u8)
            } else {
                assert forall|n: u8| s@ != #[trigger] number::decimal(n as nat) by {
                    number::law_decimal_round_trip(n as nat, 255);
                }
                None
            }
        },
    }
}

/// Reads an address in dotted decimal.
pub fn parse_address(s: &str) -> (r: Option<u32>)
    ensures
        r == address(s@),
{
    proof {
        assert forall|a: u32| dotted(a) == s@ implies address(s@) == Some(a) by {
            law_address_round_trip(a);
        }
        assert forall|a: u32| dotted(a) == s@ implies {
            let s3 = number::decimal(octet(a, 2) as nat) + (seq!['.'] + number::decimal(
                octet(a, 3) as nat,
            ));
            let s2 = number::decimal(octet(a, 1) as nat) + (seq!['.'] + s3);
            &&& text::cut(s@, '.') == Some((number::decimal(octet(a, 0) as nat), s2))
            &&& text::cut(s2, '.') == Some((number::decimal(octet(a, 1) as nat), s3))
            &&& text::cut(s3, '.') == Some(
                (number::decimal(octet(a, 2) as nat), number::decimal(octet(a, 3) as nat)),
            )
        } by {
            lemma_cut_quad(octet(a, 0), octet(a, 1), octet(a, 2), octet(a, 3));
        }
    }
    let (p0, t0) = match text::split_once(s, '.') {
        Some(x) => x,
        None => {
            return None;
        },
    };
    let (p1, t1) = match text::split_once(t0, '.') {
        Some(x) => x,
        None => {
            return None;
        },
    };
    let (p2, p3) = match text::split_once(t1, '.') {
        Some(x) => x,
        None => {
            return None;
        },
    };
    match (parse_octet(p0), parse_octet(p1), parse_octet(p2), parse_octet(p3)) {
        (Some(a), Some(b), Some(c), Some(d)) => {
            let x: u32 = (a as u32) * 0x100_0000 + (b as u32) * 0x1_0000 + (c as u32) * 0x100 + (
            d as u32);
            proof {
                lemma_octets(a, b, c, d);
                lemma_joined(s@, '.');
                lemma_joined(t0@, '.');
                lemma_joined(t1@, '.');
                assert(s@ =~= quad(a, b, c, d));
                assert(dotted(x) == s@);
            }
            Some(x)
        },
        _ => None,
    }
}

/// What was cut goes together again.
proof fn lemma_joined(s: Seq<char>, sep: char)
    ensures
        match text::cut(s, sep) {
            Some((a, b)) => s == a + (seq![sep] + b),
            None => true,
        },
{
    text::lemma_position(s, sep);
    let n = text::position(s, sep);
    if n < s.len() {
        assert(s =~= s.take(n) + (seq![sep] + s.skip(n + 1)));
    }
}

/// Reads a network.
pub fn parse_ipv4_cidr(raw: &str) -> (r: Result<Ipv4Cidr, CidrError>)
    ensures
        r == parsed(raw@),
{
    let (ip, len) = match text::split_once(raw, '/') {
        Some(x) => x,
        None => {
            return Err(CidrError::NoPrefix);
        },
    };
    let a: u32 = match parse_address(ip) {
        Some(a) => a,
        None => {
            return Err(CidrError::BadAddress);
        },
    };
    let prefix: u8 = match number::parse_unsigned(len, 255) {
        Some(p) => p as u8,
        None => {
            return Err(CidrError::BadPrefix);
        },
    };
    if prefix > 32 {
        return Err(CidrError::PrefixTooLong);
    }
    let m: u32 = if prefix == 0 {
        0
    } else {
        u32::MAX << ((32 - prefix) as u32)
    };
    Ok(Ipv4Cidr { network: a & m, prefix })
}

/// Writes an address in dotted decimal.
pub fn to_dotted(a: u8, b: u8, c: u8, d: u8) -> (r: String)
    ensures
        r@ == quad(a, b, c, d),
{
    let mut r: String = number::to_decimal(a as u64);
    r.push('.');
    r.append(number::to_decimal(b as u64).as_str());
    r.push('.');
    r.append(number::to_decimal(c as u64).as_str());
    r.push('.');
    r.append(number::to_decimal(d as u64).as_str());
    assert(r@ =~= quad(a, b, c, d));
    r
}

/// The bytes of an address.
pub fn to_octets(address: u32) -> (r: Vec<u8>)
    ensures
        r@ == octets(address),
{
    let r: Vec<u8> = vec![
        (address / 0x100_0000) as u8,
        (address / 0x1_0000 % 256) as u8,
        (address / 0x100 % 256) as u8,
        (address % 256) as u8,
    ];
    assert(r@ =~= octets(address));
    r
}

// ---------------------------------------------------------------------------------------------
// Laws
// ---------------------------------------------------------------------------------------------

/// Tells what is wrong with a text that describes no network.
pub fn explain(raw: &str) -> (r: String)
    ensures
        r@ == complaint(raw@),
{
    let (ip, len) = match text::split_once(raw, '/') {
        Some(parts) => parts,
        None => {
            return "CIDR ".to_owned().concat(text::quote(raw).as_str()).concat(
                " must include /prefix",
            );
        },
    };
    if parse_address(ip).is_none() {
        return "invalid IPv4 ".to_owned().concat(text::quote(ip).as_str());
    }
    match number::parse_unsigned(len, 255) {
        None => "invalid prefix in ".to_owned().concat(text::quote(raw).as_str()),
        Some(p) => "IPv4 prefix must be <= 32, got ".to_owned().concat(
            number::to_decimal(p).as_str(),
        ),
    }
}

/// A network that is read has no bit set behind its prefix, and its prefix is no longer than an
/// address.
pub proof fn law_network_is_normalized(s: Seq<char>)
    ensures
        match parsed(s) {
            Ok(net) => net.prefix <= 32 && net.network & mask(net.prefix) == net.network,
            Err(_) => true,
        },
{
    if let Some((ip, len)) = text::cut(s, '/') {
        if let Some(a) = address(ip) {
            if let Some(p) = number::unsigned(len, 255) {
                let m = mask(p as u8);
                assert((a & m) & m == a & m) by (bit_vector);
            }
        }
    }
}

/// The address that stands in a text lies in the network that the text describes.
pub proof fn law_network_covers_its_address(x: u32, prefix: u8)
    requires
        prefix <= 32,
    ensures
        parsed(dotted(x) + (seq!['/'] + number::decimal(prefix as nat))) == Ok::<
            Ipv4Cidr,
            CidrError,
        >(Ipv4Cidr { network: x & mask(prefix), prefix }),
        covers(Ipv4Cidr { network: x & mask(prefix), prefix }, x),
{
    let s = dotted(x) + (seq!['/'] + number::decimal(prefix as nat));
    lemma_dotted_has_no_slash(x);
    assert forall|j: int| 0 <= j < dotted(x).len() implies s[j] != '/' by {
        assert(s[j] == dotted(x)[j]);
    }
    text::lemma_position_is(s, '/', dotted(x).len() as int);
    assert(s.take(dotted(x).len() as int) =~= dotted(x));
    assert(s.skip(dotted(x).len() as int + 1) =~= number::decimal(prefix as nat));
    law_address_round_trip(x);
    number::law_decimal_round_trip(prefix as nat, 255);
}

proof fn lemma_dotted_has_no_slash(x: u32)
    ensures
        forall|j: int| 0 <= j < dotted(x).len() ==> dotted(x)[j] != '/',
{
    number::lemma_decimal_digits(octet(x, 0) as nat);
    number::lemma_decimal_digits(octet(x, 1) as nat);
    number::lemma_decimal_digits(octet(x, 2) as nat);
    number::lemma_decimal_digits(octet(x, 3) as nat);
}

/// Reading back what a network is written as gives the network.
pub proof fn law_network_round_trip(net: Ipv4Cidr)
    requires
        net.prefix <= 32,
        net.network & mask(net.prefix) == net.network,
    ensures
        parsed(rendered(net)) == Ok::<Ipv4Cidr, CidrError>(net),
{
    law_network_covers_its_address(net.network, net.prefix);
}

/// Every address of a network stands for the same network.
pub proof fn law_network_is_a_class(x: u32, y: u32, prefix: u8)
    requires
        prefix <= 32,
        covers(Ipv4Cidr { network: x & mask(prefix), prefix }, y),
    ensures
        parsed(dotted(y) + (seq!['/'] + number::decimal(prefix as nat))) == parsed(
            dotted(x) + (seq!['/'] + number::decimal(prefix as nat)),
        ),
{
    law_network_covers_its_address(x, prefix);
    law_network_covers_its_address(y, prefix);
}

/// The network without a prefix holds every address.
pub proof fn law_zero_prefix_covers_all(x: u32, y: u32)
    ensures
        covers(Ipv4Cidr { network: x & mask(0), prefix: 0 }, y),
{
    assert(x & 0 == 0) by (bit_vector);
    assert(y & 0 == 0) by (bit_vector);
}

/// Two addresses lie in one network exactly where their leading bits agree, as many as the prefix
/// says.
pub proof fn law_prefix_counts_leading_bits(x: u32, y: u32, prefix: u8)
    requires
        0 < prefix <= 32,
    ensures
        covers(Ipv4Cidr { network: x & mask(prefix), prefix }, y) <==> x >> ((32 - prefix) as u32)
            == y >> ((32 - prefix) as u32),
{
    let s = (32 - prefix) as u32;
    assert((y & (0xffff_ffffu32 << s) == x & (0xffff_ffffu32 << s)) <==> (x >> s == y >> s))
        by (bit_vector)
        requires
            s < 32,
    ;
}

/// A text is a network exactly where an address in dotted decimal stands in front of its first
/// slash and a number of at most 32 behind it. What is missing first is what it is refused for.
pub proof fn law_network_is_read(s: Seq<char>, i: int)
    requires
        0 <= i < s.len(),
        s[i] == '/',
        forall|j: int| 0 <= j < i ==> s[j] != '/',
    ensures
        ({
            let ip = address(s.take(i));
            let len = number::unsigned(s.skip(i + 1), 255);
            &&& parsed(s) is Ok <==> ip is Some && len is Some && len->Some_0 <= 32
            &&& parsed(s) matches Ok(net) ==> net.prefix == len->Some_0 && net.network == (
            ip->Some_0 & mask(net.prefix))
            &&& parsed(s) == Err::<Ipv4Cidr, CidrError>(CidrError::BadAddress) <==> ip is None
            &&& parsed(s) == Err::<Ipv4Cidr, CidrError>(CidrError::BadPrefix) <==> ip is Some
                && len is None
            &&& parsed(s) == Err::<Ipv4Cidr, CidrError>(CidrError::PrefixTooLong) <==> ip is Some
                && len is Some && len->Some_0 > 32
        }),
{
    text::lemma_position_is(s, '/', i);
}

/// A text without a slash is no network.
pub proof fn law_network_needs_a_prefix(s: Seq<char>)
    ensures
        parsed(s) == Err::<Ipv4Cidr, CidrError>(CidrError::NoPrefix) <==> !s.contains('/'),
{
    text::law_cut_parts_make_the_text(s, '/');
    if let Some((a, b)) = text::cut(s, '/') {
        assert(s[a.len() as int] == '/');
    }
}

/// What is said of a text that is no network names what is wrong with it.
pub proof fn law_complaint_tells_the_error(s: Seq<char>)
    ensures
        parsed(s) == Err::<Ipv4Cidr, CidrError>(CidrError::NoPrefix) ==> complaint(s) == "CIDR "@
            + text::quoted(s) + " must include /prefix"@,
        parsed(s) == Err::<Ipv4Cidr, CidrError>(CidrError::BadAddress) ==> complaint(s)
            == "invalid IPv4 "@ + text::quoted(text::cut(s, '/')->Some_0.0),
        parsed(s) == Err::<Ipv4Cidr, CidrError>(CidrError::BadPrefix) ==> complaint(s)
            == "invalid prefix in "@ + text::quoted(s),
        parsed(s) == Err::<Ipv4Cidr, CidrError>(CidrError::PrefixTooLong) ==> complaint(s)
            == "IPv4 prefix must be <= 32, got "@ + number::decimal(
            number::unsigned(text::cut(s, '/')->Some_0.1, 255)->Some_0,
        ),
{
}

/// An address is four numbers with dots between them, the one with the most weight first.
pub proof fn law_dotted_address_is_its_bytes(a: u8, b: u8, c: u8, d: u8)
    ensures
        address(
            number::decimal(a as nat) + (seq!['.'] + (number::decimal(b as nat) + (seq!['.'] + (
            number::decimal(c as nat) + (seq!['.'] + number::decimal(d as nat)))))),
        ) == Some((a * 0x100_0000 + b * 0x1_0000 + c * 0x100 + d) as u32),
{
    let x = address_of(a, b, c, d);
    lemma_octets(a, b, c, d);
    law_address_round_trip(x);
}

} // verus!
