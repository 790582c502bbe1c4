//! IPv4 addresses in dotted decimal notation.

use crate::addr::Ipv4Address;
use crate::text::{
    all_digits, chars_of, decimal, is_digit, join, law_split_by_parts, lemma_decimal,
    lemma_join_split, lemma_split_join, number_of, split, split_str, texts,
};
use vstd::prelude::*;

verus! {

/// The octet that a string stands for: one to three digits without a leading
/// zero, 255 at most.
pub open spec fn octet_of(s: Seq<char>) -> Option<u8> {
    if 1 <= s.len() <= 3 && all_digits(s) && (s.len() > 1 ==> s[0] != '0') && number_of(s)
        <= u8::MAX {
        Some(number_of(s) as u8)
    } else {
        None
    }
}

/// The address that a string stands for: four octets with dots between them.
pub open spec fn ipv4_of(s: Seq<char>) -> Option<Ipv4Address> {
    let parts = split(s, '.');
    if parts.len() != 4 {
        None
    } else {
        match (octet_of(parts[0]), octet_of(parts[1]), octet_of(parts[2]), octet_of(parts[3])) {
            (Some(a), Some(b), Some(c), Some(d)) => Some(Ipv4Address { a, b, c, d }),
            _ => None,
        }
    }
}

/// The four octets in decimal.
pub open spec fn octet_texts(ip: Ipv4Address) -> Seq<Seq<char>> {
    seq![
        decimal(ip.a as nat),
        decimal(ip.b as nat),
        decimal(ip.c as nat),
        decimal(ip.d as nat),
    ]
}

/// How an address is written.
pub open spec fn ipv4_text(ip: Ipv4Address) -> Seq<char> {
    join(octet_texts(ip), '.')
}

/// Reads one octet.
fn parse_octet(s: &str) -> (r: Option<u8>)
    ensures
        r == octet_of(s@),
{
    let chars = chars_of(s);
    if chars.len() == 0 || chars.len() > 3 {
        return None;
    }
    if chars.len() > 1 && chars[0] == '0' {
        return None;
    }
    let mut value: u32 = 0;
    for i in 0..chars.len()
        invariant
            chars@ == s@,
            1 <= chars@.len() <= 3,
            all_digits(s@.take(i as int)),
            value == number_of(s@.take(i as int)),
            i == 0 ==> value == 0,
            i == 1 ==> value < 10,
            i == 2 ==> value < 100,
            i == 3 ==> value < 1000,
    {
        let c = chars[i];
        if c < '0' || '9' < c {
            assert(!is_digit(s@[i as int]));
            return None;
        }
        assert(s@.take(i + 1).drop_last() =~= s@.take(i as int));
        value = value * 10 + (c as u32 - '0' as u32);
    }
    assert(s@.take(s@.len() as int) =~= s@);
    if value > 255 {
        None
    } else {
        Some(value as u8)
    }
}

/// Reads an address.
pub fn parse_ipv4(s: &str) -> (r: Option<Ipv4Address>)
    ensures
        r == ipv4_of(s@),
{
    let parts = split_str(s, '.');
    assert(forall|i: int| 0 <= i < parts@.len() ==> texts(parts@)[i] == (#[trigger] parts@[i])@);
    if parts.len() != 4 {
        return None;
    }
    match (
        parse_octet(parts[0]),
        parse_octet(parts[1]),
        parse_octet(parts[2]),
        parse_octet(parts[3]),
    ) {
        (Some(a), Some(b), Some(c), Some(d)) => Some(Ipv4Address { a, b, c, d }),
        _ => None,
    }
}

/// An octet is read back from its digits.
proof fn lemma_octet_read_back(octet: u8)
    ensures
        octet_of(decimal(octet as nat)) == Some(octet),
{
    lemma_decimal(octet as nat);
}

/// An octet has only one form.
proof fn lemma_octet_form(s: Seq<char>)
    requires
        octet_of(s) is Some,
    ensures
        s == decimal(octet_of(s)->0 as nat),
{
    reveal_with_fuel(number_of, 4);
    reveal_with_fuel(decimal, 4);
    assert(is_digit(s[0]));
    if s.len() > 1 {
        assert(is_digit(s[1]));
    }
    if s.len() > 2 {
        assert(is_digit(s[2]));
    }
    let n = octet_of(s)->0 as nat;
    let (x, y, z) = (s[0] as int - '0' as int, s[1] as int - '0' as int, s[2] as int - '0' as int);
    if s.len() == 1 {
        assert(n == x);
        assert(s =~= decimal(n));
    } else if s.len() == 2 {
        assert(n == x * 10 + y);
        assert(n / 10 == x && n % 10 == y);
        assert(s =~= decimal(n));
    } else {
        assert(n == (x * 10 + y) * 10 + z);
        assert(n / 10 == x * 10 + y && n % 10 == z);
        assert((n / 10) / 10 == x && (n / 10) % 10 == y);
        assert(s =~= decimal(n));
    }
}

/// An address is read back from its text.
pub proof fn law_address_read_back(ip: Ipv4Address)
    ensures
        ipv4_of(ipv4_text(ip)) == Some(ip),
{
    let parts = octet_texts(ip);
    assert forall|i: int| 0 <= i < parts.len() implies !(#[trigger] parts[i]).contains('.') by {
        lemma_decimal(ip@[i] as nat);
        if parts[i].contains('.') {
            let k = choose|k: int| 0 <= k < parts[i].len() && parts[i][k] == '.';
            assert(is_digit(parts[i][k]));
        }
    }
    lemma_split_join(parts, '.');
    lemma_octet_read_back(ip.a);
    lemma_octet_read_back(ip.b);
    lemma_octet_read_back(ip.c);
    lemma_octet_read_back(ip.d);
}

/// A string is read as an address only if it is the text of that address, so
/// that octets with leading zeros, signs or blanks are refused.
pub proof fn law_address_has_one_text(s: Seq<char>, ip: Ipv4Address)
    ensures
        ipv4_of(s) == Some(ip) <==> s == ipv4_text(ip),
{
    if ipv4_of(s) == Some(ip) {
        let parts = split(s, '.');
        lemma_octet_form(parts[0]);
        lemma_octet_form(parts[1]);
        lemma_octet_form(parts[2]);
        lemma_octet_form(parts[3]);
        assert(parts =~= octet_texts(ip));
        lemma_join_split(s, '.');
    }
    law_address_read_back(ip);
}


/// An octet is one digit, or two or three of which the first is not zero, and at
/// most 255. It stands for the number with these digits.
pub proof fn law_octet_by_digits(s: Seq<char>)
    ensures
        octet_of(s) == (if s.len() == 1 && '0' <= s[0] <= '9' {
            Some((s[0] as int - 48) as u8)
        } else if s.len() == 2 && '1' <= s[0] <= '9' && '0' <= s[1] <= '9' {
            Some((10 * (s[0] as int - 48) + (s[1] as int - 48)) as u8)
        } else if s.len() == 3 && '1' <= s[0] <= '9' && '0' <= s[1] <= '9' && '0' <= s[2] <= '9'
            && 100 * (s[0] as int - 48) + 10 * (s[1] as int - 48) + (s[2] as int - 48) <= 255 {
            Some((100 * (s[0] as int - 48) + 10 * (s[1] as int - 48) + (s[2] as int - 48)) as u8)
        } else {
            None
        }),
{
    reveal_with_fuel(number_of, 4);
    if 1 <= s.len() <= 3 {
        if all_digits(s) {
            assert(is_digit(s[0]));
            assert(s.len() > 1 ==> is_digit(s[1]));
            assert(s.len() > 2 ==> is_digit(s[2]));
        }
        if s.len() == 1 && is_digit(s[0]) {
            assert(all_digits(s));
        }
        if s.len() == 2 && is_digit(s[0]) && is_digit(s[1]) {
            assert(all_digits(s));
        }
        if s.len() == 3 && is_digit(s[0]) && is_digit(s[1]) && is_digit(s[2]) {
            assert(all_digits(s));
        }
    }
}

/// Four texts with dots between them are an address exactly if each is an octet,
/// and the octets come in the order of the texts.
pub proof fn law_address_by_octets(w: Seq<char>, x: Seq<char>, y: Seq<char>, z: Seq<char>)
    requires
        !w.contains('.'),
        !x.contains('.'),
        !y.contains('.'),
        !z.contains('.'),
    ensures
        ipv4_of(w.push('.') + x.push('.') + y.push('.') + z) == (match (
            octet_of(w),
            octet_of(x),
            octet_of(y),
            octet_of(z),
        ) {
            (Some(a), Some(b), Some(c), Some(d)) => Some(Ipv4Address { a, b, c, d }),
            _ => None,
        }),
{
    let two = w.push('.') + x;
    let three = two.push('.') + y;
    law_split_by_parts(seq![], w, '.');
    law_split_by_parts(w, x, '.');
    law_split_by_parts(two, y, '.');
    law_split_by_parts(three, z, '.');
    assert(three.push('.') + z =~= w.push('.') + x.push('.') + y.push('.') + z);
    assert(split(three.push('.') + z, '.') =~= seq![w, x, y, z]);
}

/// Only four texts with dots between them are an address.
pub proof fn law_address_has_four_parts(s: Seq<char>)
    requires
        ipv4_of(s) is Some,
    ensures
        exists|w: Seq<char>, x: Seq<char>, y: Seq<char>, z: Seq<char>|
            s == #[trigger] (w.push('.') + x.push('.') + y.push('.') + z) && !w.contains('.')
                && !x.contains('.') && !y.contains('.') && !z.contains('.'),
{
    let parts = split(s, '.');
    lemma_join_split(s, '.');
    reveal_with_fuel(join, 4);
    let (w, x, y, z) = (parts[0], parts[1], parts[2], parts[3]);
    assert(s =~= w.push('.') + x.push('.') + y.push('.') + z);
}

} // verus!
